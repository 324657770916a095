use fuse_img2heic::config::SourcePath;
use fuse_img2heic::inode::{InodeTable, ROOT_INODE};
use fuse_img2heic::mapper::{
    child_virtual_path, find_root, first_existing, get_virtual_path, has_heic_extension,
    host_base, join_path, list_host_directory, replace_extension, resolve_candidates, HostEntry,
};
use fuse_img2heic::pool::{FlightStatus, InFlightTable};

fn root(path: &str, mount_name: &str, recursive: bool) -> SourcePath {
    SourcePath { path: path.to_string(), recursive, mount_name: mount_name.to_string() }
}

#[test]
fn virtual_paths_compose() {
    assert_eq!(child_virtual_path("/", "pictures"), "pictures");
    assert_eq!(child_virtual_path("pictures", "photo.heic"), "pictures/photo.heic");
    assert_eq!(join_path("/src", "photo.jpg"), "/src/photo.jpg");
}

#[test]
fn extensions_rewrite() {
    assert_eq!(replace_extension("photo.jpg", "heic"), "photo.heic");
    assert_eq!(replace_extension("archive.tar.gz", "heic"), "archive.tar.heic");
    assert_eq!(replace_extension("noext", "heic"), "noext.heic");
    assert_eq!(replace_extension(".bashrc", "heic"), ".bashrc.heic");
    assert!(has_heic_extension("photo.heic"));
    assert!(!has_heic_extension("photo.HEIC"));
    assert!(!has_heic_extension("photo.jpg"));
    assert!(!has_heic_extension("heic"));
}

#[test]
fn roots_resolve_by_mount_name() {
    let roots = vec![root("/srv/pics", "pictures", true), root("/home/u/dl", "downloads", false)];
    assert_eq!(find_root(&roots, "pictures"), Some(0));
    assert_eq!(find_root(&roots, "downloads"), Some(1));
    assert_eq!(find_root(&roots, "music"), None);
    assert_eq!(host_base("/srv/pics", &vec!["album".to_string(), "photo.heic".to_string()]),
        "/srv/pics/album/photo.heic");
}

#[test]
fn heic_sources_are_tried_first() {
    // The candidate order starts with `heic`, so an existing HEIC source
    // wins and is re-encoded with the current parameters.
    let cands = resolve_candidates("/src/photo.heic");
    assert_eq!(cands.len(), 8);
    assert_eq!(cands[0], "/src/photo.heic");
    assert_eq!(cands[1], "/src/photo.jpg");
    assert_eq!(cands[2], "/src/photo.jpeg");
    assert_eq!(cands[7], "/src/photo.tiff");

    // Only the HEIC source exists: it is chosen.
    let exists = vec![true, false, false, false, false, false, false, false];
    assert_eq!(first_existing(&cands, &exists), Some(0));
    // Only the JPEG exists: the JPEG backs the virtual file.
    let exists = vec![false, true, false, false, false, false, false, false];
    assert_eq!(first_existing(&cands, &exists), Some(1));
    let exists = vec![false; 8];
    assert_eq!(first_existing(&cands, &exists), None);
}

#[test]
fn listing_rewrites_filters_and_excludes() {
    let entries = vec![
        HostEntry { name: "photo.jpg".to_string(), is_dir: false, is_image: true },
        HostEntry { name: "notes.txt".to_string(), is_dir: false, is_image: false },
        HostEntry { name: "album".to_string(), is_dir: true, is_image: false },
        HostEntry { name: "mnt".to_string(), is_dir: true, is_image: false },
        HostEntry { name: "already.heic".to_string(), is_dir: false, is_image: true },
    ];
    // The mount point lives beneath the listed directory and is excluded.
    let listing = list_host_directory("/home", "/home/mnt", &entries);
    let names: Vec<&str> = listing.iter().map(|e| e.name.as_str()).collect();
    assert_eq!(names, vec!["photo.heic", "album", "already.heic"]);
    assert!(!listing[0].is_dir);
    assert!(listing[1].is_dir);
}

#[test]
fn listing_deduplicates_colliding_names() {
    let entries = vec![
        HostEntry { name: "photo.jpg".to_string(), is_dir: false, is_image: true },
        HostEntry { name: "photo.png".to_string(), is_dir: false, is_image: true },
    ];
    let listing = list_host_directory("/pics", "/mnt", &entries);
    assert_eq!(listing.len(), 1);
    assert_eq!(listing[0].name, "photo.heic");
}

#[test]
fn real_paths_map_back_to_virtual_names() {
    let roots = vec![root("/src", "pictures", false)];
    assert_eq!(
        get_virtual_path("/src/photo.jpg", &roots, true),
        Some("pictures/photo.heic".to_string())
    );
    assert_eq!(
        get_virtual_path("/src/notes.txt", &roots, false),
        Some("pictures/notes.txt".to_string())
    );
    assert_eq!(get_virtual_path("/elsewhere/photo.jpg", &roots, true), None);
}

#[test]
fn inodes_are_stable_and_never_reused() {
    let mut table = InodeTable::new();
    assert_eq!(ROOT_INODE, 1);
    let a = table.allocate("pictures/a.heic");
    let b = table.allocate("pictures/b.heic");
    assert_eq!(a, 2);
    assert_eq!(b, 3);
    assert_ne!(a, b);
    // The same virtual path seen again yields the identical inode.
    assert_eq!(table.allocate("pictures/a.heic"), a);
    assert_eq!(table.allocate("pictures/b.heic"), b);
    assert_eq!(table.len(), 2);
    assert_eq!(table.path_of(a), Some("pictures/a.heic".to_string()));
    assert_eq!(table.path_of(b), Some("pictures/b.heic".to_string()));
    assert_eq!(table.path_of(99), None);
    assert_eq!(table.path_of(ROOT_INODE), None);
}

#[test]
fn single_flight_admits_one_leader_per_key() {
    let mut flights = InFlightTable::new();
    assert_eq!(flights.begin("key-1"), FlightStatus::Leader);
    // Concurrent callers for the same key join as followers: the codec
    // runs at most once per key.
    assert_eq!(flights.begin("key-1"), FlightStatus::Follower);
    assert_eq!(flights.begin("key-1"), FlightStatus::Follower);
    // An unrelated key gets its own leader.
    assert_eq!(flights.begin("key-2"), FlightStatus::Leader);
    // After the leader publishes, the key can be led again.
    flights.finish("key-1");
    assert_eq!(flights.begin("key-1"), FlightStatus::Leader);
    assert_eq!(flights.begin("key-2"), FlightStatus::Follower);
}
