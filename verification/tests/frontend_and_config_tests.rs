use fuse_img2heic::config::{Config, FuseSettings, HeicSettings};
use fuse_img2heic::frontend::{
    assemble_dir_entries, attr_size, create_file_attr, prefetch_targets, slice_bytes, slice_range,
    DirEntryIn,
};

#[test]
fn read_ranges_follow_the_byte_contract() {
    assert_eq!(slice_range(10, 0, 4), (0, 4));
    assert_eq!(slice_range(10, 8, 4), (8, 10));
    assert_eq!(slice_range(10, 10, 4), (10, 10));
    // An offset past end-of-file yields an empty slice, not an error.
    assert_eq!(slice_range(10, 20, 1 << 20), (10, 10));
    assert_eq!(slice_range(0, 0, 1), (0, 0));

    let data: Vec<u8> = (0u8..10).collect();
    assert_eq!(slice_bytes(&data, 2, 3), vec![2, 3, 4]);
    assert_eq!(slice_bytes(&data, 8, 100), vec![8, 9]);
    assert_eq!(slice_bytes(&data, 50, 3), Vec::<u8>::new());
}

#[test]
fn attributes_follow_the_response_contract() {
    let f = create_file_attr(7, 1025, false, 1000, 1000, 99, 5);
    assert_eq!(f.perm, 0o644);
    assert_eq!(f.nlink, 1);
    assert_eq!(f.blksize, 4096);
    assert_eq!(f.blocks, 3); // 1025 bytes need three 512-byte blocks
    assert_eq!((f.uid, f.gid), (1000, 1000));
    assert_eq!((f.mtime_secs, f.mtime_nanos), (99, 5));
    let d = create_file_attr(1, 0, true, 0, 0, 0, 0);
    assert_eq!(d.perm, 0o755);
    assert!(d.is_dir);
    assert_eq!(d.blocks, 0);
}

#[test]
fn reported_size_prefers_the_cached_artifact() {
    assert_eq!(attr_size(Some(4096), 123), 4096);
    assert_eq!(attr_size(None, 123), 123);
}

#[test]
fn directory_streams_obey_the_cookie_contract() {
    let entries = vec![
        DirEntryIn { name: "album".to_string(), inode: 5, is_dir: true },
        DirEntryIn { name: "photo.heic".to_string(), inode: 6, is_dir: false },
    ];
    let all = assemble_dir_entries(2, 1, &entries, 0);
    let view: Vec<(&str, u64, bool, u64)> =
        all.iter().map(|e| (e.name.as_str(), e.inode, e.is_dir, e.offset)).collect();
    assert_eq!(
        view,
        vec![
            (".", 2, true, 1),
            ("..", 1, true, 2),
            ("album", 5, true, 3),
            ("photo.heic", 6, false, 4),
        ]
    );
    // The offset skips already-delivered entries.
    let rest = assemble_dir_entries(2, 1, &entries, 2);
    assert_eq!(rest.len(), 2);
    assert_eq!(rest[0].name, "album");
    assert!(assemble_dir_entries(2, 1, &entries, 9).is_empty());
}

#[test]
fn prefetch_picks_the_following_siblings() {
    let names: Vec<String> =
        ["a.jpg", "b.jpg", "c.jpg", "d.jpg", "e.jpg"].iter().map(|s| s.to_string()).collect();
    assert_eq!(prefetch_targets(&names, "b.jpg", 2), vec!["c.jpg", "d.jpg"]);
    assert_eq!(prefetch_targets(&names, "d.jpg", 5), vec!["e.jpg"]);
    assert_eq!(prefetch_targets(&names, "e.jpg", 3), Vec::<String>::new());
    assert_eq!(prefetch_targets(&names, "missing.jpg", 3), Vec::<String>::new());
    assert_eq!(prefetch_targets(&names, "a.jpg", 0), Vec::<String>::new());
}

#[test]
fn resolution_limits_parse_exactly() {
    let s = HeicSettings::new(50, 4, 420, Some("2560,1440".to_string()));
    assert_eq!(s.get_max_resolution(), Some((2560, 1440)));
    let spaced = HeicSettings::new(50, 4, 420, Some(" 2560 , 1440 ".to_string()));
    assert_eq!(spaced.get_max_resolution(), Some((2560, 1440)));
    let plus = HeicSettings::new(50, 4, 420, Some("+12,+13".to_string()));
    assert_eq!(plus.get_max_resolution(), Some((12, 13)));
    let none = HeicSettings::new(50, 4, 420, None);
    assert_eq!(none.get_max_resolution(), None);
    for bad in ["", "2560", "a,b", "1,2,3", "2560,", ",1440", "4294967296,1"] {
        let s = HeicSettings::new(50, 4, 420, Some(bad.to_string()));
        assert_eq!(s.get_max_resolution(), None, "{bad}");
    }
}

#[test]
fn resize_triggers_only_beyond_the_limit() {
    let s = HeicSettings::new(50, 4, 420, Some("2560,1440".to_string()));
    assert!(!s.should_resize(2560, 1440));
    assert!(s.should_resize(2561, 1440));
    assert!(s.should_resize(2560, 1441));
    let unlimited = HeicSettings::new(50, 4, 420, None);
    assert!(!unlimited.should_resize(99999, 99999));
}

#[test]
fn defaults_match_the_documented_configuration() {
    let c = Config::default_config("/home/u");
    assert_eq!(c.mount_point, "/tmp/fuse-img2heic");
    assert_eq!(c.source_paths.len(), 2);
    assert_eq!(c.source_paths[0].path, "/home/u/Pictures");
    assert!(c.source_paths[0].recursive);
    assert_eq!(c.source_paths[0].mount_name, "pictures");
    assert_eq!(c.source_paths[1].path, "/home/u/Downloads");
    assert!(!c.source_paths[1].recursive);
    assert_eq!(c.source_paths[1].mount_name, "downloads");
    assert_eq!(c.filename_patterns, vec![".*\\.(jpg|jpeg|png|gif|heic)$"]);
    assert_eq!(c.heic_settings.quality, 50);
    assert_eq!(c.heic_settings.speed, 4);
    assert_eq!(c.heic_settings.chroma, 420);
    assert_eq!(c.heic_settings.max_resolution, None);
    assert_eq!(c.cache.max_size_mb, 1024);
    assert_eq!(c.cache.cache_dir, None);
    assert!(c.cache.enable_encryption);
    assert_eq!(c.fuse.cache_timeout, 60);
    assert_eq!(c.fuse.prefetch_count, 0);
    assert_eq!(c.logging.level, "warn");

    let f = FuseSettings::default();
    assert_eq!(f.cache_timeout, 60);
    assert_eq!(f.prefetch_count, 0);
}
