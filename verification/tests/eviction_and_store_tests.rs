use fuse_img2heic::eviction::plan_eviction;
use fuse_img2heic::store::ImageCache;

#[test]
fn eviction_keeps_the_newest_within_budget() {
    // Ten artifacts of 300 KiB against a 1 MiB budget: only the three
    // most recently accessed fit; the seven oldest are planned away.
    let stamps: Vec<u64> = (1u64..=10).collect();
    let sizes: Vec<u64> = vec![300 * 1024; 10];
    let plan = plan_eviction(&stamps, &sizes, 1024 * 1024);
    assert_eq!(plan, (0usize..7).collect::<Vec<usize>>());
    let remaining: u64 = sizes
        .iter()
        .enumerate()
        .filter(|(i, _)| !plan.contains(i))
        .map(|(_, s)| *s)
        .sum();
    assert!(remaining <= 1024 * 1024);
}

#[test]
fn eviction_goes_oldest_first_whatever_the_order() {
    let stamps: Vec<u64> = vec![5, 1, 9, 3, 7];
    let sizes: Vec<u64> = vec![100, 100, 100, 100, 100];
    let plan = plan_eviction(&stamps, &sizes, 250);
    // Deletes until 250 bytes remain: stamps 1, 3 and 5 go, 7 and 9 stay.
    assert_eq!(plan, vec![1, 3, 0]);
}

#[test]
fn eviction_is_empty_when_the_total_fits() {
    let stamps: Vec<u64> = vec![1, 2, 3];
    let sizes: Vec<u64> = vec![10, 10, 10];
    assert!(plan_eviction(&stamps, &sizes, 30).is_empty());
    assert!(plan_eviction(&Vec::new(), &Vec::new(), 0).is_empty());
}

#[test]
fn eviction_clears_everything_under_a_zero_budget() {
    let stamps: Vec<u64> = vec![2, 1];
    let sizes: Vec<u64> = vec![5, 5];
    let plan = plan_eviction(&stamps, &sizes, 0);
    assert_eq!(plan, vec![1, 0]);
}

#[test]
fn store_round_trips_exact_bytes() {
    let mut cache = ImageCache::new(16, false);
    assert_eq!(cache.get("k"), None);
    let data = b"exactly what the codec produced".to_vec();
    cache.put("k".to_string(), data.clone());
    assert_eq!(cache.get("k"), Some(data.clone()));
    // A second read is byte-identical.
    assert_eq!(cache.get("k"), Some(data));
}

#[test]
fn store_replaces_entries_under_the_same_key() {
    let mut cache = ImageCache::new(16, true);
    cache.put("k".to_string(), b"one".to_vec());
    cache.put("k".to_string(), b"two".to_vec());
    assert_eq!(cache.get("k"), Some(b"two".to_vec()));
    assert_eq!(cache.current_size(), 3);
    assert!(cache.encryption_enabled());
}

#[test]
fn store_evicts_least_recently_used_first() {
    // 1 MiB budget, 300 KiB artifacts: the fourth insert pushes out the
    // least recently used entry and only that one.
    let mut cache = ImageCache::new(1, false);
    let blob = vec![0u8; 300 * 1024];
    cache.put("a".to_string(), blob.clone());
    cache.put("b".to_string(), blob.clone());
    cache.put("c".to_string(), blob.clone());
    // Touch "a" so "b" becomes the oldest.
    assert!(cache.get("a").is_some());
    cache.put("d".to_string(), blob.clone());
    assert!(cache.current_size() <= cache.max_size());
    assert_eq!(cache.get("b"), None);
    assert!(cache.get("a").is_some());
    assert!(cache.get("c").is_some());
    assert!(cache.get("d").is_some());
}

#[test]
fn store_total_stays_within_budget() {
    let mut cache = ImageCache::new(1, false);
    let blob = vec![1u8; 400 * 1024];
    for name in ["e1", "e2", "e3", "e4", "e5", "e6"] {
        cache.put(name.to_string(), blob.clone());
        assert!(cache.current_size() <= cache.max_size());
    }
}
