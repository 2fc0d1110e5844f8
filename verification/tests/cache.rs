use rainbox::cache::PackageCache;
use rainbox::services::{cache_key, lookup_installed, store_installed};

#[test]
fn test_cache_basic() {
    let mut cache: PackageCache<Vec<String>> = PackageCache::new(1);

    cache.set("test".to_string(), vec!["pkg1".to_string()], 0);
    assert!(cache.get("test", 0).is_some());

    // Two seconds later the one-second entry has expired.
    assert!(cache.get("test", 2000).is_none());
}

#[test]
fn cache_returns_value_unchanged_within_ttl() {
    let mut cache: PackageCache<Vec<String>> = PackageCache::new(10);
    cache.set("k".to_string(), vec!["a".to_string(), "b".to_string()], 1000);
    let got = cache.get("k", 10999).expect("fresh entry");
    assert_eq!(got, vec!["a".to_string(), "b".to_string()]);
    // At exactly the TTL boundary the entry is still served.
    assert!(cache.get("k", 11000).is_some());
    // Past it, the entry is treated as absent.
    assert!(cache.get("k", 11001).is_none());
}

#[test]
fn cache_miss_on_never_set_key() {
    let cache: PackageCache<Vec<String>> = PackageCache::new(10);
    assert!(cache.get("never", 0).is_none());
}

#[test]
fn cache_set_overwrites_and_restarts_clock() {
    let mut cache: PackageCache<Vec<String>> = PackageCache::new(1);
    cache.set("k".to_string(), vec!["old".to_string()], 0);
    cache.set("k".to_string(), vec!["new".to_string()], 5000);
    let got = cache.get("k", 5500).expect("fresh after overwrite");
    assert_eq!(got, vec!["new".to_string()]);
    assert!(cache.get("k", 7000).is_none());
}

#[test]
fn cache_keys_are_independent() {
    let mut cache: PackageCache<Vec<String>> = PackageCache::new(10);
    cache.set("a".to_string(), vec!["x".to_string()], 0);
    cache.set("b".to_string(), vec!["y".to_string()], 0);
    assert_eq!(cache.get("a", 100).unwrap(), vec!["x".to_string()]);
    assert_eq!(cache.get("b", 100).unwrap(), vec!["y".to_string()]);
}

#[test]
fn installed_cache_key_shape() {
    assert_eq!(cache_key("npm"), "installed_npm".to_string());
}

#[test]
fn two_aggregate_rounds_probe_each_manager_at_most_once() {
    // Two back-to-back aggregate status passes within the cache TTL:
    // every manager's probe runs in the first pass only.
    let managers = ["brew", "npm", "cargo", "pip"];
    let mut cache: PackageCache<Vec<String>> = PackageCache::new(10);
    let mut probe_runs = 0usize;

    for round in 0..2u64 {
        let now_ms = round * 5000; // both rounds inside the 10 s window
        for manager in managers.iter() {
            let installed = match lookup_installed(&cache, manager, now_ms) {
                Some(v) => v,
                None => {
                    probe_runs += 1; // stands for one expensive probe
                    let fresh = vec![format!("{}-tool", manager)];
                    store_installed(&mut cache, manager, &fresh, now_ms);
                    fresh
                }
            };
            assert_eq!(installed, vec![format!("{}-tool", manager)]);
        }
    }

    assert_eq!(probe_runs, managers.len());
}
