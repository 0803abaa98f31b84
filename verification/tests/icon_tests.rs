use runner::icons::{
    ends_with_str, icon_candidates, is_absolute_path, premultiply_alpha, Bitmap, IconCache,
    IconLookup,
};

#[test]
fn repeated_requests_enqueue_exactly_one_job() {
    let mut cache = IconCache::new();
    let first = cache.get("foo", 22);
    match first {
        IconLookup::Miss(Some(job)) => {
            assert_eq!(job.name, "foo");
            assert_eq!(job.size, 22);
        },
        _ => panic!("first request must enqueue a job"),
    }
    let second = cache.get("foo", 22);
    match second {
        IconLookup::Miss(None) => {},
        _ => panic!("second request while pending must not enqueue"),
    }
    let third = cache.get("foo", 48);
    match third {
        IconLookup::Miss(None) => {},
        _ => panic!("request at another size while pending must not enqueue"),
    }
}

#[test]
fn delivered_failure_is_cached_and_not_retried() {
    let mut cache = IconCache::new();
    match cache.get("foo", 22) {
        IconLookup::Miss(Some(_)) => {},
        _ => panic!("first request must enqueue"),
    }
    cache.insert("foo".to_string(), None);
    match cache.get("foo", 22) {
        IconLookup::Hit(None) => {},
        _ => panic!("failed load must be cached as permanently absent"),
    }
}

#[test]
fn delivered_bitmap_is_returned_on_later_requests() {
    let mut cache = IconCache::new();
    let _ = cache.get("app", 2);
    let bitmap = Bitmap { width: 1, height: 1, data: vec![1, 2, 3, 4] };
    cache.insert("app".to_string(), Some(bitmap));
    match cache.get("app", 2) {
        IconLookup::Hit(Some(bm)) => {
            assert_eq!(bm.width, 1);
            assert_eq!(bm.height, 1);
            assert_eq!(bm.data, vec![1, 2, 3, 4]);
        },
        _ => panic!("delivered bitmap must be served from the cache"),
    }
}

#[test]
fn distinct_names_get_distinct_jobs() {
    let mut cache = IconCache::new();
    match cache.get("one", 22) {
        IconLookup::Miss(Some(job)) => assert_eq!(job.name, "one"),
        _ => panic!("fresh name must enqueue"),
    }
    match cache.get("two", 22) {
        IconLookup::Miss(Some(job)) => assert_eq!(job.name, "two"),
        _ => panic!("another fresh name must enqueue too"),
    }
}

#[test]
fn premultiply_scales_color_channels_by_alpha() {
    let mut data = vec![255, 128, 0, 128, 10, 20, 30, 255];
    premultiply_alpha(&mut data);
    assert_eq!(data, vec![128, 64, 0, 128, 10, 20, 30, 255]);
}

#[test]
fn premultiply_leaves_partial_pixel_alone() {
    let mut data = vec![100, 100, 100, 0, 9, 9];
    premultiply_alpha(&mut data);
    assert_eq!(data, vec![0, 0, 0, 0, 9, 9]);
}

#[test]
fn candidates_follow_priority_order() {
    let roots = vec!["/usr/share/icons".to_string(), "/usr/share/pixmaps".to_string()];
    let candidates = icon_candidates("foo", &roots);
    assert_eq!(candidates.len(), 42);
    assert_eq!(candidates[0], "/usr/share/icons/hicolor/48x48/apps/foo.png");
    assert_eq!(candidates[1], "/usr/share/icons/hicolor/48x48/apps/foo.svg");
    assert_eq!(candidates[2], "/usr/share/icons/hicolor/48x48/apps/foo.xpm");
    assert_eq!(candidates[3], "/usr/share/icons/hicolor/scalable/apps/foo.png");
    // the empty subdirectory probes the root itself
    assert_eq!(candidates[18], "/usr/share/icons/foo.png");
    // the second root comes after every candidate of the first
    assert_eq!(candidates[21], "/usr/share/pixmaps/hicolor/48x48/apps/foo.png");
    assert_eq!(candidates[39], "/usr/share/pixmaps/foo.png");
}

#[test]
fn absolute_path_detection() {
    assert!(is_absolute_path("/usr/bin/foo"));
    assert!(!is_absolute_path("foo"));
    assert!(!is_absolute_path(""));
}

#[test]
fn suffix_detection() {
    assert!(ends_with_str("icon.svg", ".svg"));
    assert!(!ends_with_str("icon.png", ".svg"));
    assert!(!ends_with_str("g", ".svg"));
}
