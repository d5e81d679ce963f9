use marshmallow::decode::worker::{choose_scaling_factor, orientation_fix, OrientationFix};
use marshmallow::decode::{window_around, worker_count_for, DecodedCache, DecodedImage};
use marshmallow::prerender::{cache_dir, cache_path_for, PrerenderEngine, PrerenderProgress};
use marshmallow::media::MediaKind;
use marshmallow::project::{Decision, MediaItem, Project, Source};

fn img(bytes: usize) -> DecodedImage {
    DecodedImage { width: 1, height: 1, rgba: vec![0u8; bytes] }
}

#[test]
fn window_clamps_to_bounds() {
    assert_eq!(window_around(0, 10, 2, 8), 0..9);
    assert_eq!(window_around(9, 10, 2, 8), 7..10);
    assert_eq!(window_around(5, 10, 2, 8), 3..10);
}

#[test]
fn window_of_nothing_is_empty() {
    assert_eq!(window_around(3, 0, 2, 8), 0..0);
}

#[test]
fn evicts_by_byte_budget() {
    let mut cache = DecodedCache::new(100, 25);
    cache.insert(0, img(10));
    cache.insert(1, img(10));
    cache.insert(2, img(10));
    assert!(cache.len() <= 2);
    assert!(cache.contains(2));
}

#[test]
fn evict_outside_keeps_protected_index() {
    let mut cache = DecodedCache::new(100, 10_000);
    cache.insert(5, img(1));
    cache.insert(50, img(1));
    cache.evict_outside(0..10, 50);
    assert!(cache.contains(5));
    assert!(cache.contains(50));
}

#[test]
fn cache_capacity_evicts_least_recently_used() {
    let mut cache = DecodedCache::new(2, 1_000);
    cache.insert(1, img(1));
    cache.insert(2, img(1));
    assert!(cache.get(1).is_some());
    cache.insert(3, img(1));
    assert!(cache.contains(1));
    assert!(!cache.contains(2));
    assert!(cache.contains(3));
    assert_eq!(cache.used_bytes(), 2);
}

#[test]
fn single_oversized_image_stays_cached() {
    let mut cache = DecodedCache::new(0, 5);
    cache.insert(7, img(50));
    assert_eq!(cache.len(), 1);
    assert_eq!(cache.get(7).unwrap().rgba.len(), 50);
    cache.evict_outside(0..3, 1);
    assert_eq!(cache.len(), 0);
    assert!(cache.get(7).is_none());
}

#[test]
fn worker_count_leaves_a_core_free() {
    assert_eq!(worker_count_for(Some(16)), 8);
    assert_eq!(worker_count_for(Some(6)), 5);
    assert_eq!(worker_count_for(Some(1)), 2);
    assert_eq!(worker_count_for(None), 3);
}

#[test]
fn jpeg_scaling_picks_the_smallest_factor_reaching_the_target() {
    let factors = vec![(2, 1), (1, 1), (1, 2), (1, 4), (1, 8)];
    assert_eq!(choose_scaling_factor(4000, 2200, &factors), (1, 1));
    assert_eq!(choose_scaling_factor(8000, 2000, &factors), (1, 4));
    assert_eq!(choose_scaling_factor(1000, 2200, &factors), (1, 1));
    assert_eq!(choose_scaling_factor(4000, 0, &factors), (1, 1));
    assert_eq!(choose_scaling_factor(4000, 3000, &vec![(1, 2)]), (1, 1));
}

#[test]
fn orientation_fixes_follow_exif() {
    assert_eq!(orientation_fix(1), OrientationFix::Keep);
    assert_eq!(orientation_fix(6), OrientationFix::Rotate90);
    assert_eq!(orientation_fix(8), OrientationFix::Rotate270);
    assert_eq!(orientation_fix(5), OrientationFix::Rotate90FlipHorizontal);
    assert_eq!(orientation_fix(42), OrientationFix::Keep);
}

#[test]
fn cache_path_is_stable_for_same_identity() {
    let a = cache_path_for("/target", 0, "DCIM/IMG_0001.JPG");
    let b = cache_path_for("/target", 0, "DCIM/IMG_0001.JPG");
    assert_eq!(a, b);
}

#[test]
fn cache_path_differs_by_source_or_relative_path() {
    let a = cache_path_for("/target", 0, "DCIM/IMG_0001.JPG");
    let b = cache_path_for("/target", 1, "DCIM/IMG_0001.JPG");
    let c = cache_path_for("/target", 0, "DCIM/IMG_0002.JPG");
    assert_ne!(a, b);
    assert_ne!(a, c);
}

#[test]
fn cache_path_is_hex_named_in_the_cache_dir() {
    assert_eq!(cache_dir("/t"), "/t/.marshmallow/cache");
    let p = cache_path_for("/t", 3, "x.jpg");
    let name = p.strip_prefix("/t/.marshmallow/cache/").unwrap();
    assert_eq!(name.len(), 20);
    assert!(name.ends_with(".jpg"));
    assert!(name[..16].chars().all(|c| c.is_ascii_hexdigit() && !c.is_ascii_uppercase()));
}

#[test]
fn prerender_covers_photos_of_known_sources() {
    let sources = vec![Source { id: 0, path: "/s".to_string() }];
    let mk = |rel: &str, kind: MediaKind, source_id: u32| MediaItem {
        source_id,
        relative_path: rel.to_string(),
        kind,
        size_bytes: 1,
        modified: None,
        decision: Decision::Undecided,
        decided_at: None,
    };
    let items = vec![mk("a.jpg", MediaKind::Photo, 0), mk("b.mov", MediaKind::Video, 0), mk("c.jpg", MediaKind::Photo, 4)];
    let project = Project::new(sources, "/t".to_string(), items);
    let jobs = PrerenderEngine::jobs(&project);
    assert_eq!(jobs.len(), 1);
    assert_eq!(jobs[0].source_path, "/s/a.jpg");
    assert_eq!(jobs[0].cache_path, cache_path_for("/t", 0, "a.jpg"));
    let p = PrerenderProgress::from_counts(2, 3, 1, 9);
    assert_eq!(p.done, 6);
    assert_eq!(p.total, 9);
}

#[test]
fn inserted_images_are_cached_and_counted() {
    let mut cache = DecodedCache::new(100, 25);
    cache.insert(0, img(10));
    assert_eq!(cache.used_bytes(), 10);
    cache.insert(1, img(10));
    assert_eq!(cache.used_bytes(), 20);
    cache.insert(2, img(10));
    assert!(cache.contains(2));
    assert!(cache.contains(1));
    assert!(!cache.contains(0));
    assert_eq!(cache.used_bytes(), 20);
}
