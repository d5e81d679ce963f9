use marshmallow::media::{classify, MediaKind};
use marshmallow::path::{components_of, join, paths_equal, strip_prefix_of, PathComponent};
use marshmallow::decode::worker::{is_jpeg, scaled_dims};

#[test]
fn classifies_known_extensions() {
    assert_eq!(classify("a.JPG"), Some(MediaKind::Photo));
    assert_eq!(classify("a.heic"), Some(MediaKind::Photo));
    assert_eq!(classify("a.MOV"), Some(MediaKind::Video));
    assert_eq!(classify("a.txt"), None);
    assert_eq!(classify("noext"), None);
}

#[test]
fn classify_reads_only_the_final_component() {
    assert_eq!(classify("/photos/DCIM/IMG_0001.jpeg"), Some(MediaKind::Photo));
    assert_eq!(classify("clip.m4v"), Some(MediaKind::Video));
    assert_eq!(classify("a.jpg/"), Some(MediaKind::Photo));
    assert_eq!(classify(".jpg"), None);
    assert_eq!(classify("dir.jpg/.."), None);
    assert_eq!(classify("photo."), None);
    assert_eq!(classify(""), None);
}

#[test]
fn join_follows_unix_rules() {
    assert_eq!(join("/target", "SDCARD1"), "/target/SDCARD1");
    assert_eq!(join("/target/", "a"), "/target/a");
    assert_eq!(join("", "a"), "a");
    assert_eq!(join("/target", "/abs"), "/abs");
    assert_eq!(join("a", ""), "a/");
}

#[test]
fn components_drop_repeated_separators_and_dots() {
    let c = components_of("/a//./b/");
    assert_eq!(c.len(), 3);
    assert!(matches!(c[0], PathComponent::RootDir));
    assert!(matches!(&c[1], PathComponent::Normal(v) if v == &vec!['a']));
    assert!(matches!(&c[2], PathComponent::Normal(v) if v == &vec!['b']));
    let d = components_of("./..");
    assert!(matches!(d[0], PathComponent::CurDir));
    assert!(matches!(d[1], PathComponent::ParentDir));
}

#[test]
fn strip_prefix_is_component_wise() {
    assert_eq!(strip_prefix_of("/a/b/c.jpg", "/a/b"), Some("c.jpg".to_string()));
    assert_eq!(strip_prefix_of("/a/b/./sub/c.jpg", "/a/b/"), Some("sub/c.jpg".to_string()));
    assert_eq!(strip_prefix_of("/a/bc/d.jpg", "/a/b"), None);
    assert!(paths_equal("a//b", "a/b"));
    assert!(!paths_equal("a/b", "a/c"));
}

#[test]
fn scaled_dims_never_upscales() {
    assert_eq!(scaled_dims(400, 300, 2000), (400, 300));
}

#[test]
fn scaled_dims_preserves_aspect_ratio() {
    let (w, h) = scaled_dims(4000, 3000, 2000);
    assert_eq!(w, 2000);
    assert_eq!(h, 1500);
}

#[test]
fn scaled_dims_rounds_to_nearest_and_keeps_one_pixel() {
    assert_eq!(scaled_dims(3000, 4000, 2200), (1650, 2200));
    assert_eq!(scaled_dims(1000, 3, 100), (100, 1));
    assert_eq!(scaled_dims(1000, 1, 10), (10, 1));
    assert_eq!(scaled_dims(4000, 3000, 0), (4000, 3000));
}

#[test]
fn jpeg_detection_ignores_case() {
    assert!(is_jpeg("x/IMG.JPG"));
    assert!(is_jpeg("a.jpeg"));
    assert!(!is_jpeg("a.png"));
    assert!(!is_jpeg("jpg"));
}
