use marshmallow::media::MediaKind;
use marshmallow::project::{Decision, MediaItem, Project, Source, SCHEMA_VERSION};
use marshmallow::recent::RecentProject;
use marshmallow::scan::{merge_with_previous, next_source_id, scanned_items, source_basename, WalkedEntry};
use marshmallow::time::{timestamp_from_clock, Timestamp, EARLIEST_SECS, LATEST_SECS};

fn item(source_id: u32, rel: &str, size: u64, decision: Decision) -> MediaItem {
    MediaItem {
        source_id,
        relative_path: rel.to_string(),
        kind: MediaKind::Photo,
        size_bytes: size,
        modified: None,
        decision,
        decided_at: None,
    }
}

fn sample_project() -> Project {
    let sources = vec![Source { id: 0, path: "/tmp/x/src1".to_string() }];
    let items = vec![item(0, "a.jpg", 100, Decision::Undecided)];
    Project::new(sources, "/tmp/x/target".to_string(), items)
}

#[test]
fn counts_are_correct() {
    let mut project = sample_project();
    project.items.push(item(0, "b.jpg", 50, Decision::Keep));
    assert_eq!(project.keep_count(), 1);
    assert_eq!(project.undecided_count(), 1);
    assert_eq!(project.kept_bytes(), 50);
}

#[test]
fn counts_partition_the_items() {
    let mut project = sample_project();
    project.items.push(item(0, "b.jpg", 50, Decision::Keep));
    project.items.push(item(0, "c.jpg", 70, Decision::Trash));
    project.items.push(item(0, "d.jpg", 30, Decision::Keep));
    assert_eq!(project.keep_count() + project.trash_count() + project.undecided_count(), 4);
    assert_eq!(project.kept_bytes(), 80);
    assert_eq!(project.trash_count(), 1);
}

#[test]
fn new_project_is_created_and_updated_at_once() {
    let project = sample_project();
    assert_eq!(project.schema_version, SCHEMA_VERSION);
    assert_eq!(project.created_at, project.updated_at);
    assert_eq!(project.target, "/tmp/x/target");
}

#[test]
fn touch_keeps_everything_but_the_update_time() {
    let mut project = sample_project();
    let created = project.created_at;
    project.touch();
    assert_eq!(project.created_at, created);
    assert_eq!(project.items.len(), 1);
    assert!(project.updated_at.secs >= created.secs);
}

#[test]
fn default_path_travels_with_the_target() {
    assert_eq!(Project::default_path("/media/t"), "/media/t/.marshmallow/project.json");
}

#[test]
fn absolute_path_joins_the_first_matching_source() {
    let sources = vec![
        Source { id: 1, path: "/b".to_string() },
        Source { id: 0, path: "/a".to_string() },
        Source { id: 0, path: "/c".to_string() },
    ];
    let it = item(0, "DCIM/x.jpg", 1, Decision::Undecided);
    assert_eq!(it.absolute_path(&sources), Some("/a/DCIM/x.jpg".to_string()));
    let orphan = item(7, "y.jpg", 1, Decision::Undecided);
    assert_eq!(orphan.absolute_path(&sources), None);
}

#[test]
fn config_path_is_stable_and_nonempty() {
    let path = RecentProject::config_path_from(None, Some("/home/me"));
    assert!(path.contains("marshmallow"));
    assert_eq!(path, "/home/me/.config/marshmallow/recent.json");
    assert_eq!(
        RecentProject::config_path_from(Some("/xdg"), Some("/home/me")),
        "/xdg/marshmallow/recent.json"
    );
    assert_eq!(RecentProject::config_path_from(None, None), "./marshmallow/recent.json");
}

fn walked(path: &str, is_file: bool) -> WalkedEntry {
    WalkedEntry { path: path.to_string(), is_file, size_bytes: 1, modified: None }
}

#[test]
fn scans_only_known_media_extensions() {
    let sources = vec![Source { id: 0, path: "/tmp/s".to_string() }];
    let entries = vec![vec![
        walked("/tmp/s", false),
        walked("/tmp/s/a.jpg", true),
        walked("/tmp/s/b.mov", true),
        walked("/tmp/s/c.txt", true),
        walked("/tmp/s/sub", false),
        walked("/tmp/s/sub/d.png", true),
    ]];
    let items = scanned_items(&sources, &entries);
    assert_eq!(items.len(), 3);
}

#[test]
fn scanned_items_are_sorted_by_source_then_path() {
    let sources = vec![
        Source { id: 1, path: "/s1".to_string() },
        Source { id: 0, path: "/s0/".to_string() },
    ];
    let entries = vec![
        vec![walked("/s1/z.jpg", true), walked("/s1/a.jpg", true)],
        vec![walked("/s0/b.jpg", true), walked("/s0/a.b.jpg", true), walked("/s0/a/b.jpg", true)],
    ];
    let items = scanned_items(&sources, &entries);
    let got: Vec<(u32, String)> = items.iter().map(|i| (i.source_id, i.relative_path.clone())).collect();
    assert_eq!(
        got,
        vec![
            (0, "a/b.jpg".to_string()),
            (0, "a.b.jpg".to_string()),
            (0, "b.jpg".to_string()),
            (1, "a.jpg".to_string()),
            (1, "z.jpg".to_string()),
        ]
    );
    assert!(items.iter().all(|i| i.decision == Decision::Undecided));
}

#[test]
fn merge_preserves_decisions_by_identity() {
    let sources = vec![Source { id: 0, path: "/tmp/m".to_string() }];
    let entries = vec![vec![walked("/tmp/m/a.jpg", true)]];
    let mut previous = scanned_items(&sources, &entries);
    previous[0].decision = Decision::Keep;

    let fresh = scanned_items(&sources, &entries);
    let merged = merge_with_previous(fresh, &previous);
    assert_eq!(merged[0].decision, Decision::Keep);
}

#[test]
fn merge_drops_missing_and_keeps_undecided_new_items() {
    let stamp = Timestamp { secs: 5, nanos: 0 };
    let mut old = item(0, "gone.jpg", 1, Decision::Trash);
    old.decided_at = Some(stamp);
    let mut kept = item(0, "DCIM//x.jpg", 1, Decision::Keep);
    kept.decided_at = Some(stamp);
    let previous = vec![old, kept];
    let fresh = vec![item(0, "DCIM/x.jpg", 2, Decision::Undecided), item(0, "new.jpg", 3, Decision::Undecided)];
    let merged = merge_with_previous(fresh, &previous);
    assert_eq!(merged.len(), 2);
    assert_eq!(merged[0].decision, Decision::Keep);
    assert_eq!(merged[0].decided_at, Some(stamp));
    assert_eq!(merged[0].size_bytes, 2);
    assert_eq!(merged[1].decision, Decision::Undecided);
}

#[test]
fn next_source_id_is_one_past_the_largest() {
    assert_eq!(next_source_id(&[]), 0);
    let sources = vec![Source { id: 3, path: "a".to_string() }, Source { id: 1, path: "b".to_string() }];
    assert_eq!(next_source_id(&sources), 4);
}

#[test]
fn source_basename_falls_back_to_source() {
    assert_eq!(source_basename("/media/SDCARD1"), "SDCARD1");
    assert_eq!(source_basename("/media/SDCARD1/"), "SDCARD1");
    assert_eq!(source_basename("/"), "source");
    assert_eq!(source_basename(".."), "source");
}

#[test]
fn clock_readings_become_timestamps() {
    assert_eq!(timestamp_from_clock(Ok((100, 5))), Timestamp { secs: 100, nanos: 5 });
    assert_eq!(timestamp_from_clock(Err((1, 0))), Timestamp { secs: -1, nanos: 0 });
    assert_eq!(
        timestamp_from_clock(Err((1, 250_000_000))),
        Timestamp { secs: -2, nanos: 750_000_000 }
    );
    assert_eq!(timestamp_from_clock(Ok((u64::MAX, 0))).secs, LATEST_SECS);
    assert_eq!(timestamp_from_clock(Err((u64::MAX, 1))).secs, EARLIEST_SECS);
}

#[test]
fn a_fresh_project_is_stamped_with_a_clock_time() {
    let p = Project::new(vec![], "/t".to_string(), vec![]);
    assert_eq!(p.created_at, p.updated_at);
    assert!(p.created_at.secs > 1_600_000_000);
    assert!(p.created_at.nanos < 1_000_000_000);
}

#[test]
fn source_names_are_never_empty() {
    assert_eq!(source_basename("/"), "source");
    assert_eq!(source_basename(""), "source");
    assert_eq!(source_basename("/media/SDCARD1/"), "SDCARD1");
}

#[test]
fn kept_bytes_are_checked_against_overflow() {
    let item = |size: u64, decision: Decision| MediaItem {
        source_id: 0,
        relative_path: "a.jpg".to_string(),
        kind: MediaKind::Photo,
        size_bytes: size,
        modified: None,
        decision,
        decided_at: None,
    };
    let mut p = Project::new(vec![], "/t".to_string(), vec![item(5, Decision::Keep), item(7, Decision::Trash), item(9, Decision::Keep)]);
    assert_eq!(p.checked_kept_bytes(), Some(14));
    p.items = vec![item(u64::MAX, Decision::Keep), item(1, Decision::Keep)];
    assert_eq!(p.checked_kept_bytes(), None);
    p.items = vec![item(u64::MAX, Decision::Keep), item(1, Decision::Trash)];
    assert_eq!(p.checked_kept_bytes(), Some(u64::MAX));
}
