use marshmallow::copy::log::{copy_log_dir, copy_log_file_name, copy_log_path, CopyStatus};
use marshmallow::copy::plan::{destination_path, first_free_rename, renamed_candidate, resolution_for_existing, sanitize, CollisionResolution};
use marshmallow::copy::{CopyEngine, CopyRun, FileOutcome};
use marshmallow::media::MediaKind;
use marshmallow::project::{Decision, MediaItem, Project, Source};

#[test]
fn destination_is_namespaced_by_source() {
    let dest = destination_path("/target", "SDCARD1", "DCIM/IMG_0001.JPG");
    assert_eq!(dest, "/target/SDCARD1/DCIM/IMG_0001.JPG");
}

#[test]
fn sanitize_replaces_unsafe_characters() {
    assert_eq!(sanitize("SD card #1"), "SD_000020card_000020_0000231");
    assert_eq!(sanitize("ok-name_1.x"), "ok-name__1.x");
    assert_eq!(sanitize("é/x"), "_0000e9_00002fx");
    assert_eq!(sanitize("SDCARD1"), "SDCARD1");
}

#[test]
fn no_existing_file_means_plain_copy() {
    let dest = "/tmp/t/a.jpg";
    assert_eq!(
        resolution_for_existing(dest, None, 10),
        Some(CollisionResolution::Copy(dest.to_string()))
    );
}

#[test]
fn same_size_existing_file_is_skipped() {
    assert_eq!(
        resolution_for_existing("/tmp/t/a.jpg", Some(10), 10),
        Some(CollisionResolution::SkipExisting)
    );
}

#[test]
fn different_size_existing_file_gets_renamed() {
    assert_eq!(resolution_for_existing("/tmp/t/a.jpg", Some(5), 10), None);
    assert_eq!(renamed_candidate("/tmp/t/a.jpg", 1), "/tmp/t/a (1).jpg");
}

#[test]
fn renamed_candidates_count_up_and_keep_extensionless_names() {
    assert_eq!(renamed_candidate("/tmp/t/a.tar.gz", 12), "/tmp/t/a.tar (12).gz");
    assert_eq!(renamed_candidate("/tmp/t/README", 2), "/tmp/t/README (2)");
    assert_eq!(renamed_candidate("a.jpg", 3), "a (3).jpg");
}

#[test]
fn copy_log_lives_under_the_target() {
    assert_eq!(copy_log_dir("/t"), "/t/.marshmallow/logs");
    assert_eq!(copy_log_file_name(0), "copy-19700101T000000Z.jsonl");
    assert_eq!(copy_log_file_name(1_700_000_000), "copy-20231114T221320Z.jsonl");
    let p = copy_log_path("/t");
    assert!(p.starts_with("/t/.marshmallow/logs/copy-"));
    assert!(p.ends_with("Z.jsonl"));
}

fn item(rel: &str, size: u64, decision: Decision, source_id: u32) -> MediaItem {
    MediaItem {
        source_id,
        relative_path: rel.to_string(),
        kind: MediaKind::Photo,
        size_bytes: size,
        modified: None,
        decision,
        decided_at: None,
    }
}

#[test]
fn copies_kept_items_and_skips_undecided_and_trashed() {
    let sources = vec![Source { id: 0, path: "/tmp/c/src".to_string() }];
    let items = vec![
        item("DCIM/keep.jpg", 10, Decision::Keep, 0),
        item("DCIM/trash.jpg", 13, Decision::Trash, 0),
        item("DCIM/undecided.jpg", 7, Decision::Undecided, 0),
    ];
    let project = Project::new(sources, "/tmp/c/target".to_string(), items);
    let plan = CopyEngine::plan(&project);
    assert_eq!(plan.files_total, 1);
    assert_eq!(plan.bytes_total, 10);
    assert_eq!(plan.jobs[0].source_path, Some("/tmp/c/src/DCIM/keep.jpg".to_string()));
    assert_eq!(plan.jobs[0].dest_base, "/tmp/c/target/src/DCIM/keep.jpg");

    let mut run = CopyRun::start(&plan);
    assert!(run.has_next());
    let progress = run.progress_for_next(&plan);
    assert_eq!(progress.current_file, Some("DCIM/keep.jpg".to_string()));
    let entry = run
        .record(&plan, FileOutcome::Copied(plan.jobs[0].dest_base.clone()), 3)
        .unwrap();
    assert_eq!(entry.status, CopyStatus::Copied);
    assert_eq!(entry.dest_path, "/tmp/c/target/src/DCIM/keep.jpg");
    assert!(!run.has_next());
    let outcome = run.outcome("/tmp/c/target/.marshmallow/logs/x.jsonl".to_string());
    assert_eq!(outcome.files_copied, 1);
    assert_eq!(outcome.bytes_copied, 10);
    assert!(!outcome.cancelled);
}

#[test]
fn copy_run_tallies_every_outcome() {
    let sources = vec![Source { id: 0, path: "/s".to_string() }];
    let items = vec![
        item("a.jpg", 1, Decision::Keep, 0),
        item("b.jpg", 2, Decision::Keep, 9),
        item("c.jpg", 4, Decision::Keep, 0),
        item("d.jpg", 8, Decision::Keep, 0),
        item("e.jpg", 16, Decision::Keep, 0),
    ];
    let project = Project::new(sources, "/t".to_string(), items);
    let plan = CopyEngine::plan(&project);
    assert_eq!(plan.bytes_total, 31);
    assert_eq!(plan.jobs[1].source_path, None);
    let mut run = CopyRun::start(&plan);
    assert!(run.record(&plan, FileOutcome::Renamed("/t/s/a (1).jpg".to_string()), 1).is_some());
    assert!(run.record(&plan, FileOutcome::MissingSource, 0).is_none());
    let skipped = run.record(&plan, FileOutcome::SkippedExisting("/t/s/c.jpg".to_string()), 0).unwrap();
    assert_eq!(skipped.status, CopyStatus::SkippedExisting);
    let failed = run.record(&plan, FileOutcome::Failed("disk full".to_string()), 0).unwrap();
    assert_eq!(failed.status, CopyStatus::Error);
    assert_eq!(failed.dest_path, "/t/s/d.jpg");
    assert_eq!(failed.error_message, Some("disk full".to_string()));
    assert!(run.record(&plan, FileOutcome::Cancelled, 0).is_none());
    assert!(run.cancelled);
    assert_eq!(run.files_done, 5);
    assert_eq!((run.files_renamed, run.files_failed, run.files_skipped, run.files_copied), (1, 2, 1, 0));
    assert_eq!(run.bytes_done, 1);
    let summary = run.summary(42);
    assert!(summary.summary);
    assert_eq!(summary.bytes_copied, 1);
    assert_eq!(summary.elapsed_ms, 42);
    let fin = run.final_progress();
    assert_eq!(fin.current_file, None);
    assert_eq!(fin.files_done, 5);
}

#[test]
fn cancel_before_a_file_stops_the_run() {
    let sources = vec![Source { id: 0, path: "/s".to_string() }];
    let project = Project::new(sources, "/t".to_string(), vec![item("a.jpg", 1, Decision::Keep, 0)]);
    let plan = CopyEngine::plan(&project);
    let mut run = CopyRun::start(&plan);
    run.cancel(&plan);
    assert!(!run.has_next());
    assert_eq!(run.files_done, 0);
    let progress = run.progress_for_next(&plan).advanced(0);
    assert_eq!(progress.bytes_done, 0);
}

#[test]
fn different_basenames_never_share_a_destination() {
    let a = destination_path("/target", "SD card", "DCIM/IMG_0001.JPG");
    let b = destination_path("/target", "SD_card", "DCIM/IMG_0001.JPG");
    assert_ne!(a, b);
    assert_eq!(a, "/target/SD_000020card/DCIM/IMG_0001.JPG");
    assert_eq!(b, "/target/SD__card/DCIM/IMG_0001.JPG");
}

#[test]
fn the_least_free_suffix_is_chosen() {
    assert_eq!(first_free_rename("/t/a.jpg", &vec![]), None);
    assert_eq!(first_free_rename("/t/a.jpg", &vec![true, true]), None);
    assert_eq!(
        first_free_rename("/t/a.jpg", &vec![false]),
        Some((1, "/t/a (1).jpg".to_string()))
    );
    assert_eq!(
        first_free_rename("/t/a.jpg", &vec![true, true, false, false]),
        Some((3, "/t/a (3).jpg".to_string()))
    );
}
