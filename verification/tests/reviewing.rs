use marshmallow::decode::{DecodeResult, DecodedCache, DecodedImage};
use marshmallow::media::MediaKind;
use marshmallow::project::{Decision, MediaItem, Project, Source};
use marshmallow::review::{accept_decode_result, action_for_key, ahead_ready_count, prefetch_plan, progress_counts, DecodeDisposition, Review, ReviewAction, ReviewStep};
use marshmallow::setup::{primary_step, setup_view, PrimaryLabel, PrimaryStep, SetupHint};

fn project(decisions: &[Decision]) -> Project {
    let items = decisions
        .iter()
        .enumerate()
        .map(|(i, d)| MediaItem {
            source_id: 0,
            relative_path: format!("{i}.jpg"),
            kind: if i == 2 { MediaKind::Video } else { MediaKind::Photo },
            size_bytes: 1,
            modified: None,
            decision: *d,
            decided_at: None,
        })
        .collect();
    Project::new(vec![Source { id: 0, path: "/s".to_string() }], "/t".to_string(), items)
}

#[test]
fn decide_moves_on_and_undo_restores() {
    let mut p = project(&[Decision::Undecided, Decision::Trash, Decision::Undecided]);
    let mut r = Review::new();
    assert_eq!(r.decide(&mut p, Decision::Keep), ReviewStep::Show { index: 1, contiguous: true });
    assert_eq!(p.items[0].decision, Decision::Keep);
    assert!(p.items[0].decided_at.is_some());
    assert_eq!(r.decide(&mut p, Decision::Keep), ReviewStep::Show { index: 2, contiguous: true });
    assert_eq!(r.undo(&mut p), ReviewStep::Show { index: 1, contiguous: false });
    assert_eq!(p.items[1].decision, Decision::Trash);
    assert_eq!(p.items[1].decided_at, None);
    assert_eq!(r.current_index, 1);
    assert_eq!(r.history.len(), 1);
    assert_eq!(r.undo(&mut p), ReviewStep::Show { index: 0, contiguous: false });
    assert_eq!(p.items[0].decision, Decision::Undecided);
    assert_eq!(r.undo(&mut p), ReviewStep::Ignored);
}

#[test]
fn deciding_the_last_item_shows_the_summary() {
    let mut p = project(&[Decision::Undecided, Decision::Undecided]);
    let mut r = Review { current_index: 1, history: Vec::new() };
    assert_eq!(r.decide(&mut p, Decision::Trash), ReviewStep::Summary);
    assert_eq!(r.current_index, 1);
    r.current_index = 5;
    assert_eq!(r.decide(&mut p, Decision::Keep), ReviewStep::Ignored);
}

#[test]
fn move_relative_clamps() {
    let p = project(&[Decision::Undecided; 4]);
    let mut r = Review::new();
    assert_eq!(r.move_relative(&p, -1), ReviewStep::Show { index: 0, contiguous: true });
    r.current_index = 3;
    assert_eq!(r.move_relative(&p, 1), ReviewStep::Show { index: 3, contiguous: true });
    assert_eq!(r.move_relative(&p, -2), ReviewStep::Show { index: 1, contiguous: true });
    let empty = project(&[]);
    assert_eq!(r.move_relative(&empty, 1), ReviewStep::Ignored);
}

#[test]
fn jump_to_next_undecided_wraps_around() {
    let p = project(&[Decision::Undecided, Decision::Keep, Decision::Trash, Decision::Keep]);
    let mut r = Review { current_index: 2, history: Vec::new() };
    assert_eq!(r.jump_to_next_undecided(&p), ReviewStep::Show { index: 0, contiguous: false });
    let all = project(&[Decision::Keep, Decision::Trash]);
    assert_eq!(r.jump_to_next_undecided(&all), ReviewStep::Summary);
    let only_current = project(&[Decision::Keep, Decision::Undecided]);
    let mut r2 = Review { current_index: 1, history: Vec::new() };
    assert_eq!(r2.jump_to_next_undecided(&only_current), ReviewStep::Show { index: 1, contiguous: false });
}

#[test]
fn review_starts_at_first_undecided() {
    let p = project(&[Decision::Keep, Decision::Trash, Decision::Undecided, Decision::Undecided]);
    let mut r = Review { current_index: 3, history: Vec::new() };
    r.jump_to_first_undecided(&p);
    assert_eq!(r.current_index, 2);
    let done = project(&[Decision::Keep]);
    r.jump_to_first_undecided(&done);
    assert_eq!(r.current_index, 0);
    r.current_index = 9;
    assert_eq!(r.clamp_to_items(&done), Some(0));
    assert_eq!(progress_counts(&p, 2), (3, 4, 1, 1));
}

fn img() -> DecodedImage {
    DecodedImage { width: 1, height: 1, rgba: vec![1, 2, 3, 4] }
}

#[test]
fn ahead_count_stops_at_the_first_gap() {
    let p = project(&[Decision::Undecided; 5]);
    let mut cache = DecodedCache::new(10, 1000);
    cache.insert(1, img());
    cache.insert(3, img());
    assert_eq!(ahead_ready_count(&p, &cache, 0), 1);
    assert_eq!(ahead_ready_count(&p, &cache, 1), 0);
    assert_eq!(ahead_ready_count(&p, &cache, 2), 1);
}

#[test]
fn prefetch_requests_uncached_photos_in_the_window() {
    let p = project(&[Decision::Undecided; 8]);
    let mut cache = DecodedCache::new(10, 1000);
    cache.insert(1, img());
    let plan = prefetch_plan(&p, &cache, 1, 1, 3).unwrap();
    assert_eq!(plan.to_request, vec![0, 3, 4]);
    assert_eq!(plan.keep, 0..8);
    assert!(prefetch_plan(&project(&[]), &cache, 0, 1, 3).is_none());
}

#[test]
fn stale_decodes_are_dropped() {
    let mut cache = DecodedCache::new(10, 1000);
    let stale = DecodeResult { index: 0, generation: 1, outcome: Ok(img()) };
    assert_eq!(accept_decode_result(&mut cache, 2, 0, stale), DecodeDisposition::Stale);
    assert_eq!(cache.len(), 0);
    let failed = DecodeResult { index: 0, generation: 2, outcome: Err("bad".to_string()) };
    assert_eq!(accept_decode_result(&mut cache, 2, 0, failed), DecodeDisposition::Failed("bad".to_string()));
    let ok = DecodeResult { index: 4, generation: 2, outcome: Ok(img()) };
    assert_eq!(accept_decode_result(&mut cache, 2, 0, ok), DecodeDisposition::Cached { is_current: false });
    assert!(cache.contains(4));
}

#[test]
fn setup_screen_follows_its_inputs() {
    let v = setup_view(false, false, false, true);
    assert_eq!((v.label, v.sensitive, v.hint), (PrimaryLabel::StartReview, false, SetupHint::NeedSourcesAndTarget));
    let v = setup_view(false, true, false, false);
    assert_eq!(v.hint, SetupHint::NeedSource);
    let v = setup_view(false, true, false, true);
    assert_eq!((v.sensitive, v.hint), (true, SetupHint::Ready));
    let v = setup_view(false, true, true, false);
    assert_eq!((v.label, v.hint), (PrimaryLabel::ResumeReview, SetupHint::ExistingProject));
    let v = setup_view(true, false, false, false);
    assert_eq!((v.label, v.sensitive, v.hint), (PrimaryLabel::ResumeReview, true, SetupHint::InProgress));
    assert_eq!(primary_step(true, false, false, 0), PrimaryStep::ResumeActive);
    assert_eq!(primary_step(false, false, true, 3), PrimaryStep::NoTarget);
    assert_eq!(primary_step(false, true, true, 0), PrimaryStep::LoadExisting);
    assert_eq!(primary_step(false, true, false, 0), PrimaryStep::NoSources);
    assert_eq!(primary_step(false, true, false, 2), PrimaryStep::CreateNew);
}

#[test]
fn keys_map_to_review_actions() {
    assert_eq!(action_for_key('f' as u32), Some(ReviewAction::Keep));
    assert_eq!(action_for_key('F' as u32), Some(ReviewAction::Keep));
    assert_eq!(action_for_key('j' as u32), Some(ReviewAction::Trash));
    assert_eq!(action_for_key('J' as u32), Some(ReviewAction::Trash));
    assert_eq!(action_for_key(0xff51), Some(ReviewAction::Previous));
    assert_eq!(action_for_key(0xff53), Some(ReviewAction::Next));
    assert_eq!(action_for_key(0xff08), Some(ReviewAction::Undo));
    assert_eq!(action_for_key(0xff09), Some(ReviewAction::JumpToNextUndecided));
    assert_eq!(action_for_key(0xfe20), Some(ReviewAction::JumpToNextUndecided));
    assert_eq!(action_for_key(' ' as u32), Some(ReviewAction::PlayPause));
    assert_eq!(action_for_key(0xffc8), Some(ReviewAction::ToggleFullscreen));
    assert_eq!(action_for_key(0xff1b), Some(ReviewAction::BackToSetup));
    assert_eq!(action_for_key('k' as u32), None);
    assert_eq!(action_for_key(0), None);
}
