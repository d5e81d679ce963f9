//! The review session: deciding keep / trash item by item, undoing,
//! moving around, jumping to the next undecided item, and which images to
//! decode ahead. Each step changes the project and the review position and
//! tells the caller what to show next; showing it, saving the project and
//! talking to the decode workers happen outside the library.

use vstd::prelude::*;
use crate::decode::cache::{DecodedCache, bytes_of, has_key, insert_result};
use crate::decode::{DecodeResult, window_around, window_spec};
use crate::media::MediaKind;
use crate::project::{Decision, ItemView, MediaItem, Project, count_decision, items_view};
use crate::time::{Timestamp, now_utc};

verus! {

/// What a key press asks of the review screen.
#[derive(Debug, Clone, Copy, PartialEq, Eq, Structural)]
pub enum ReviewAction {
    Keep,
    Trash,
    Previous,
    Next,
    Undo,
    JumpToNextUndecided,
    PlayPause,
    ToggleFullscreen,
    BackToSetup,
}

/// Key values of the keys the review screen answers to (X keysyms, as GDK
/// numbers them).
pub const KEY_LOWER_F: u32 = 102;
pub const KEY_UPPER_F: u32 = 70;
pub const KEY_LOWER_J: u32 = 106;
pub const KEY_UPPER_J: u32 = 74;
pub const KEY_LEFT: u32 = 65361;
pub const KEY_RIGHT: u32 = 65363;
pub const KEY_BACKSPACE: u32 = 65288;
pub const KEY_TAB: u32 = 65289;
pub const KEY_ISO_LEFT_TAB: u32 = 65056;
pub const KEY_SPACE: u32 = 32;
pub const KEY_F11: u32 = 65480;
pub const KEY_ESCAPE: u32 = 65307;

/// The action of a key on the review screen: F keeps, J trashes (either
/// case), the arrows move, Backspace undoes, Tab (also shifted) jumps to the
/// next undecided item, Space plays or pauses, F11 toggles fullscreen and
/// Escape goes back to setup; other keys do nothing.
pub open spec fn key_action(keyval: u32) -> Option<ReviewAction> {
    if keyval == KEY_LOWER_F || keyval == KEY_UPPER_F {
        Some(ReviewAction::Keep)
    } else if keyval == KEY_LOWER_J || keyval == KEY_UPPER_J {
        Some(ReviewAction::Trash)
    } else if keyval == KEY_LEFT {
        Some(ReviewAction::Previous)
    } else if keyval == KEY_RIGHT {
        Some(ReviewAction::Next)
    } else if keyval == KEY_BACKSPACE {
        Some(ReviewAction::Undo)
    } else if keyval == KEY_TAB || keyval == KEY_ISO_LEFT_TAB {
        Some(ReviewAction::JumpToNextUndecided)
    } else if keyval == KEY_SPACE {
        Some(ReviewAction::PlayPause)
    } else if keyval == KEY_F11 {
        Some(ReviewAction::ToggleFullscreen)
    } else if keyval == KEY_ESCAPE {
        Some(ReviewAction::BackToSetup)
    } else {
        None
    }
}

/// The review action for a key press, by its key value (see
/// [`key_action`]).
pub fn action_for_key(keyval: u32) -> (r: Option<ReviewAction>)
    ensures
        r == key_action(keyval),
{
    match keyval {
        KEY_LOWER_F | KEY_UPPER_F => Some(ReviewAction::Keep),
        KEY_LOWER_J | KEY_UPPER_J => Some(ReviewAction::Trash),
        KEY_LEFT => Some(ReviewAction::Previous),
        KEY_RIGHT => Some(ReviewAction::Next),
        KEY_BACKSPACE => Some(ReviewAction::Undo),
        KEY_TAB | KEY_ISO_LEFT_TAB => Some(ReviewAction::JumpToNextUndecided),
        KEY_SPACE => Some(ReviewAction::PlayPause),
        KEY_F11 => Some(ReviewAction::ToggleFullscreen),
        KEY_ESCAPE => Some(ReviewAction::BackToSetup),
        _ => None,
    }
}

/// What to show after a review step.
#[derive(Debug, Clone, Copy, PartialEq, Eq, Structural)]
pub enum ReviewStep {
    /// Nothing changed.
    Ignored,
    /// Show the item at `index`; `contiguous` is false after a jump, when
    /// decodes in flight for the old window are stale.
    Show { index: usize, contiguous: bool },
    /// Show the summary screen.
    Summary,
}

/// The position in the review and the decisions that can be undone, most
/// recent last (each with the decision the item had before).
#[derive(Debug, Clone)]
pub struct Review {
    pub current_index: usize,
    pub history: Vec<(usize, Decision)>,
}

/// `items` with the decision of item `idx` set to `d`, decided at `at`.
pub open spec fn with_decision(items: Seq<ItemView>, idx: int, d: Decision, at: Option<Timestamp>) -> Seq<
    ItemView,
> {
    items.update(idx, ItemView { decision: d, decided_at: at, ..items[idx] })
}

/// The effect of deciding `d` on the current item `c0 < len`: its
/// decision becomes `d` (decided now), the previous decision is pushed on
/// the history, and the position moves to the next item when there is one.
pub open spec fn decide_rel(
    i0: Seq<ItemView>,
    h0: Seq<(usize, Decision)>,
    c0: usize,
    d: Decision,
    i1: Seq<ItemView>,
    h1: Seq<(usize, Decision)>,
    c1: usize,
) -> bool {
    &&& c0 < i0.len()
    &&& exists|t: Timestamp| i1 == with_decision(i0, c0 as int, d, Some(t))
    &&& h1 == h0.push((c0, i0[c0 as int].decision))
    &&& c1 == if c0 + 1 < i0.len() {
        (c0 + 1) as usize
    } else {
        c0
    }
}

/// The effect of undoing with a non-empty history: the last entry is taken
/// off; its item (if still there) gets its old decision back, with no
/// decision time; the position moves to that item.
pub open spec fn undo_rel(
    i1: Seq<ItemView>,
    h1: Seq<(usize, Decision)>,
    i2: Seq<ItemView>,
    h2: Seq<(usize, Decision)>,
    c2: usize,
) -> bool {
    &&& h1.len() > 0
    &&& h2 == h1.drop_last()
    &&& c2 == h1.last().0
    &&& i2 == if (h1.last().0 as int) < i1.len() {
        with_decision(i1, h1.last().0 as int, h1.last().1, None)
    } else {
        i1
    }
}

/// The other fields of the project are untouched.
pub open spec fn same_except_items(a: Project, b: Project) -> bool {
    &&& a.schema_version == b.schema_version
    &&& a.created_at == b.created_at
    &&& a.updated_at == b.updated_at
    &&& a.sources == b.sources
    &&& a.target == b.target
}

/// Law of undo: deciding on the current item and then undoing brings back
/// the history, the position, and every item as it was, except that the
/// undone item's decision time is cleared.
pub proof fn lemma_decide_then_undo(
    i0: Seq<ItemView>,
    h0: Seq<(usize, Decision)>,
    c0: usize,
    d: Decision,
    i1: Seq<ItemView>,
    h1: Seq<(usize, Decision)>,
    c1: usize,
    i2: Seq<ItemView>,
    h2: Seq<(usize, Decision)>,
    c2: usize,
)
    requires
        decide_rel(i0, h0, c0, d, i1, h1, c1),
        undo_rel(i1, h1, i2, h2, c2),
    ensures
        h2 == h0,
        c2 == c0,
        i2 == with_decision(i0, c0 as int, i0[c0 as int].decision, None),
        i2[c0 as int].decision == i0[c0 as int].decision,
        forall|j: int| 0 <= j < i0.len() && j != c0 ==> i2[j] == i0[j],
{
    let t = choose|t: Timestamp| i1 == with_decision(i0, c0 as int, d, Some(t));
    assert(h1.drop_last() =~= h0);
    assert(i2 =~= with_decision(i0, c0 as int, i0[c0 as int].decision, None));
}

/// The item `o` places after position `cur`, wrapping around.
pub open spec fn cyclic_at(items: Seq<MediaItem>, cur: int, o: int) -> MediaItem {
    items[cyclic_index(cur, o, items.len() as int)]
}

/// The position `o` places after `cur` among `len` positions, wrapping.
pub open spec fn cyclic_index(cur: int, o: int, len: int) -> int {
    (cur + o) % len
}

proof fn lemma_mod_step(x: int, len: int)
    requires
        len > 0,
        x >= 0,
    ensures
        0 <= x % len < len,
        (x + 1) % len == if x % len + 1 == len {
            0
        } else {
            x % len + 1
        },
{
    vstd::arithmetic::div_mod::lemma_mod_pos_bound(x, len);
    vstd::arithmetic::div_mod::lemma_add_mod_noop(x, 1, len);
    if len == 1 {
        vstd::arithmetic::div_mod::lemma_mod_pos_bound(x + 1, 1);
    } else {
        vstd::arithmetic::div_mod::lemma_small_mod(1, len as nat);
        if x % len + 1 == len {
            vstd::arithmetic::div_mod::lemma_mod_self_0(len);
        } else {
            vstd::arithmetic::div_mod::lemma_small_mod((x % len + 1) as nat, len as nat);
        }
    }
}

proof fn lemma_cyclic_covers(cur: int, len: int, j: int)
    requires
        len > 0,
        cur >= 0,
        0 <= j < len,
    ensures
        exists|off: int| 1 <= off <= len && #[trigger] ((cur + off) % len) == j,
{
    let c = cur % len;
    vstd::arithmetic::div_mod::lemma_mod_pos_bound(cur, len);
    vstd::arithmetic::div_mod::lemma_fundamental_div_mod(cur, len);
    let q = cur / len;
    let off = if j > c {
        j - c
    } else {
        j - c + len
    };
    assert(cur + off == len * q + (c + off));
    vstd::arithmetic::div_mod::lemma_mod_multiples_vanish(q, c + off, len);
    vstd::arithmetic::div_mod::lemma_small_mod(j as nat, len as nat);
    if j <= c {
        vstd::arithmetic::div_mod::lemma_mod_add_multiples_vanish(j, len);
        assert(c + off == len + j);
    }
    assert((cur + off) % len == j);
}

impl Review {
    /// A review at the first item with no history.
    pub fn new() -> (r: Self)
        ensures
            r.current_index == 0,
            r.history@.len() == 0,
    {
        Review { current_index: 0, history: Vec::new() }
    }

    /// Records `decision` for the current item (decided now) and moves on:
    /// to the next item, or to the summary after the last one. Nothing
    /// happens when the position is past the end.
    pub fn decide(&mut self, project: &mut Project, decision: Decision) -> (step: ReviewStep)
        ensures
            same_except_items(*old(project), *final(project)),
            old(self).current_index >= old(project).items@.len() ==> step == ReviewStep::Ignored
                && *final(project) == *old(project) && final(self).current_index == old(self).current_index && final(self).history@ == old(self).history@,
            old(self).current_index < old(project).items@.len() ==> decide_rel(
                items_view(old(project).items@),
                old(self).history@,
                old(self).current_index,
                decision,
                items_view(final(project).items@),
                final(self).history@,
                final(self).current_index,
            ) && step == if old(self).current_index + 1 < old(project).items@.len() {
                ReviewStep::Show { index: final(self).current_index, contiguous: true }
            } else {
                ReviewStep::Summary
            },
    {
        let idx = self.current_index;
        let len = project.items.len();
        if idx >= len {
            return ReviewStep::Ignored;
        }
        let now = now_utc();
        let ghost before = items_view(project.items@);
        let it = &project.items[idx];
        let old_decision = it.decision;
        let updated = MediaItem {
            source_id: it.source_id,
            relative_path: it.relative_path.clone(),
            kind: it.kind,
            size_bytes: it.size_bytes,
            modified: it.modified,
            decision,
            decided_at: Some(now),
        };
        project.items.set(idx, updated);
        assert(items_view(project.items@) =~= with_decision(before, idx as int, decision, Some(now)));
        self.history.push((idx, old_decision));
        if idx + 1 < len {
            self.current_index = idx + 1;
            ReviewStep::Show { index: idx + 1, contiguous: true }
        } else {
            ReviewStep::Summary
        }
    }

    /// Takes back the last decision: the item gets its old decision back
    /// (with no decision time) and becomes the current one. Nothing happens
    /// when there is nothing to undo.
    pub fn undo(&mut self, project: &mut Project) -> (step: ReviewStep)
        ensures
            same_except_items(*old(project), *final(project)),
            old(self).history@.len() == 0 ==> step == ReviewStep::Ignored && *final(project) == *old(project) && final(self).current_index == old(self).current_index && final(self).history@ == old(self).history@,
            old(self).history@.len() > 0 ==> undo_rel(
                items_view(old(project).items@),
                old(self).history@,
                items_view(final(project).items@),
                final(self).history@,
                final(self).current_index,
            ) && step == (ReviewStep::Show { index: final(self).current_index, contiguous: false }),
    {
        let ghost h = self.history@;
        let entry = self.history.pop();
        match entry {
            None => ReviewStep::Ignored,
            Some((idx, old_decision)) => {
                assert(self.history@ =~= h.drop_last());
                if idx < project.items.len() {
                    let ghost before = items_view(project.items@);
                    let it = &project.items[idx];
                    let restored = MediaItem {
                        source_id: it.source_id,
                        relative_path: it.relative_path.clone(),
                        kind: it.kind,
                        size_bytes: it.size_bytes,
                        modified: it.modified,
                        decision: old_decision,
                        decided_at: None,
                    };
                    project.items.set(idx, restored);
                    assert(items_view(project.items@) =~= with_decision(
                        before,
                        idx as int,
                        old_decision,
                        None,
                    ));
                }
                self.current_index = idx;
                ReviewStep::Show { index: idx, contiguous: false }
            },
        }
    }

    /// Moves `delta` items forward (backward when negative), clamped to the
    /// items there are.
    pub fn move_relative(&mut self, project: &Project, delta: i64) -> (step: ReviewStep)
        ensures
            final(self).history == old(self).history,
            project.items@.len() == 0 ==> step == ReviewStep::Ignored && final(self).current_index
                == old(self).current_index,
            project.items@.len() > 0 ==> ({
                let want = old(self).current_index + delta;
                let last = project.items@.len() - 1;
                &&& final(self).current_index == if want < 0 {
                    0
                } else if want > last {
                    last
                } else {
                    want
                }
                &&& step == (ReviewStep::Show { index: final(self).current_index, contiguous: true })
            }),
    {
        let len = project.items.len();
        if len == 0 {
            return ReviewStep::Ignored;
        }
        let want: i128 = self.current_index as i128 + delta as i128;
        let last = len - 1;
        let index: usize = if want < 0 {
            0
        } else if want > last as i128 {
            last
        } else {
            want as usize
        };
        self.current_index = index;
        ReviewStep::Show { index, contiguous: true }
    }

    /// Jumps to the next undecided item after the current one, wrapping
    /// around; shows the summary when no item is undecided.
    pub fn jump_to_next_undecided(&mut self, project: &Project) -> (step: ReviewStep)
        ensures
            final(self).history == old(self).history,
            project.items@.len() == 0 ==> step == ReviewStep::Ignored && final(self).current_index
                == old(self).current_index,
            project.items@.len() > 0 ==> match step {
                ReviewStep::Show { index, contiguous } => {
                    let len = project.items@.len() as int;
                    &&& !contiguous
                    &&& index == final(self).current_index
                    &&& project.items@[index as int].decision == Decision::Undecided
                    &&& exists|off: int|
                        1 <= off <= len && index == #[trigger] cyclic_index(
                            old(self).current_index as int,
                            off,
                            len,
                        ) && (forall|
                            o: int,
                        |
                            1 <= o < off ==> (#[trigger] cyclic_at(
                                project.items@,
                                old(self).current_index as int,
                                o,
                            )).decision != Decision::Undecided)
                },
                ReviewStep::Summary => final(self).current_index == old(self).current_index && forall|
                    j: int,
                |
                    0 <= j < project.items@.len() ==> project.items@[j].decision
                        != Decision::Undecided,
                ReviewStep::Ignored => false,
            },
    {
        let items = &project.items;
        let len = items.len();
        if len == 0 {
            return ReviewStep::Ignored;
        }
        let ghost cur = self.current_index as int;
        let mut pos = self.current_index % len;
        let mut off: usize = 0;
        let mut found = false;
        while off < len && !found
            invariant
                items@ == project.items@,
                len == items@.len(),
                len > 0,
                cur == self.current_index,
                off <= len,
                pos == (cur + off) % (len as int),
                found ==> off >= 1 && items@[pos as int].decision == Decision::Undecided,
                forall|o: int|
                    1 <= o <= off && !(found && o == off) ==> (#[trigger] cyclic_at(items@, cur, o)).decision
                        != Decision::Undecided,
            decreases len - off,
        {
            proof {
                lemma_mod_step(cur + off, len as int);
            }
            pos = if pos + 1 == len {
                0
            } else {
                pos + 1
            };
            off = off + 1;
            if items[pos].decision == Decision::Undecided {
                found = true;
            }
        }
        if found {
            assert(pos == cyclic_index(cur, off as int, len as int));
            assert(forall|o: int|
                1 <= o < off ==> (#[trigger] cyclic_at(items@, cur, o)).decision != Decision::Undecided);
            self.current_index = pos;
            ReviewStep::Show { index: pos, contiguous: false }
        } else {
            assert forall|j: int| 0 <= j < len implies items@[j].decision != Decision::Undecided by {
                lemma_cyclic_covers(cur, len as int, j);
                let o = choose|o: int| 1 <= o <= len && #[trigger] ((cur + o) % (len as int)) == j;
                assert(cyclic_at(items@, cur, o) == items@[j]);
            }
            ReviewStep::Summary
        }
    }

    /// Starts at the first undecided item (the first item when all are
    /// decided).
    pub fn jump_to_first_undecided(&mut self, project: &Project)
        ensures
            final(self).history == old(self).history,
            (exists|j: int|
                0 <= j < project.items@.len() && project.items@[j].decision == Decision::Undecided)
                ==> ({
                let c = final(self).current_index as int;
                &&& 0 <= c < project.items@.len()
                &&& project.items@[c].decision == Decision::Undecided
                &&& forall|k: int| 0 <= k < c ==> project.items@[k].decision != Decision::Undecided
            }),
            !(exists|j: int|
                0 <= j < project.items@.len() && project.items@[j].decision == Decision::Undecided)
                ==> final(self).current_index == 0,
    {
        let items = &project.items;
        let mut i: usize = 0;
        while i < items.len()
            invariant
                items@ == project.items@,
                self.history == old(self).history,
                i <= items@.len(),
                forall|k: int| 0 <= k < i ==> items@[k].decision != Decision::Undecided,
            decreases items@.len() - i,
        {
            if items[i].decision == Decision::Undecided {
                self.current_index = i;
                assert(project.items@[i as int].decision == Decision::Undecided);
                return;
            }
            i = i + 1;
        }
        self.current_index = 0;
    }

    /// The item to show: the current position, clamped to the last item
    /// (the position is set to it); `None` when there are no items.
    pub fn clamp_to_items(&mut self, project: &Project) -> (r: Option<usize>)
        ensures
            final(self).history == old(self).history,
            project.items@.len() == 0 ==> r is None && final(self).current_index == old(self).current_index,
            project.items@.len() > 0 ==> r == Some(final(self).current_index) && final(self).current_index == if old(self).current_index < project.items@.len() {
                old(self).current_index as int
            } else {
                project.items@.len() - 1
            },
    {
        let len = project.items.len();
        if len == 0 {
            return None;
        }
        let idx = if self.current_index < len {
            self.current_index
        } else {
            len - 1
        };
        self.current_index = idx;
        Some(idx)
    }
}

/// Whether the item at `j` is a photo whose image is cached.
pub open spec fn ready_photo(items: Seq<MediaItem>, cached: Seq<(usize, crate::decode::DecodedImage)>, j: int) -> bool {
    0 <= j < items.len() && items[j].kind == MediaKind::Photo && has_key(cached, j as usize)
}

/// How many items right after `current` are photos already decoded: the
/// count stops at the first item that is not a cached photo.
pub fn ahead_ready_count(project: &Project, cache: &DecodedCache, current: usize) -> (r: usize)
    requires
        current < usize::MAX,
    ensures
        forall|k: int|
            1 <= k <= r ==> #[trigger] ready_photo(project.items@, cache.contents(), current + k),
        !ready_photo(project.items@, cache.contents(), current + r + 1),
{
    let items = &project.items;
    let mut count: usize = 0;
    let mut idx = current + 1;
    while idx < items.len()
        invariant
            items@ == project.items@,
            current < usize::MAX,
            idx == current + 1 + count,
            forall|k: int| 1 <= k <= count ==> #[trigger] ready_photo(items@, cache.contents(), current + k),
        decreases items@.len() - idx,
    {
        if items[idx].kind == MediaKind::Photo && cache.contains(idx) {
            count = count + 1;
            idx = idx + 1;
        } else {
            return count;
        }
    }
    count
}

/// The indices in `s..e` of photos not cached yet, in order.
pub open spec fn wanted_indices(
    items: Seq<MediaItem>,
    cached: Seq<(usize, crate::decode::DecodedImage)>,
    s: int,
    e: int,
) -> Seq<usize>
    decreases e - s,
{
    if e <= s {
        Seq::empty()
    } else {
        let r = wanted_indices(items, cached, s, e - 1);
        if 0 <= e - 1 < items.len() && items[e - 1].kind == MediaKind::Photo && !has_key(
            cached,
            (e - 1) as usize,
        ) {
            r.push((e - 1) as usize)
        } else {
            r
        }
    }
}

/// What to decode ahead around the current item, and which cached range to
/// keep.
#[derive(Debug)]
pub struct PrefetchPlan {
    /// Photos in the window that are not cached yet, in order.
    pub to_request: Vec<usize>,
    /// The window widened by 2 behind and 4 ahead (clamped): cached images
    /// outside it (other than the current one) are dropped.
    pub keep: std::ops::Range<usize>,
}

/// The prefetch plan around `current`, with `behind` items before and
/// `ahead` after; `None` when there are no items.
pub fn prefetch_plan(
    project: &Project,
    cache: &DecodedCache,
    current: usize,
    behind: usize,
    ahead: usize,
) -> (r: Option<PrefetchPlan>)
    requires
        project.items@.len() == 0 || current + ahead + 1 <= usize::MAX,
        project.items@.len() == 0 || window_spec(
            current as int,
            project.items@.len() as int,
            behind as int,
            ahead as int,
        ).1 + 4 <= usize::MAX,
    ensures
        project.items@.len() == 0 ==> r is None,
        project.items@.len() > 0 ==> (r matches Some(p) && ({
            let (s, e) = window_spec(
                current as int,
                project.items@.len() as int,
                behind as int,
                ahead as int,
            );
            &&& p.to_request@ == wanted_indices(project.items@, cache.contents(), s, e)
            &&& p.keep.start == if s >= 2 {
                s - 2
            } else {
                0
            }
            &&& p.keep.end == if e + 4 <= project.items@.len() {
                e + 4
            } else {
                project.items@.len() as int
            }
        })),
{
    let items = &project.items;
    let len = items.len();
    if len == 0 {
        return None;
    }
    let range = window_around(current, len, behind, ahead);
    let s = range.start;
    let e = range.end;
    let mut to_request: Vec<usize> = Vec::new();
    let mut idx = s;
    while idx < e
        invariant
            items@ == project.items@,
            s <= idx,
            idx <= e || idx == s,
            e <= len,
            len == items@.len(),
            to_request@ == wanted_indices(items@, cache.contents(), s as int, idx as int),
        decreases e - idx,
    {
        if items[idx].kind == MediaKind::Photo && !cache.contains(idx) {
            to_request.push(idx);
        }
        idx = idx + 1;
    }
    let keep_start = if s >= 2 {
        s - 2
    } else {
        0
    };
    let keep_end = if e + 4 <= len {
        e + 4
    } else {
        len
    };
    Some(PrefetchPlan { to_request, keep: keep_start..keep_end })
}

/// What became of a finished decode.
#[derive(Debug, Clone, PartialEq, Eq)]
pub enum DecodeDisposition {
    /// From an older window: dropped.
    Stale,
    /// The decode failed with this message: nothing cached.
    Failed(String),
    /// Cached; `is_current` tells whether it is the item on screen.
    Cached { is_current: bool },
}

/// Takes in a finished decode: results of another generation are dropped,
/// failures are reported, and images are cached under their index.
pub fn accept_decode_result(
    cache: &mut DecodedCache,
    current_generation: u64,
    current_index: usize,
    result: DecodeResult,
) -> (d: DecodeDisposition)
    requires
        old(cache).wf(),
        result.outcome matches Ok(img) ==> old(cache).used() + img.rgba@.len() <= usize::MAX,
    ensures
        final(cache).wf(),
        final(cache).capacity() == old(cache).capacity(),
        final(cache).budget() == old(cache).budget(),
        final(cache).used() == bytes_of(final(cache).contents()),
        result.generation != current_generation ==> d == DecodeDisposition::Stale && final(cache).contents() == old(cache).contents(),
        result.generation == current_generation ==> match result.outcome {
            Err(e) => d == DecodeDisposition::Failed(e) && final(cache).contents() == old(cache).contents(),
            Ok(img) => d == (DecodeDisposition::Cached { is_current: result.index == current_index })
                && insert_result(
                old(cache).contents(),
                old(cache).capacity(),
                old(cache).budget(),
                result.index,
                img,
                final(cache).contents(),
            ) && has_key(final(cache).contents(), result.index),
        },
{
    proof {
        cache.lemma_wf();
    }
    if result.generation != current_generation {
        return DecodeDisposition::Stale;
    }
    let index = result.index;
    match result.outcome {
        Ok(image) => {
            cache.insert(index, image);
            proof {
                cache.lemma_wf();
            }
            DecodeDisposition::Cached { is_current: index == current_index }
        },
        Err(e) => DecodeDisposition::Failed(e),
    }
}

/// The counts shown while reviewing: position (1-based), total, kept and
/// trashed.
pub fn progress_counts(project: &Project, index: usize) -> (r: (usize, usize, usize, usize))
    requires
        index < project.items@.len(),
    ensures
        r.0 == index + 1,
        r.1 == project.items@.len(),
        r.2 == count_decision(project.items@, Decision::Keep),
        r.3 == count_decision(project.items@, Decision::Trash),
{
    let len = project.items.len();
    (index + 1, len, project.keep_count(), project.trash_count())
}

} // verus!
