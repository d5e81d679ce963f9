//! The review project: the sources, the target, and one item per media
//! file with its keep / trash decision.

use vstd::prelude::*;
use crate::media::MediaKind;
use crate::path::{join, join_spec};
use crate::time::{Timestamp, is_clock_time, now_utc};

verus! {

/// Version of the project file layout this library writes.
pub const SCHEMA_VERSION: u32 = 1;

/// What was decided about one item.
#[derive(Debug, Clone, Copy, PartialEq, Eq, Structural)]
pub enum Decision {
    Undecided,
    Keep,
    Trash,
}

/// A source folder, with the id its items refer to.
#[derive(Debug, Clone)]
pub struct Source {
    pub id: u32,
    pub path: String,
}

/// One media file found under a source.
#[derive(Debug, Clone)]
pub struct MediaItem {
    pub source_id: u32,
    pub relative_path: String,
    pub kind: MediaKind,
    pub size_bytes: u64,
    pub modified: Option<Timestamp>,
    pub decision: Decision,
    pub decided_at: Option<Timestamp>,
}

/// An item, read as plain values.
pub struct ItemView {
    pub source_id: u32,
    pub relative_path: Seq<char>,
    pub kind: MediaKind,
    pub size_bytes: u64,
    pub modified: Option<Timestamp>,
    pub decision: Decision,
    pub decided_at: Option<Timestamp>,
}

impl View for MediaItem {
    type V = ItemView;

    open spec fn view(&self) -> ItemView {
        ItemView {
            source_id: self.source_id,
            relative_path: self.relative_path@,
            kind: self.kind,
            size_bytes: self.size_bytes,
            modified: self.modified,
            decision: self.decision,
            decided_at: self.decided_at,
        }
    }
}

/// A sequence of items, read as plain values.
pub open spec fn items_view(items: Seq<MediaItem>) -> Seq<ItemView> {
    items.map_values(|m: MediaItem| m@)
}

/// A review project.
#[derive(Debug, Clone)]
pub struct Project {
    pub schema_version: u32,
    pub created_at: Timestamp,
    pub updated_at: Timestamp,
    pub sources: Vec<Source>,
    pub target: String,
    pub items: Vec<MediaItem>,
}

/// Whether `j` is the first position in `sources` holding source `id`.
pub open spec fn is_first_source(sources: Seq<Source>, j: int, id: u32) -> bool {
    &&& 0 <= j < sources.len()
    &&& sources[j].id == id
    &&& forall|k: int| 0 <= k < j ==> sources[k].id != id
}

/// Whether some source in `sources` has id `id`.
pub open spec fn has_source(sources: Seq<Source>, id: u32) -> bool {
    exists|j: int| 0 <= j < sources.len() && sources[j].id == id
}

/// Number of items with decision `d`.
pub open spec fn count_decision(items: Seq<MediaItem>, d: Decision) -> nat
    decreases items.len(),
{
    if items.len() == 0 {
        0
    } else {
        count_decision(items.drop_last(), d) + if items.last().decision == d {
            1nat
        } else {
            0nat
        }
    }
}

/// Total size of the items marked keep.
pub open spec fn kept_bytes_spec(items: Seq<MediaItem>) -> nat
    decreases items.len(),
{
    if items.len() == 0 {
        0
    } else {
        kept_bytes_spec(items.drop_last()) + if items.last().decision == Decision::Keep {
            items.last().size_bytes as nat
        } else {
            0nat
        }
    }
}

/// Where the project file of a target lives: `<target>/.marshmallow/project.json`.
pub open spec fn default_project_path(target: Seq<char>) -> Seq<char> {
    join_spec(join_spec(target, ".marshmallow"@), "project.json"@)
}

/// The three decision counts always add up to the number of items.
pub proof fn lemma_counts_partition(items: Seq<MediaItem>)
    ensures
        count_decision(items, Decision::Keep) + count_decision(items, Decision::Trash)
            + count_decision(items, Decision::Undecided) == items.len(),
    decreases items.len(),
{
    if items.len() > 0 {
        lemma_counts_partition(items.drop_last());
    }
}

/// The kept bytes only grow with more items, and a prefix never counts more.
pub proof fn lemma_kept_bytes_prefix(items: Seq<MediaItem>, i: int)
    requires
        0 <= i <= items.len(),
    ensures
        kept_bytes_spec(items.take(i)) <= kept_bytes_spec(items),
    decreases items.len() - i,
{
    if i < items.len() {
        lemma_kept_bytes_prefix(items, i + 1);
        assert(items.take(i + 1).drop_last() =~= items.take(i));
    } else {
        assert(items.take(i) =~= items);
    }
}

/// The position of the first source with id `id`, if any.
pub fn find_source(sources: &[Source], id: u32) -> (r: Option<usize>)
    ensures
        match r {
            Some(j) => is_first_source(sources@, j as int, id),
            None => !has_source(sources@, id),
        },
{
    let mut i: usize = 0;
    while i < sources.len()
        invariant
            i <= sources@.len(),
            forall|k: int| 0 <= k < i ==> sources@[k].id != id,
        decreases sources@.len() - i,
    {
        if sources[i].id == id {
            return Some(i);
        }
        i = i + 1;
    }
    None
}

impl MediaItem {
    /// Where the item lives on disk: the path of the first source with the
    /// item's source id, joined with the item's relative path; `None` when no
    /// source has that id.
    pub fn absolute_path(&self, sources: &[Source]) -> (r: Option<String>)
        ensures
            match r {
                Some(p) => exists|j: int|
                    is_first_source(sources@, j, self.source_id) && p@ == join_spec(
                        sources@[j].path@,
                        self.relative_path@,
                    ),
                None => !has_source(sources@, self.source_id),
            },
    {
        match find_source(sources, self.source_id) {
            Some(j) => Some(join(&sources[j].path, &self.relative_path)),
            None => None,
        }
    }
}

impl Project {
    /// A fresh project over the given sources, target and items, created
    /// and last updated now.
    pub fn new(sources: Vec<Source>, target: String, items: Vec<MediaItem>) -> (p: Project)
        ensures
            p.schema_version == SCHEMA_VERSION,
            is_clock_time(p.created_at),
            p.created_at == p.updated_at,
            p.sources == sources,
            p.target == target,
            p.items == items,
    {
        let now = now_utc();
        Project {
            schema_version: SCHEMA_VERSION,
            created_at: now,
            updated_at: now,
            sources,
            target,
            items,
        }
    }

    /// Default project file location: it travels with the target drive.
    pub fn default_path(target: &str) -> (r: String)
        ensures
            r@ == default_project_path(target@),
    {
        let dir = join(target, ".marshmallow");
        join(&dir, "project.json")
    }

    /// Marks the project as updated now (done before every save): the
    /// update time becomes a reading of the clock (which time it is, is the
    /// clock's); nothing else changes.
    pub fn touch(&mut self)
        ensures
            is_clock_time(final(self).updated_at),
            final(self).schema_version == old(self).schema_version,
            final(self).created_at == old(self).created_at,
            final(self).sources == old(self).sources,
            final(self).target == old(self).target,
            final(self).items == old(self).items,
    {
        self.updated_at = now_utc();
    }

    /// Number of items marked keep.
    pub fn keep_count(&self) -> (r: usize)
        ensures
            r == count_decision(self.items@, Decision::Keep),
    {
        count_items(&self.items, Decision::Keep)
    }

    /// Number of items marked trash.
    pub fn trash_count(&self) -> (r: usize)
        ensures
            r == count_decision(self.items@, Decision::Trash),
    {
        count_items(&self.items, Decision::Trash)
    }

    /// Number of items not decided yet.
    pub fn undecided_count(&self) -> (r: usize)
        ensures
            r == count_decision(self.items@, Decision::Undecided),
    {
        count_items(&self.items, Decision::Undecided)
    }

    /// Total size in bytes of the items marked keep. The total must fit in a
    /// `u64` (summing past it is an overflow).
    pub fn kept_bytes(&self) -> (r: u64)
        requires
            kept_bytes_spec(self.items@) <= u64::MAX,
        ensures
            r == kept_bytes_spec(self.items@),
    {
        let items = &self.items;
        let mut total: u64 = 0;
        let mut i: usize = 0;
        while i < items.len()
            invariant
                i <= items.len(),
                kept_bytes_spec(items@) <= u64::MAX,
                total == kept_bytes_spec(items@.take(i as int)),
            decreases items.len() - i,
        {
            assert(items@.take(i + 1).drop_last() =~= items@.take(i as int));
            proof {
                lemma_kept_bytes_prefix(items@, i + 1);
            }
            if items[i].decision == Decision::Keep {
                total = total + items[i].size_bytes;
            }
            i = i + 1;
        }
        assert(items@.take(items.len() as int) =~= items@);
        total
    }
}

impl Project {
    /// Total size in bytes of the items marked keep, or `None` when it does
    /// not fit in a `u64`.
    pub fn checked_kept_bytes(&self) -> (r: Option<u64>)
        ensures
            match r {
                Some(v) => v == kept_bytes_spec(self.items@),
                None => kept_bytes_spec(self.items@) > u64::MAX,
            },
    {
        let items = &self.items;
        let mut total: u64 = 0;
        let mut i: usize = 0;
        while i < items.len()
            invariant
                items@ == self.items@,
                i <= items.len(),
                total == kept_bytes_spec(items@.take(i as int)),
            decreases items.len() - i,
        {
            assert(items@.take(i + 1).drop_last() =~= items@.take(i as int));
            if items[i].decision == Decision::Keep {
                match total.checked_add(items[i].size_bytes) {
                    Some(t) => {
                        total = t;
                    },
                    None => {
                        proof {
                            lemma_kept_bytes_prefix(items@, i + 1);
                            assert(items@.take(i + 1).last() == items@[i as int]);
                            assert(kept_bytes_spec(items@.take(i + 1)) == total
                                + items@[i as int].size_bytes);
                        }
                        return None;
                    },
                }
            }
            i = i + 1;
        }
        assert(items@.take(items.len() as int) =~= items@);
        Some(total)
    }
}

fn count_items(items: &Vec<MediaItem>, d: Decision) -> (r: usize)
    ensures
        r == count_decision(items@, d),
{
    let mut n: usize = 0;
    let mut i: usize = 0;
    while i < items.len()
        invariant
            i <= items.len(),
            n <= i,
            n == count_decision(items@.take(i as int), d),
        decreases items.len() - i,
    {
        assert(items@.take(i + 1).drop_last() =~= items@.take(i as int));
        if items[i].decision == d {
            n = n + 1;
        }
        i = i + 1;
    }
    assert(items@.take(items.len() as int) =~= items@);
    n
}

} // verus!
