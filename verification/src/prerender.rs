//! The prerendered thumbnail cache: where each photo's downscaled JPEG is
//! kept under the target, which photos a prerender run covers, and its
//! progress counts (the rendering runs on worker threads outside).

use vstd::prelude::*;
use crate::media::MediaKind;
use crate::path::{join, join_spec};
use crate::project::{ItemView, MediaItem, Project, Source, find_source, has_source, is_first_source, items_view};
use crate::text::{chars_of, hex16_of, hex_char, hex_digits, push_all, string_of};

verus! {

/// Progress of a prerender run.
#[derive(Debug, Clone, Copy, PartialEq, Eq, Structural)]
pub struct PrerenderProgress {
    pub done: usize,
    pub total: usize,
    pub rendered: usize,
    pub skipped: usize,
    pub failed: usize,
}

/// What a finished prerender run did.
#[derive(Debug, Clone, Copy, PartialEq, Eq, Structural)]
pub struct PrerenderOutcome {
    pub rendered: usize,
    pub skipped: usize,
    pub failed: usize,
    pub cancelled: bool,
}

/// The prerendering of a project's photos.
pub struct PrerenderEngine;

/// One photo to prerender: where it is read from and where its cache file
/// goes.
#[derive(Debug, Clone)]
pub struct PrerenderJob {
    pub source_path: String,
    pub cache_path: String,
}

/// The hash std's `DefaultHasher` (made by `DefaultHasher::new`, whose keys
/// are fixed) gives of the pair (source id, relative path as a `Path`).
pub uninterp spec fn identity_hash(source_id: u32, relative_path: Seq<char>) -> u64;

/// Hashes (source id, relative path) with std's `DefaultHasher`, through
/// `BuildHasher::hash_one` on `BuildHasherDefault<DefaultHasher>` (the same
/// bytes, in the same order, as hashing the id and then the path into a
/// `DefaultHasher::new()`). Claimed of it: the result is
/// [`identity_hash`] of the arguments, a function of them alone.
#[verifier::external_body]
fn hash_identity(source_id: u32, relative_path: &str) -> (h: u64)
    ensures
        h == identity_hash(source_id, relative_path@),
{
    std::hash::BuildHasher::hash_one(
        &std::hash::BuildHasherDefault::<std::collections::hash_map::DefaultHasher>::default(),
        (source_id, std::path::Path::new(relative_path)),
    )
}

/// The cache folder of a target: `<target>/.marshmallow/cache`.
pub open spec fn cache_dir_spec(target: Seq<char>) -> Seq<char> {
    join_spec(join_spec(target, ".marshmallow"@), "cache"@)
}

/// The name of an item's cache file: the 16 hex digits of the hash of its
/// identity, with extension `jpg`.
pub open spec fn cache_file_name(source_id: u32, relative_path: Seq<char>) -> Seq<char> {
    hex_digits(identity_hash(source_id, relative_path) as nat, 16) + ".jpg"@
}

/// The cache file of an item: in the cache folder, named by
/// [`cache_file_name`].
pub open spec fn cache_path_spec(target: Seq<char>, source_id: u32, relative_path: Seq<char>) -> Seq<
    char,
> {
    join_spec(cache_dir_spec(target), cache_file_name(source_id, relative_path))
}

/// Whether `c` is a lower-case hexadecimal digit.
pub open spec fn is_lower_hex(c: char) -> bool {
    ('0' <= c && c <= '9') || ('a' <= c && c <= 'f')
}

proof fn lemma_hex_digits_lower(n: nat, w: nat)
    ensures
        hex_digits(n, w).len() == w,
        forall|i: int| 0 <= i < w ==> #[trigger] is_lower_hex(hex_digits(n, w)[i]),
    decreases w,
{
    if w > 0 {
        lemma_hex_digits_lower(n / 16, (w - 1) as nat);
        let d = n % 16;
        assert(is_lower_hex(hex_char(d)));
        let h = hex_digits(n, w);
        assert forall|i: int| 0 <= i < w implies #[trigger] is_lower_hex(h[i]) by {
            if i < w - 1 {
                assert(h[i] == hex_digits(n / 16, (w - 1) as nat)[i]);
            }
        }
    }
}

/// Law of the cache file names: the name is 16 lower-case hexadecimal
/// digits and `.jpg`, it depends on the item's identity alone (not on the
/// target), and the file lies in the target's cache folder.
pub proof fn lemma_cache_file_name_shape(target: Seq<char>, source_id: u32, relative_path: Seq<char>)
    ensures
        cache_file_name(source_id, relative_path).len() == 20,
        forall|i: int| 0 <= i < 16 ==> #[trigger] is_lower_hex(cache_file_name(source_id, relative_path)[i]),
        cache_file_name(source_id, relative_path).subrange(16, 20) == ".jpg"@,
        cache_path_spec(target, source_id, relative_path) == join_spec(
            cache_dir_spec(target),
            cache_file_name(source_id, relative_path),
        ),
{
    reveal_strlit(".jpg");
    let h = hex_digits(identity_hash(source_id, relative_path) as nat, 16);
    lemma_hex_digits_lower(identity_hash(source_id, relative_path) as nat, 16);
    let n = cache_file_name(source_id, relative_path);
    assert forall|i: int| 0 <= i < 16 implies #[trigger] is_lower_hex(n[i]) by {
        assert(n[i] == h[i]);
    }
    assert(n.subrange(16, 20) =~= ".jpg"@);
}

/// The cache folder of a target.
pub fn cache_dir(target: &str) -> (r: String)
    ensures
        r@ == cache_dir_spec(target@),
{
    let dir = join(target, ".marshmallow");
    join(&dir, "cache")
}

/// The cache file of the item (`source_id`, `relative_path`); the same
/// identity always gives the same file.
pub fn cache_path_for(target: &str, source_id: u32, relative_path: &str) -> (r: String)
    ensures
        r@ == cache_path_spec(target@, source_id, relative_path@),
{
    let h = hash_identity(source_id, relative_path);
    let mut name = string_of(&hex16_of(h));
    push_all(&mut name, &chars_of(".jpg"));
    let dir = cache_dir(target);
    join(&dir, &name)
}

/// The path of the first source with id `id`.
pub open spec fn first_source_path(sources: Seq<Source>, id: u32) -> Seq<char> {
    sources[choose|j: int| is_first_source(sources, j, id)].path@
}

/// The jobs of a prerender run over `items`: every photo whose source is
/// known, in order.
pub open spec fn prerender_jobs_spec(
    items: Seq<ItemView>,
    sources: Seq<Source>,
    target: Seq<char>,
) -> Seq<(Seq<char>, Seq<char>)>
    decreases items.len(),
{
    if items.len() == 0 {
        Seq::empty()
    } else {
        let r = prerender_jobs_spec(items.drop_last(), sources, target);
        let it = items.last();
        if it.kind == MediaKind::Photo && has_source(sources, it.source_id) {
            r.push(
                (
                    join_spec(first_source_path(sources, it.source_id), it.relative_path),
                    cache_path_spec(target, it.source_id, it.relative_path),
                ),
            )
        } else {
            r
        }
    }
}

pub open spec fn jobs_view(jobs: Seq<PrerenderJob>) -> Seq<(Seq<char>, Seq<char>)> {
    jobs.map_values(|j: PrerenderJob| (j.source_path@, j.cache_path@))
}

impl PrerenderEngine {
    /// The photos of a project to prerender, with their cache files; videos
    /// and items of unknown sources are left out.
    pub fn jobs(project: &Project) -> (r: Vec<PrerenderJob>)
        ensures
            jobs_view(r@) == prerender_jobs_spec(
                items_view(project.items@),
                project.sources@,
                project.target@,
            ),
    {
        let items = &project.items;
        let sources = project.sources.as_slice();
        let mut r: Vec<PrerenderJob> = Vec::new();
        let mut i: usize = 0;
        while i < items.len()
            invariant
                items == project.items,
                sources@ == project.sources@,
                i <= items@.len(),
                jobs_view(r@) == prerender_jobs_spec(
                    items_view(items@.take(i as int)),
                    project.sources@,
                    project.target@,
                ),
            decreases items@.len() - i,
        {
            assert(items_view(items@.take(i + 1)).drop_last() =~= items_view(items@.take(i as int)));
            assert(items_view(items@.take(i + 1)).last() == items@[i as int]@);
            let item = &items[i];
            if item.kind == MediaKind::Photo {
                match find_source(sources, item.source_id) {
                    Some(j) => {
                        let job = PrerenderJob {
                            source_path: join(&sources[j].path, &item.relative_path),
                            cache_path: cache_path_for(&project.target, item.source_id, &item.relative_path),
                        };
                        let ghost old_r = jobs_view(r@);
                        r.push(job);
                        proof {
                            let c = choose|q: int| is_first_source(project.sources@, q, item.source_id);
                            assert(c == j);
                            assert(jobs_view(r@) =~= old_r.push((job.source_path@, job.cache_path@)));
                        }
                    },
                    None => {},
                }
            }
            i = i + 1;
        }
        assert(items@.take(items@.len() as int) =~= items@);
        r
    }
}

impl PrerenderProgress {
    /// The progress with these counts: done is rendered + skipped + failed.
    pub fn from_counts(rendered: usize, skipped: usize, failed: usize, total: usize) -> (p: Self)
        requires
            rendered + skipped + failed <= usize::MAX,
        ensures
            p == (PrerenderProgress {
                done: (rendered + skipped + failed) as usize,
                total,
                rendered,
                skipped,
                failed,
            }),
    {
        PrerenderProgress { done: rendered + skipped + failed, total, rendered, skipped, failed }
    }
}

} // verus!
