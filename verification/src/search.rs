//! Search options and the candidate bookkeeping of hybrid search: merging
//! candidate lists without duplicates and the decisions between channels.
use vstd::prelude::*;
use crate::config::Config;
use crate::index::matches_candidates;
use crate::query::{is_literal_query, is_quoted_chars, literal, quoted};
use crate::text::{trim, trim_str};
use crate::types::{chunk_key, ChunkRef, Route};

verus! {

/// What an index build is asked for.
pub struct IndexBuildOptions {
    pub model_id: String,
    pub dim: usize,
    pub projection: String,
    /// Build the sketch shell only (no embeddings).
    pub sketch_only: bool,
}

/// Options of one search.
pub struct SearchOptions {
    pub route: Route,
    pub laser_cap: usize,
    pub sketch_beam: usize,
    pub top_k: usize,
    pub dim: usize,
    pub projection: String,
    pub jit_enabled: bool,
    pub jit_embed_budget: usize,
    pub jit_reheat_file_cap: usize,
    pub jit_cold_first_file_cap: usize,
    pub jit_cold_first_embed_budget: usize,
    pub model_id: String,
    /// `parallel`, `ripgrep` or `auto`.
    pub grep_backend: String,
}

/// Number of results a search keeps.
pub const DEFAULT_TOP_K: usize = 20;

impl SearchOptions {
    /// Options for `route` taken from the configuration, keeping the
    /// default number of results.
    pub fn from_config(cfg: &Config, route: Route) -> (r: Self)
        ensures
            r.route == route,
            r.laser_cap == cfg.search.laser_candidate_cap,
            r.sketch_beam == cfg.search.sketch_beam_width,
            r.top_k == DEFAULT_TOP_K,
            r.dim == cfg.embedder.dim,
            r.projection@ == cfg.index.projection@,
            r.jit_enabled == cfg.search.jit_enabled,
            r.jit_embed_budget == cfg.search.jit_embed_budget,
            r.jit_reheat_file_cap == cfg.search.jit_reheat_file_cap,
            r.jit_cold_first_file_cap == cfg.search.jit_cold_first_file_cap,
            r.jit_cold_first_embed_budget == cfg.search.jit_cold_first_embed_budget,
            r.model_id@ == cfg.embedder.active@,
            r.grep_backend@ == cfg.grep.backend@,
    {
        SearchOptions {
            route,
            laser_cap: cfg.search.laser_candidate_cap,
            sketch_beam: cfg.search.sketch_beam_width,
            top_k: DEFAULT_TOP_K,
            dim: cfg.embedder.dim,
            projection: cfg.index.projection.clone(),
            jit_enabled: cfg.search.jit_enabled,
            jit_embed_budget: cfg.search.jit_embed_budget,
            jit_reheat_file_cap: cfg.search.jit_reheat_file_cap,
            jit_cold_first_file_cap: cfg.search.jit_cold_first_file_cap,
            jit_cold_first_embed_budget: cfg.search.jit_cold_first_embed_budget,
            model_id: cfg.embedder.active.clone(),
            grep_backend: cfg.grep.backend.clone(),
        }
    }
}

// ---------------------------------------------------------------------
// Candidate lists.

/// Some chunk of `s` has key `k`.
pub open spec fn has_key(s: Seq<ChunkRef>, k: (Seq<char>, u32, u32)) -> bool {
    exists|i: int| 0 <= i < s.len() && chunk_key(#[trigger] s[i]) == k
}

/// `s` with every chunk whose key occurred earlier left out.
pub open spec fn dedup_keys(s: Seq<ChunkRef>) -> Seq<ChunkRef>
    decreases s.len(),
{
    if s.len() == 0 {
        Seq::empty()
    } else {
        let d = dedup_keys(s.drop_last());
        if has_key(d, chunk_key(s.last())) {
            d
        } else {
            d.push(s.last())
        }
    }
}

/// No two chunks of `s` share a key.
pub open spec fn distinct_keys(s: Seq<ChunkRef>) -> bool {
    forall|i: int, j: int|
        0 <= i < j < s.len() ==> chunk_key(#[trigger] s[i]) != chunk_key(#[trigger] s[j])
}

/// De-duplication keeps exactly the keys it was given.
pub proof fn lemma_dedup_keys_same(s: Seq<ChunkRef>, k: (Seq<char>, u32, u32))
    ensures
        has_key(dedup_keys(s), k) == has_key(s, k),
    decreases s.len(),
{
    if s.len() > 0 {
        let p = s.drop_last();
        lemma_dedup_keys_same(p, k);
        let d = dedup_keys(p);
        if has_key(p, k) {
            let i = choose|i: int| 0 <= i < p.len() && chunk_key(#[trigger] p[i]) == k;
            assert(s[i] == p[i]);
        }
        if has_key(dedup_keys(s), k) && !has_key(d, k) {
            assert(chunk_key(s.last()) == k);
            assert(s[s.len() - 1] == s.last());
        }
        if has_key(s, k) && !has_key(p, k) {
            let i = choose|i: int| 0 <= i < s.len() && chunk_key(#[trigger] s[i]) == k;
            if i < s.len() - 1 {
                assert(p[i] == s[i]);
            }
            lemma_dedup_keys_same(p, chunk_key(s.last()));
            let dd = dedup_keys(s);
            assert(dd[dd.len() - 1] == s.last());
        }
        if has_key(d, k) {
            let i = choose|i: int| 0 <= i < d.len() && chunk_key(#[trigger] d[i]) == k;
            assert(dedup_keys(s)[i] == d[i]);
        }
    }
}

/// De-duplication leaves no two chunks with the same key.
pub proof fn lemma_dedup_keys_distinct(s: Seq<ChunkRef>)
    ensures
        distinct_keys(dedup_keys(s)),
    decreases s.len(),
{
    if s.len() > 0 {
        lemma_dedup_keys_distinct(s.drop_last());
        let d = dedup_keys(s.drop_last());
        if !has_key(d, chunk_key(s.last())) {
            let dd = d.push(s.last());
            assert forall|i: int, j: int| 0 <= i < j < dd.len() implies chunk_key(#[trigger] dd[i])
                != chunk_key(#[trigger] dd[j]) by {
                if j == dd.len() - 1 {
                    assert(dd[i] == d[i]);
                } else {
                    assert(dd[i] == d[i] && dd[j] == d[j]);
                }
            }
        }
    }
}

proof fn lemma_dedup_keys_idempotent(s: Seq<ChunkRef>)
    ensures
        dedup_keys(dedup_keys(s)) == dedup_keys(s),
    decreases s.len(),
{
    if s.len() > 0 {
        let p = s.drop_last();
        lemma_dedup_keys_idempotent(p);
        let d = dedup_keys(p);
        if !has_key(d, chunk_key(s.last())) {
            assert(d.push(s.last()).drop_last() =~= d);
        }
    }
}

proof fn lemma_dedup_keys_absorb(x: Seq<ChunkRef>, y: Seq<ChunkRef>)
    ensures
        dedup_keys(dedup_keys(x) + y) == dedup_keys(x + y),
    decreases y.len(),
{
    if y.len() == 0 {
        assert(dedup_keys(x) + y =~= dedup_keys(x));
        assert(x + y =~= x);
        lemma_dedup_keys_idempotent(x);
    } else {
        let yp = y.drop_last();
        lemma_dedup_keys_absorb(x, yp);
        assert((dedup_keys(x) + y).drop_last() =~= dedup_keys(x) + yp);
        assert((x + y).drop_last() =~= x + yp);
        assert((dedup_keys(x) + y).last() == y.last());
        assert((x + y).last() == y.last());
    }
}

/// `a` followed by `b`, keeping the first chunk of each (file, start line,
/// end line) key.
pub fn merge_candidates(a: &Vec<ChunkRef>, b: &Vec<ChunkRef>) -> (r: Vec<ChunkRef>)
    ensures
        r@ == dedup_keys(a@ + b@),
{
    let mut out: Vec<ChunkRef> = Vec::new();
    let mut i: usize = 0;
    while i < a.len()
        invariant
            i <= a.len(),
            out@ == dedup_keys(a@.take(i as int)),
        decreases a.len() - i,
    {
        assert(a@.take(i + 1).drop_last() =~= a@.take(i as int));
        if !matches_candidates(&a[i], &out) {
            out.push(a[i].clone());
        }
        i += 1;
    }
    assert(a@.take(a.len() as int) =~= a@);
    let mut j: usize = 0;
    while j < b.len()
        invariant
            j <= b.len(),
            out@ == dedup_keys(a@ + b@.take(j as int)),
        decreases b.len() - j,
    {
        assert((a@ + b@.take(j + 1)).drop_last() =~= a@ + b@.take(j as int));
        assert((a@ + b@.take(j + 1)).last() == b@[j as int]);
        if !matches_candidates(&b[j], &out) {
            out.push(b[j].clone());
        }
        j += 1;
    }
    assert(b@.take(b.len() as int) =~= b@);
    out
}

/// The candidates of semantic scoring: exact hits, then laser hits, then
/// the sketch beam, each chunk key once.
pub fn gather_candidates(exact: &Vec<ChunkRef>, laser: &Vec<ChunkRef>, sketch: &Vec<ChunkRef>) -> (r:
    Vec<ChunkRef>)
    ensures
        r@ == dedup_keys(exact@ + laser@ + sketch@),
{
    let first = merge_candidates(exact, laser);
    let r = merge_candidates(&first, sketch);
    proof {
        lemma_dedup_keys_absorb(exact@ + laser@, sketch@);
    }
    r
}

/// Merging is associative up to de-duplication: merging the merge of `a`
/// and `b` with `c` gives the candidates of `a`, `b` and `c` in order, each
/// key once, and no key is lost or repeated.
pub proof fn lemma_merge_associative(a: Seq<ChunkRef>, b: Seq<ChunkRef>, c: Seq<ChunkRef>)
    ensures
        dedup_keys(dedup_keys(a + b) + c) == dedup_keys(a + (b + c)),
        distinct_keys(dedup_keys(a + b + c)),
        forall|k: (Seq<char>, u32, u32)|
            has_key(dedup_keys(a + b + c), k) == has_key(a + b + c, k),
{
    lemma_dedup_keys_absorb(a + b, c);
    assert(a + b + c =~= a + (b + c));
    lemma_dedup_keys_distinct(a + b + c);
    assert forall|k: (Seq<char>, u32, u32)|
        has_key(dedup_keys(a + b + c), k) == has_key(a + b + c, k) by {
        lemma_dedup_keys_same(a + b + c, k);
    }
}

// ---------------------------------------------------------------------
// Decisions between channels.

/// Where the grep route takes its results from.
#[derive(Debug, Clone, Copy, PartialEq, Eq, Structural)]
pub enum GrepRouteSource {
    /// The exact-match channel.
    Exact,
    /// The expanded (laser) lexical channel.
    Laser,
}

/// Literal and quoted queries, and any query with an exact hit, keep the
/// exact channel's results; other queries fall back to the laser channel.
pub open spec fn grep_route_spec(q: Seq<char>, exact_empty: bool) -> GrepRouteSource {
    if literal(q) || quoted(trim(q)) || !exact_empty {
        GrepRouteSource::Exact
    } else {
        GrepRouteSource::Laser
    }
}

/// Source of the grep route's results for `query`, given whether the exact
/// channel found anything.
pub fn grep_route_source(query: &str, exact_empty: bool) -> (r: GrepRouteSource)
    ensures
        r == grep_route_spec(query@, exact_empty),
{
    let t = trim_str(query);
    if is_literal_query(query) || is_quoted_chars(&t) {
        return GrepRouteSource::Exact;
    }
    if !exact_empty {
        GrepRouteSource::Exact
    } else {
        GrepRouteSource::Laser
    }
}

/// What hybrid search does once its lexical and semantic channels ran.
#[derive(Debug, Clone, Copy, PartialEq, Eq, Structural)]
pub enum HybridStep {
    /// Return the semantic results with exact hits pinned.
    SemanticOnly,
    /// Both channels are empty: try the sketch-beam pre-focus first, and
    /// fuse only if it finds nothing.
    TryPrefocus,
    /// Fuse lexical and semantic results, exact hits pinned.
    Fuse,
}

/// The step after the channels: a semantic route with semantic results
/// keeps them alone; two empty channels fall back on pre-focus; otherwise
/// everything is fused.
pub open spec fn hybrid_step_spec(route: Route, lexical_empty: bool, semantic_empty: bool) -> HybridStep {
    if route == Route::Semantic && !semantic_empty {
        HybridStep::SemanticOnly
    } else if lexical_empty && semantic_empty {
        HybridStep::TryPrefocus
    } else {
        HybridStep::Fuse
    }
}

/// The step hybrid search takes after running its channels.
pub fn hybrid_step(route: Route, lexical_empty: bool, semantic_empty: bool) -> (r: HybridStep)
    ensures
        r == hybrid_step_spec(route, lexical_empty, semantic_empty),
{
    if route == Route::Semantic && !semantic_empty {
        HybridStep::SemanticOnly
    } else if lexical_empty && semantic_empty {
        HybridStep::TryPrefocus
    } else {
        HybridStep::Fuse
    }
}

/// How pre-focus search scores its sketch-beam candidates.
#[derive(Debug, Clone, Copy, PartialEq, Eq, Structural)]
pub enum PrefocusStep {
    /// No candidates: the search returns nothing.
    Nothing,
    /// Embed the candidates' cold files just in time and score them.
    JitSemantic,
    /// Score the candidates against the stored index.
    StoredSemantic,
    /// No embedder: rank the candidates in beam order.
    BeamOrder,
}

/// Empty candidates give nothing; without an embedder the beam order
/// stands; with one, an index without stored chunks is embedded just in
/// time when that is enabled, and otherwise the stored vectors are used.
pub open spec fn prefocus_step_spec(
    candidates_empty: bool,
    has_embedder: bool,
    jit_enabled: bool,
    index_has_chunks: bool,
) -> PrefocusStep {
    if candidates_empty {
        PrefocusStep::Nothing
    } else if !has_embedder {
        PrefocusStep::BeamOrder
    } else if jit_enabled && !index_has_chunks {
        PrefocusStep::JitSemantic
    } else {
        PrefocusStep::StoredSemantic
    }
}

/// The way pre-focus search scores its candidates.
pub fn prefocus_step(
    candidates_empty: bool,
    has_embedder: bool,
    jit_enabled: bool,
    index_has_chunks: bool,
) -> (r: PrefocusStep)
    ensures
        r == prefocus_step_spec(candidates_empty, has_embedder, jit_enabled, index_has_chunks),
{
    if candidates_empty {
        PrefocusStep::Nothing
    } else if !has_embedder {
        PrefocusStep::BeamOrder
    } else if jit_enabled && !index_has_chunks {
        PrefocusStep::JitSemantic
    } else {
        PrefocusStep::StoredSemantic
    }
}

} // verus!
