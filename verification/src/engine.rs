//! Engine contracts, grep options, eval modes and embed accounting.
use vstd::prelude::*;
use crate::types::{ChunkRef, GpError, GrepHit};

verus! {

/// Lexical search over files (index-free).
pub trait GrepEngine {
    fn search(&self, pattern: &str, opts: &GrepOptions) -> Result<Vec<GrepHit>, GpError>;
}

/// Shrinks the corpus to candidate chunks via expanded lexical search.
pub trait LaserFocus {
    fn focus(&self, query: &str, cap: usize) -> Result<Vec<ChunkRef>, GpError>;
}

/// Semantic pre-focus used when lexical search finds nothing.
pub trait PreFocus {
    fn sketch_beam(&self, query: &str, beam_width: usize, cap: usize) -> Result<
        Vec<ChunkRef>,
        GpError,
    >;
}

/// Options of a lexical search.
pub struct GrepOptions {
    pub case_insensitive: bool,
    pub fixed_string: bool,
    pub roots: Vec<String>,
    pub include_globs: Vec<String>,
    pub exclude_globs: Vec<String>,
    pub context_lines: usize,
    pub max_results: Option<usize>,
}

impl Default for GrepOptions {
    fn default() -> (r: Self)
        ensures
            !r.case_insensitive,
            !r.fixed_string,
            r.roots@.len() == 0,
            r.include_globs@.len() == 0,
            r.exclude_globs@.len() == 0,
            r.context_lines == 0,
            r.max_results is None,
    {
        GrepOptions {
            case_insensitive: false,
            fixed_string: false,
            roots: Vec::new(),
            include_globs: Vec::new(),
            exclude_globs: Vec::new(),
            context_lines: 0,
            max_results: None,
        }
    }
}

/// Retrieval configurations compared by the eval harness.
#[derive(Debug, Clone, Copy, PartialEq, Eq, Structural)]
pub enum EvalMode {
    /// POSIX/BSD/GNU `grep` subprocess baseline.
    Grep,
    Ripgrep,
    Laser,
    Vector,
    Hybrid,
    /// Sketch shell plus temperature-aware embedding (no warm index needed).
    Jit,
    /// Sketch-beam pre-focus only.
    Prefocus,
    /// Always route to grep.
    FixedGrep,
    /// Always route to hybrid.
    FixedHybrid,
    /// Heuristic router per query.
    RouterHeuristic,
    /// Feature router per query.
    RouterFeature,
    /// Learned router per query.
    RouterLearned,
}

/// Per-query JIT embed accounting (fp32 bytes = chunks × dim × 4).
#[derive(Debug)]
pub struct QueryEmbedStats {
    pub query_id: String,
    pub chunks_embedded: usize,
    pub bytes_embedded: usize,
}

/// Session-level embed accounting.
#[derive(Debug, Clone, Copy, PartialEq, Eq, Structural)]
pub struct EmbedAccounting {
    pub chunks_embedded: usize,
    pub bytes_embedded: usize,
}

/// Embed counter passed through search and JIT reheat.  It is one counter,
/// owned by the caller and lent by `&mut` to each step that records into
/// it; there is no shared handle, so the counts are read from the value the
/// steps were given.
pub struct EmbedStatsCell {
    inner: EmbedAccounting,
}

impl EmbedStatsCell {
    /// The counts accumulated so far.
    pub closed spec fn totals(&self) -> EmbedAccounting {
        self.inner
    }

    /// A counter at zero.
    pub fn new() -> (r: Self)
        ensures
            r.totals().chunks_embedded == 0,
            r.totals().bytes_embedded == 0,
    {
        EmbedStatsCell { inner: EmbedAccounting { chunks_embedded: 0, bytes_embedded: 0 } }
    }

    /// Counts `n` chunks embedded at dimension `dim` (4 bytes per value).
    pub fn record_chunks(&mut self, n: usize, dim: usize)
        requires
            old(self).totals().chunks_embedded + n <= usize::MAX,
            old(self).totals().bytes_embedded + n * dim * 4 <= usize::MAX,
        ensures
            final(self).totals().chunks_embedded == old(self).totals().chunks_embedded + n,
            final(self).totals().bytes_embedded == old(self).totals().bytes_embedded + n * dim
                * 4,
    {
        proof {
            assert(n * dim * 4 >= 0) by (nonlinear_arith);
            assert(n * dim <= n * dim * 4) by (nonlinear_arith);
        }
        let bytes = n * dim * 4;
        self.inner.chunks_embedded = self.inner.chunks_embedded + n;
        self.inner.bytes_embedded = self.inner.bytes_embedded + bytes;
    }

    /// A copy of the current counts.
    pub fn snapshot(&self) -> (r: EmbedAccounting)
        ensures
            r == self.totals(),
    {
        self.inner
    }

    /// Sets both counts back to zero.
    pub fn reset(&mut self)
        ensures
            final(self).totals().chunks_embedded == 0,
            final(self).totals().bytes_embedded == 0,
    {
        self.inner = EmbedAccounting { chunks_embedded: 0, bytes_embedded: 0 };
    }
}

/// Recording batches one after the other counts as recording them together:
/// if `s1` is `s0` after recording `n1` chunks and `s2` is `s1` after
/// recording `n2` chunks (same `dim`), then `s2` is `s0` after recording
/// `n1 + n2` chunks.
pub proof fn lemma_record_additive(
    s0: EmbedAccounting,
    s1: EmbedAccounting,
    s2: EmbedAccounting,
    n1: nat,
    n2: nat,
    dim: nat,
)
    requires
        s1.chunks_embedded == s0.chunks_embedded + n1,
        s1.bytes_embedded == s0.bytes_embedded + n1 * dim * 4,
        s2.chunks_embedded == s1.chunks_embedded + n2,
        s2.bytes_embedded == s1.bytes_embedded + n2 * dim * 4,
    ensures
        s2.chunks_embedded == s0.chunks_embedded + (n1 + n2),
        s2.bytes_embedded == s0.bytes_embedded + (n1 + n2) * dim * 4,
{
    assert((n1 + n2) * dim * 4 == n1 * dim * 4 + n2 * dim * 4) by (nonlinear_arith);
}

} // verus!
