//! Retrieval evaluation: the harness configuration, which search each mode
//! runs, matching results against oracle locations, and the path-picking
//! step of the agent loop.
use vstd::prelude::*;
use crate::config::Config;
use crate::engine::{EvalMode, GrepOptions};
use crate::paths::{path_ends_with, path_suffix_match};
use crate::search::{IndexBuildOptions, SearchOptions};
use crate::text::{
    chars_contain, chars_end_with, chars_of, contains_seq, ends_with_seq, own, split_chars,
    split_pieces, str_eq, string_from_chars, trim, trim_chars,
};
use crate::types::{ChunkRef, GpError, Route};

verus! {

/// Where a query's answer lives.
#[derive(Debug)]
pub struct OracleLocation {
    pub file: String,
    pub start_line: u32,
    pub end_line: u32,
}

impl Clone for OracleLocation {
    fn clone(&self) -> (r: Self)
        ensures
            r == *self,
    {
        OracleLocation { file: self.file.clone(), start_line: self.start_line, end_line: self.end_line }
    }
}

/// One query of an eval suite.
#[derive(Debug)]
pub struct EvalQuery {
    pub id: String,
    pub query: String,
    pub category: String,
    pub oracles: Vec<OracleLocation>,
}

/// Runs a query suite over a corpus.
pub struct AgentCodeHarness {
    pub corpus: String,
    pub queries_path: String,
    pub config: Option<Config>,
    /// Build an index before the first query when none exists.
    pub ensure_index: bool,
    /// Build it warm (all chunks embedded) rather than as a sketch shell.
    pub warm_index: bool,
    /// Purge and rebuild the index before each compared mode.
    pub isolate_modes: bool,
    /// Download the model when it is missing.
    pub yes_download: bool,
}

impl AgentCodeHarness {
    /// A harness over `corpus` with the queries at `queries_path`, no
    /// configuration and every option off.
    pub fn new(corpus: &str, queries_path: &str) -> (r: Self)
        ensures
            r.corpus@ == corpus@,
            r.queries_path@ == queries_path@,
            r.config is None,
            !r.ensure_index && !r.warm_index && !r.isolate_modes && !r.yes_download,
    {
        AgentCodeHarness {
            corpus: own(corpus),
            queries_path: own(queries_path),
            config: None,
            ensure_index: false,
            warm_index: false,
            isolate_modes: false,
            yes_download: false,
        }
    }

    /// The harness with `cfg` as its configuration.
    pub fn with_config(self, cfg: Config) -> (r: Self)
        ensures
            r.config == Some(cfg),
            r.corpus == self.corpus && r.queries_path == self.queries_path,
            r.ensure_index == self.ensure_index && r.warm_index == self.warm_index,
            r.isolate_modes == self.isolate_modes && r.yes_download == self.yes_download,
    {
        let mut h = self;
        h.config = Some(cfg);
        h
    }

    /// The harness with `ensure_index` set to `yes`.
    pub fn ensure_index(self, yes: bool) -> (r: Self)
        ensures
            r.ensure_index == yes,
            r.config == self.config && r.corpus == self.corpus && r.queries_path == self.queries_path,
            r.warm_index == self.warm_index && r.isolate_modes == self.isolate_modes,
            r.yes_download == self.yes_download,
    {
        let mut h = self;
        h.ensure_index = yes;
        h
    }

    /// The harness with `warm_index` set to `yes`.
    pub fn warm_index(self, yes: bool) -> (r: Self)
        ensures
            r.warm_index == yes,
            r.config == self.config && r.corpus == self.corpus && r.queries_path == self.queries_path,
            r.ensure_index == self.ensure_index && r.isolate_modes == self.isolate_modes,
            r.yes_download == self.yes_download,
    {
        let mut h = self;
        h.warm_index = yes;
        h
    }

    /// The harness with `isolate_modes` set to `yes`.
    pub fn isolate_modes(self, yes: bool) -> (r: Self)
        ensures
            r.isolate_modes == yes,
            r.config == self.config && r.corpus == self.corpus && r.queries_path == self.queries_path,
            r.ensure_index == self.ensure_index && r.warm_index == self.warm_index,
            r.yes_download == self.yes_download,
    {
        let mut h = self;
        h.isolate_modes = yes;
        h
    }

    /// The harness that downloads a missing model when `yes`.
    pub fn ensure_model(self, yes: bool) -> (r: Self)
        ensures
            r.yes_download == yes,
            r.config == self.config && r.corpus == self.corpus && r.queries_path == self.queries_path,
            r.ensure_index == self.ensure_index && r.warm_index == self.warm_index,
            r.isolate_modes == self.isolate_modes,
    {
        let mut h = self;
        h.yes_download = yes;
        h
    }

    /// Options of the baseline grep searches: the whole corpus, at most a
    /// hundred hits.
    pub fn grep_options(&self) -> (r: GrepOptions)
        ensures
            r.roots@.len() == 1 && r.roots@[0]@ == self.corpus@,
            r.max_results == Some(100usize),
            !r.case_insensitive && !r.fixed_string,
            r.include_globs@.len() == 0 && r.exclude_globs@.len() == 0 && r.context_lines == 0,
    {
        let mut roots: Vec<String> = Vec::new();
        roots.push(self.corpus.clone());
        GrepOptions {
            case_insensitive: false,
            fixed_string: false,
            roots,
            include_globs: Vec::new(),
            exclude_globs: Vec::new(),
            context_lines: 0,
            max_results: Some(100),
        }
    }

    /// The index to build before the queries run, if any: with a
    /// configuration, `ensure_index` set, a model available and no index
    /// yet, a warm or sketch-only build of the configured model.
    pub fn index_build(&self, embedder_available: bool, index_exists: bool) -> (r: Option<
        IndexBuildOptions,
    >)
        ensures
            r is Some <==> (self.config is Some && self.ensure_index && embedder_available
                && !index_exists),
            r matches Some(o) ==> {
                let cfg = self.config->0;
                &&& o.model_id@ == cfg.embedder.active@
                &&& o.dim == cfg.embedder.dim
                &&& o.projection@ == cfg.index.projection@
                &&& o.sketch_only == !self.warm_index
            },
    {
        match &self.config {
            None => None,
            Some(cfg) => {
                if self.ensure_index && embedder_available && !index_exists {
                    Some(
                        IndexBuildOptions {
                            model_id: cfg.embedder.active.clone(),
                            dim: cfg.embedder.dim,
                            projection: cfg.index.projection.clone(),
                            sketch_only: !self.warm_index,
                        },
                    )
                } else {
                    None
                }
            },
        }
    }
}

/// Label of an eval mode in reports.
pub open spec fn mode_label(mode: EvalMode) -> Seq<char> {
    match mode {
        EvalMode::Grep => "grep"@,
        EvalMode::Ripgrep => "ripgrep"@,
        EvalMode::Laser => "laser"@,
        EvalMode::Vector => "vector"@,
        EvalMode::Hybrid => "hybrid"@,
        EvalMode::Jit => "jit"@,
        EvalMode::Prefocus => "prefocus"@,
        EvalMode::FixedGrep => "fixed-grep"@,
        EvalMode::FixedHybrid => "fixed-hybrid"@,
        EvalMode::RouterHeuristic => "router-heuristic"@,
        EvalMode::RouterFeature => "router-feature"@,
        EvalMode::RouterLearned => "router-learned"@,
    }
}

/// Label of an eval mode in reports.
pub fn eval_mode_label(mode: EvalMode) -> (r: &'static str)
    ensures
        r@ == mode_label(mode),
{
    match mode {
        EvalMode::Grep => "grep",
        EvalMode::Ripgrep => "ripgrep",
        EvalMode::Laser => "laser",
        EvalMode::Vector => "vector",
        EvalMode::Hybrid => "hybrid",
        EvalMode::Jit => "jit",
        EvalMode::Prefocus => "prefocus",
        EvalMode::FixedGrep => "fixed-grep",
        EvalMode::FixedHybrid => "fixed-hybrid",
        EvalMode::RouterHeuristic => "router-heuristic",
        EvalMode::RouterFeature => "router-feature",
        EvalMode::RouterLearned => "router-learned",
    }
}

/// The modes the corpus harness runs queries for.
pub open spec fn harness_mode(mode: EvalMode) -> bool {
    mode is Grep || mode is Ripgrep || mode is Laser || mode is Vector || mode is Hybrid
        || mode is Jit
}

/// The search a harness runs for one query.
pub enum SearchPlan {
    /// The external `grep` binary over the corpus.
    UnixGrep,
    /// The external `rg` binary over the corpus.
    Ripgrep,
    /// The laser channel alone.
    Laser,
    /// The in-process parallel scanner.
    ParallelGrep,
    /// Hybrid search with these options.
    Hybrid(SearchOptions),
}

/// Route of a configured mode.
pub open spec fn mode_route(mode: EvalMode) -> Route {
    match mode {
        EvalMode::Laser => Route::Grep,
        EvalMode::Hybrid => Route::Hybrid,
        _ => Route::Semantic,
    }
}

impl AgentCodeHarness {
    /// The search `mode` runs: the grep baselines whatever the
    /// configuration; without one, the laser channel or the parallel
    /// scanner; with one, hybrid search on the mode's route, JIT embedding
    /// forced on for `jit` and off for other modes over a warm index.
    pub fn search_plan(&self, mode: EvalMode) -> (r: SearchPlan)
        requires
            harness_mode(mode),
        ensures
            mode is Ripgrep ==> r is Ripgrep,
            mode is Grep ==> r is UnixGrep,
            !(mode is Ripgrep || mode is Grep) && self.config is None ==> (if mode is Laser {
                r is Laser
            } else {
                r is ParallelGrep
            }),
            !(mode is Ripgrep || mode is Grep) && self.config is Some ==> (r matches SearchPlan::Hybrid(
                o,
            ) && {
                let cfg = self.config->0;
                &&& o.route == mode_route(mode)
                &&& o.laser_cap == cfg.search.laser_candidate_cap
                &&& o.sketch_beam == cfg.search.sketch_beam_width
                &&& o.top_k == crate::search::DEFAULT_TOP_K
                &&& o.dim == cfg.embedder.dim
                &&& o.projection@ == cfg.index.projection@
                &&& o.jit_enabled == (if mode is Jit {
                    true
                } else if self.warm_index {
                    false
                } else {
                    cfg.search.jit_enabled
                })
                &&& o.jit_embed_budget == cfg.search.jit_embed_budget
                &&& o.jit_reheat_file_cap == cfg.search.jit_reheat_file_cap
                &&& o.jit_cold_first_file_cap == cfg.search.jit_cold_first_file_cap
                &&& o.jit_cold_first_embed_budget == cfg.search.jit_cold_first_embed_budget
                &&& o.model_id@ == cfg.embedder.active@
                &&& o.grep_backend@ == cfg.grep.backend@
            }),
    {
        match mode {
            EvalMode::Ripgrep => return SearchPlan::Ripgrep,
            EvalMode::Grep => return SearchPlan::UnixGrep,
            _ => {},
        }
        match &self.config {
            None => {
                if mode == EvalMode::Laser {
                    SearchPlan::Laser
                } else {
                    SearchPlan::ParallelGrep
                }
            },
            Some(cfg) => {
                let route = match mode {
                    EvalMode::Laser => Route::Grep,
                    EvalMode::Hybrid => Route::Hybrid,
                    _ => Route::Semantic,
                };
                let mut opts = SearchOptions::from_config(cfg, route);
                if self.warm_index && mode != EvalMode::Jit {
                    opts.jit_enabled = false;
                }
                if mode == EvalMode::Jit {
                    opts.jit_enabled = true;
                }
                SearchPlan::Hybrid(opts)
            },
        }
    }
}

// ---------------------------------------------------------------------
// Matching results against oracles.

/// A result matches an oracle when its path ends with the oracle's file
/// (component-wise) and their line ranges overlap.
pub open spec fn oracle_match(r: ChunkRef, o: OracleLocation) -> bool {
    &&& path_ends_with(r.file@, o.file@)
    &&& r.start_line <= o.end_line
    &&& r.end_line >= o.start_line
}

/// One of the first `k` results matches `o`.
pub open spec fn oracle_found(results: Seq<ChunkRef>, o: OracleLocation, k: nat) -> bool {
    exists|i: int| 0 <= i < results.len() && i < k && oracle_match(#[trigger] results[i], o)
}

/// How many of `oracles` one of the first `k` results matches.
pub open spec fn found_count(results: Seq<ChunkRef>, oracles: Seq<OracleLocation>, k: nat) -> nat
    decreases oracles.len(),
{
    if oracles.len() == 0 {
        0
    } else {
        found_count(results, oracles.drop_last(), k) + if oracle_found(results, oracles.last(), k) {
            1nat
        } else {
            0nat
        }
    }
}

/// `r` matches one of `oracles`.
pub open spec fn matches_any(r: ChunkRef, oracles: Seq<OracleLocation>) -> bool {
    exists|j: int| 0 <= j < oracles.len() && oracle_match(r, #[trigger] oracles[j])
}

/// Rank (from zero) of the first result that matches an oracle.
pub open spec fn first_rank(results: Seq<ChunkRef>, oracles: Seq<OracleLocation>) -> Option<nat>
    decreases results.len(),
{
    if results.len() == 0 {
        None
    } else {
        match first_rank(results.drop_last(), oracles) {
            Some(i) => Some(i),
            None => if matches_any(results.last(), oracles) {
                Some((results.len() - 1) as nat)
            } else {
                None
            },
        }
    }
}

fn matches_oracle(r: &ChunkRef, o: &OracleLocation) -> (b: bool)
    ensures
        b == oracle_match(*r, *o),
{
    r.start_line <= o.end_line && r.end_line >= o.start_line && path_suffix_match(
        r.file.as_str(),
        o.file.as_str(),
    )
}

/// Number of oracles matched within the first `k` results (the numerator
/// of recall@k).
pub fn oracle_hits(results: &Vec<ChunkRef>, oracles: &Vec<OracleLocation>, k: usize) -> (r: usize)
    ensures
        r == found_count(results@, oracles@, k as nat),
        r <= oracles.len(),
{
    let top = if k < results.len() {
        k
    } else {
        results.len()
    };
    let mut count: usize = 0;
    let mut j: usize = 0;
    while j < oracles.len()
        invariant
            j <= oracles.len(),
            top <= results.len(),
            top == if (k as int) < results.len() {
                k as int
            } else {
                results.len() as int
            },
            count == found_count(results@, oracles@.take(j as int), k as nat),
            count <= j,
        decreases oracles.len() - j,
    {
        assert(oracles@.take(j + 1).drop_last() =~= oracles@.take(j as int));
        assert(oracles@.take(j + 1).last() == oracles@[j as int]);
        let o = &oracles[j];
        let mut found = false;
        let mut i: usize = 0;
        while i < top && !found
            invariant
                i <= top,
                top <= results.len(),
                top == if (k as int) < results.len() {
                    k as int
                } else {
                    results.len() as int
                },
                found ==> oracle_found(results@, *o, k as nat),
                !found ==> forall|q: int| 0 <= q < i ==> !oracle_match(#[trigger] results@[q], *o),
            decreases top - i,
        {
            if matches_oracle(&results[i], o) {
                found = true;
            }
            i += 1;
        }
        if found {
            count += 1;
        }
        j += 1;
    }
    assert(oracles@.take(oracles.len() as int) =~= oracles@);
    count
}

/// Rank of the first result matching any oracle (what reciprocal rank is
/// computed from); `None` when no result matches.
pub fn first_hit_rank(results: &Vec<ChunkRef>, oracles: &Vec<OracleLocation>) -> (r: Option<usize>)
    ensures
        match first_rank(results@, oracles@) {
            Some(i) => r == Some(i as usize),
            None => r is None,
        },
{
    let mut rank: usize = 0;
    while rank < results.len()
        invariant
            rank <= results.len(),
            first_rank(results@.take(rank as int), oracles@) is None,
        decreases results.len() - rank,
    {
        assert(results@.take(rank + 1).drop_last() =~= results@.take(rank as int));
        assert(results@.take(rank + 1).last() == results@[rank as int]);
        let r = &results[rank];
        let mut j: usize = 0;
        let mut hit = false;
        while j < oracles.len() && !hit
            invariant
                j <= oracles.len(),
                hit ==> matches_any(*r, oracles@),
                !hit ==> forall|q: int| 0 <= q < j ==> !oracle_match(*r, #[trigger] oracles@[q]),
            decreases oracles.len() - j,
        {
            if matches_oracle(r, &oracles[j]) {
                hit = true;
            }
            j += 1;
        }
        if hit {
            proof {
                lemma_first_rank_extends(results@, oracles@, rank as int);
            }
            return Some(rank);
        }
        rank += 1;
    }
    assert(results@.take(results.len() as int) =~= results@);
    None
}

proof fn lemma_first_rank_extends(results: Seq<ChunkRef>, oracles: Seq<OracleLocation>, n: int)
    requires
        0 <= n < results.len(),
        first_rank(results.take(n), oracles) is None,
        matches_any(results[n], oracles),
    ensures
        first_rank(results, oracles) == Some(n as nat),
{
    assert(results.take(n + 1).drop_last() =~= results.take(n));
    assert(results.take(n + 1).last() == results[n]);
    lemma_first_rank_stable(results, oracles, n + 1);
}

proof fn lemma_first_rank_stable(results: Seq<ChunkRef>, oracles: Seq<OracleLocation>, m: int)
    requires
        0 < m <= results.len(),
        first_rank(results.take(m), oracles) is Some,
    ensures
        first_rank(results, oracles) == first_rank(results.take(m), oracles),
    decreases results.len() - m,
{
    if m < results.len() {
        assert(results.take(m + 1).drop_last() =~= results.take(m));
        lemma_first_rank_stable(results, oracles, m + 1);
    } else {
        assert(results.take(m) =~= results);
    }
}

// ---------------------------------------------------------------------
// The agent loop.

/// The file a result points at.
pub fn hit_file(hit: &ChunkRef) -> (r: String)
    ensures
        r@ == hit.file@,
{
    hit.file.clone()
}

/// `picked` and `oracle` name the same file: either ends with the other,
/// or `picked` contains `oracle`.
pub open spec fn path_match_spec(picked: Seq<char>, oracle: Seq<char>) -> bool {
    ends_with_seq(picked, oracle) || ends_with_seq(oracle, picked) || contains_seq(picked, oracle)
}

/// Whether the agent's pick names the oracle file.
pub fn path_matches(picked: &str, oracle: &str) -> (r: bool)
    ensures
        r == path_match_spec(picked@, oracle@),
{
    let p = chars_of(picked);
    let o = chars_of(oracle);
    chars_end_with(&p, &o) || chars_end_with(&o, &p) || chars_contain(&p, &o)
}

/// Index of the first of `files` that `t` contains.
pub open spec fn first_contained(t: Seq<char>, files: Seq<Seq<char>>) -> Option<int>
    decreases files.len(),
{
    if files.len() == 0 {
        None
    } else {
        match first_contained(t, files.drop_last()) {
            Some(i) => Some(i),
            None => if contains_seq(t, files.last()) {
                Some(files.len() - 1)
            } else {
                None
            },
        }
    }
}

/// `t` up to its first line break.
pub open spec fn first_piece(t: Seq<char>) -> Seq<char> {
    split_pieces(t, '\n')[0]
}

/// The path an answer names: the first result file the (trimmed) answer
/// contains, else its first line when that looks like a path (holds a `/`
/// or ends in `.rs` or `.ts`).
pub open spec fn extract_path_spec(answer: Seq<char>, files: Seq<Seq<char>>) -> Option<Seq<char>> {
    let t = trim(answer);
    match first_contained(t, files) {
        Some(i) => Some(files[i]),
        None => if t.len() == 0 {
            None
        } else {
            let line = trim(first_piece(t));
            if contains_seq(line, seq!['/']) || ends_with_seq(line, ".rs"@) || ends_with_seq(
                line,
                ".ts"@,
            ) {
                Some(line)
            } else {
                None
            }
        },
    }
}

/// Views of a vector of strings.
pub open spec fn file_views(v: Seq<String>) -> Seq<Seq<char>> {
    v.map_values(|s: String| s@)
}

/// The path an agent's answer names, given the result files shown to it.
pub fn extract_path_from_answer(answer: &str, hit_files: &Vec<String>) -> (r: Option<String>)
    ensures
        match extract_path_spec(answer@, file_views(hit_files@)) {
            Some(p) => r matches Some(s) && s@ == p,
            None => r is None,
        },
{
    let ac = chars_of(answer);
    let t = trim_chars(&ac);
    let ghost files = file_views(hit_files@);
    let mut i: usize = 0;
    while i < hit_files.len()
        invariant
            i <= hit_files.len(),
            t@ == trim(answer@),
            files == file_views(hit_files@),
            first_contained(t@, files.take(i as int)) is None,
        decreases hit_files.len() - i,
    {
        assert(files.take(i + 1).drop_last() =~= files.take(i as int));
        assert(files.take(i + 1).last() == hit_files@[i as int]@);
        let f = chars_of(hit_files[i].as_str());
        if chars_contain(&t, &f) {
            proof {
                lemma_first_contained_extends(t@, files, i as int);
            }
            return Some(hit_files[i].clone());
        }
        i += 1;
    }
    assert(files.take(hit_files.len() as int) =~= files);
    if t.len() == 0 {
        return None;
    }
    let parts = split_chars(&t, '\n');
    assert(split_pieces(t@, '\n').len() > 0);
    assert(parts@.map_values(|x: Vec<char>| x@).len() == parts.len());
    assert(parts@.map_values(|x: Vec<char>| x@)[0] == parts@[0]@);
    let line = trim_chars(&parts[0]);
    let slash = chars_of("/");
    let rs = chars_of(".rs");
    let ts = chars_of(".ts");
    assert(slash@ =~= seq!['/']) by {
        reveal_strlit("/");
    }
    if chars_contain(&line, &slash) || chars_end_with(&line, &rs) || chars_end_with(&line, &ts) {
        Some(string_from_chars(&line))
    } else {
        None
    }
}

proof fn lemma_first_contained_extends(t: Seq<char>, files: Seq<Seq<char>>, n: int)
    requires
        0 <= n < files.len(),
        first_contained(t, files.take(n)) is None,
        contains_seq(t, files[n]),
    ensures
        first_contained(t, files) == Some(n),
    decreases files.len() - n,
{
    assert(files.take(n + 1).drop_last() =~= files.take(n));
    assert(files.take(n + 1).last() == files[n]);
    lemma_first_contained_stable(t, files, n + 1);
}

proof fn lemma_first_contained_stable(t: Seq<char>, files: Seq<Seq<char>>, m: int)
    requires
        0 < m <= files.len(),
        first_contained(t, files.take(m)) is Some,
    ensures
        first_contained(t, files) == first_contained(t, files.take(m)),
    decreases files.len() - m,
{
    if m < files.len() {
        assert(files.take(m + 1).drop_last() =~= files.take(m));
        lemma_first_contained_stable(t, files, m + 1);
    } else {
        assert(files.take(m) =~= files);
    }
}

/// The path the agent picks: none without results; the first result's
/// file under the mock agent or when the model named nothing usable;
/// otherwise what the model named (`llm_pick`).
pub fn agent_pick_path(hit_files: &Vec<String>, mock: bool, llm_pick: Option<String>) -> (r: Option<
    String,
>)
    ensures
        hit_files.len() == 0 ==> r is None,
        hit_files.len() > 0 && mock ==> r == Some(hit_files@[0]),
        hit_files.len() > 0 && !mock ==> r == (match llm_pick {
            Some(p) => Some(p),
            None => Some(hit_files@[0]),
        }),
{
    if hit_files.len() == 0 {
        return None;
    }
    if mock {
        return Some(hit_files[0].clone());
    }
    match llm_pick {
        Some(p) => Some(p),
        None => Some(hit_files[0].clone()),
    }
}

/// Whether the agent picked one of the oracle files.
pub fn task_success(picked: &Option<String>, oracle_files: &Vec<String>) -> (r: bool)
    ensures
        r == (picked matches Some(p) && exists|i: int|
            0 <= i < oracle_files.len() && path_match_spec(p@, #[trigger] oracle_files@[i]@)),
{
    match picked {
        None => false,
        Some(p) => {
            let mut i: usize = 0;
            while i < oracle_files.len()
                invariant
                    i <= oracle_files.len(),
                    *picked == Some(*p),
                    forall|q: int| 0 <= q < i ==> !path_match_spec(p@, #[trigger] oracle_files@[q]@),
                decreases oracle_files.len() - i,
            {
                if path_matches(p.as_str(), oracle_files[i].as_str()) {
                    assert(path_match_spec(p@, oracle_files@[i as int]@));
                    return true;
                }
                i += 1;
            }
            false
        },
    }
}

/// The search route a retriever asks the server for.
pub fn retriever_route(retriever: &str) -> (r: Result<&'static str, GpError>)
    ensures
        retriever@ == "grep"@ ==> (r matches Ok(s) && s@ == "grep"@),
        retriever@ == "hybrid"@ ==> (r matches Ok(s) && s@ == "hybrid"@),
        retriever@ != "grep"@ && retriever@ != "hybrid"@ ==> (r matches Err(GpError::Config(m))
            && m@ == "unknown retriever: "@ + retriever@),
{
    if str_eq(retriever, "grep") {
        Ok("grep")
    } else if str_eq(retriever, "hybrid") {
        Ok("hybrid")
    } else {
        let mut m = String::from_str("unknown retriever: ");
        m.append(retriever);
        Err(GpError::Config(m))
    }
}

/// The retrievers of a comma-separated list, trimmed, empty ones left out.
pub open spec fn retriever_names(pieces: Seq<Seq<char>>) -> Seq<Seq<char>>
    decreases pieces.len(),
{
    if pieces.len() == 0 {
        Seq::empty()
    } else if trim(pieces.last()).len() > 0 {
        retriever_names(pieces.drop_last()).push(trim(pieces.last()))
    } else {
        retriever_names(pieces.drop_last())
    }
}

/// The retrievers named in `list` (`a, b,,c` names `a`, `b` and `c`).
pub fn parse_retrievers(list: &str) -> (r: Vec<String>)
    ensures
        file_views(r@) == retriever_names(split_pieces(list@, ',')),
{
    let cs = chars_of(list);
    let parts = split_chars(&cs, ',');
    let ghost ps = parts@.map_values(|x: Vec<char>| x@);
    let mut out: Vec<String> = Vec::new();
    let mut i: usize = 0;
    while i < parts.len()
        invariant
            i <= parts.len(),
            ps == parts@.map_values(|x: Vec<char>| x@),
            file_views(out@) == retriever_names(ps.take(i as int)),
        decreases parts.len() - i,
    {
        assert(ps.take(i + 1).drop_last() =~= ps.take(i as int));
        assert(ps.take(i + 1).last() == parts@[i as int]@);
        let t = trim_chars(&parts[i]);
        if t.len() > 0 {
            let ghost before = file_views(out@);
            out.push(string_from_chars(&t));
            assert(file_views(out@) =~= before.push(t@));
        }
        i += 1;
    }
    assert(ps.take(parts.len() as int) =~= ps);
    out
}

/// The server command the agent eval starts when none answers: the binary
/// from `$GREPPLUS_BIN` (`bin_env`) or `grepplus`, serving on `addr`
/// without config reloads, with the index and download options asked for.
pub open spec fn serve_args_spec(addr: Seq<char>, ensure_index: bool, warm_index: bool, yes_download: bool) -> Seq<
    Seq<char>,
> {
    seq!["serve"@, "--bind"@, addr, "--no-reload-config"@] + (if ensure_index {
        seq!["--ensure-index"@]
    } else {
        Seq::empty()
    }) + (if warm_index {
        seq!["--warm-index"@]
    } else {
        Seq::empty()
    }) + (if yes_download {
        seq!["--yes-download"@]
    } else {
        Seq::empty()
    })
}

fn push_arg(v: &mut Vec<String>, s: &str)
    ensures
        file_views(final(v)@) == file_views(old(v)@).push(s@),
{
    let ghost before = file_views(v@);
    v.push(own(s));
    assert(file_views(v@) =~= before.push(s@));
}

/// Binary and arguments of the server the agent eval starts.
pub fn serve_command(
    bin_env: Option<String>,
    addr: &str,
    ensure_index: bool,
    warm_index: bool,
    yes_download: bool,
) -> (r: (String, Vec<String>))
    ensures
        r.0@ == (match bin_env {
            Some(b) => b@,
            None => "grepplus"@,
        }),
        file_views(r.1@) == serve_args_spec(addr@, ensure_index, warm_index, yes_download),
{
    let bin = match bin_env {
        Some(b) => b,
        None => String::from_str("grepplus"),
    };
    let mut args: Vec<String> = Vec::new();
    push_arg(&mut args, "serve");
    push_arg(&mut args, "--bind");
    push_arg(&mut args, addr);
    push_arg(&mut args, "--no-reload-config");
    let ghost a0 = file_views(args@);
    if ensure_index {
        push_arg(&mut args, "--ensure-index");
    }
    let ghost a1 = file_views(args@);
    if warm_index {
        push_arg(&mut args, "--warm-index");
    }
    let ghost a2 = file_views(args@);
    if yes_download {
        push_arg(&mut args, "--yes-download");
    }
    assert(file_views(args@) =~= serve_args_spec(addr@, ensure_index, warm_index, yes_download));
    (bin, args)
}

/// The route a query's oracle calls for, from how many of its oracles the
/// laser and hybrid runs found: grep when the laser run found one, hybrid
/// when only the hybrid run did, pre-focus when neither did.
pub fn oracle_route(laser_hits: usize, hybrid_hits: usize) -> (r: Route)
    ensures
        laser_hits > 0 ==> r == Route::Grep,
        laser_hits == 0 && hybrid_hits > 0 ==> r == Route::Hybrid,
        laser_hits == 0 && hybrid_hits == 0 ==> r == Route::Prefocus,
{
    if laser_hits > 0 {
        Route::Grep
    } else if hybrid_hits > 0 {
        Route::Hybrid
    } else {
        Route::Prefocus
    }
}

} // verus!
