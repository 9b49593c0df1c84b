//! Settings the search, routing and model code read.
use vstd::prelude::*;

verus! {

/// Router selection: `mode` is `heuristic`, `feature` or `learned`.
pub struct RouterConfig {
    pub mode: String,
    /// Learned router weights; relative paths live under the config dir.
    pub model_path: String,
}

/// Active embedding model and the dimension kept after truncation.
pub struct EmbedderConfig {
    pub active: String,
    pub dim: usize,
    pub query_instruct: String,
}

/// Candidate caps and JIT embedding budgets.
pub struct SearchConfig {
    pub laser_candidate_cap: usize,
    pub sketch_beam_width: usize,
    pub jit_enabled: bool,
    pub jit_embed_budget: usize,
    pub jit_reheat_file_cap: usize,
    pub jit_cold_first_file_cap: usize,
    pub jit_cold_first_embed_budget: usize,
}

/// Projection stored in the index (`baseline`, `pca` or `pq4`).
pub struct IndexConfig {
    pub projection: String,
}

/// Lexical backend: `parallel`, `ripgrep` or `auto`.
pub struct GrepCfg {
    pub backend: String,
}

/// All settings.
pub struct Config {
    pub router: RouterConfig,
    pub embedder: EmbedderConfig,
    pub search: SearchConfig,
    pub index: IndexConfig,
    pub grep: GrepCfg,
}

impl Clone for RouterConfig {
    fn clone(&self) -> (r: Self)
        ensures
            r == *self,
    {
        RouterConfig { mode: self.mode.clone(), model_path: self.model_path.clone() }
    }
}

impl Clone for EmbedderConfig {
    fn clone(&self) -> (r: Self)
        ensures
            r == *self,
    {
        EmbedderConfig {
            active: self.active.clone(),
            dim: self.dim,
            query_instruct: self.query_instruct.clone(),
        }
    }
}

impl Clone for SearchConfig {
    fn clone(&self) -> (r: Self)
        ensures
            r == *self,
    {
        SearchConfig {
            laser_candidate_cap: self.laser_candidate_cap,
            sketch_beam_width: self.sketch_beam_width,
            jit_enabled: self.jit_enabled,
            jit_embed_budget: self.jit_embed_budget,
            jit_reheat_file_cap: self.jit_reheat_file_cap,
            jit_cold_first_file_cap: self.jit_cold_first_file_cap,
            jit_cold_first_embed_budget: self.jit_cold_first_embed_budget,
        }
    }
}

impl Clone for Config {
    fn clone(&self) -> (r: Self)
        ensures
            r == *self,
    {
        Config {
            router: self.router.clone(),
            embedder: self.embedder.clone(),
            search: self.search.clone(),
            index: IndexConfig { projection: self.index.projection.clone() },
            grep: GrepCfg { backend: self.grep.backend.clone() },
        }
    }
}

impl Default for Config {
    fn default() -> (r: Self)
        ensures
            r.router.mode@ == "heuristic"@,
            r.router.model_path@ == "router/model.json"@,
            r.embedder.active@ == "qwen3-embedding-0.6b"@,
            r.embedder.dim == 256,
            r.embedder.query_instruct@ == "Given a code search query, retrieve relevant source passages"@,
            r.search.laser_candidate_cap == 500,
            r.search.sketch_beam_width == 50,
            r.search.jit_enabled,
            r.search.jit_embed_budget == 64,
            r.search.jit_reheat_file_cap == 16,
            r.search.jit_cold_first_file_cap == 6,
            r.search.jit_cold_first_embed_budget == 18,
            r.index.projection@ == "baseline"@,
            r.grep.backend@ == "parallel"@,
    {
        Config {
            router: RouterConfig {
                mode: String::from_str("heuristic"),
                model_path: String::from_str("router/model.json"),
            },
            embedder: EmbedderConfig {
                active: String::from_str("qwen3-embedding-0.6b"),
                dim: 256,
                query_instruct: String::from_str(
                    "Given a code search query, retrieve relevant source passages",
                ),
            },
            search: SearchConfig {
                laser_candidate_cap: 500,
                sketch_beam_width: 50,
                jit_enabled: true,
                jit_embed_budget: 64,
                jit_reheat_file_cap: 16,
                jit_cold_first_file_cap: 6,
                jit_cold_first_embed_budget: 18,
            },
            index: IndexConfig { projection: String::from_str("baseline") },
            grep: GrepCfg { backend: String::from_str("parallel") },
        }
    }
}

} // verus!
