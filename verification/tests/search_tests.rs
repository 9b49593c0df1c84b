use grepplus::config::Config;
use grepplus::search::{
    gather_candidates, grep_route_source, hybrid_step, merge_candidates, prefocus_step, GrepRouteSource,
    HybridStep, PrefocusStep, SearchOptions, DEFAULT_TOP_K,
};
use grepplus::types::{ChunkRef, Route};

fn chunk(file: &str, start: u32, end: u32, id: u32) -> ChunkRef {
    ChunkRef {
        file: file.to_string(),
        chunk_id: id,
        start_line: start,
        end_line: end,
        byte_start: 0,
        byte_end: 10,
    }
}

#[test]
fn merge_keeps_first_of_each_key() {
    let a = vec![chunk("a.rs", 1, 5, 1), chunk("b.rs", 1, 5, 2), chunk("a.rs", 1, 5, 3)];
    let b = vec![chunk("b.rs", 1, 5, 4), chunk("c.rs", 2, 3, 5)];
    let m = merge_candidates(&a, &b);
    let ids: Vec<u32> = m.iter().map(|c| c.chunk_id).collect();
    assert_eq!(ids, vec![1, 2, 5]);
}

#[test]
fn gather_is_merge_of_three_channels() {
    let exact = vec![chunk("a.rs", 1, 1, 1)];
    let laser = vec![chunk("a.rs", 1, 1, 2), chunk("a.rs", 2, 2, 3)];
    let sketch = vec![chunk("a.rs", 2, 2, 4), chunk("z.rs", 1, 9, 5)];
    let g = gather_candidates(&exact, &laser, &sketch);
    let ids: Vec<u32> = g.iter().map(|c| c.chunk_id).collect();
    assert_eq!(ids, vec![1, 3, 5]);
    let nested = merge_candidates(&merge_candidates(&exact, &laser), &sketch);
    let alt = merge_candidates(&exact, &merge_candidates(&laser, &sketch));
    assert_eq!(
        nested.iter().map(|c| c.chunk_id).collect::<Vec<_>>(),
        alt.iter().map(|c| c.chunk_id).collect::<Vec<_>>()
    );
}

#[test]
fn grep_route_prefers_exact_channel() {
    assert_eq!(grep_route_source("handleSessionRefresh", true), GrepRouteSource::Exact);
    assert_eq!(grep_route_source("'retry logic'", true), GrepRouteSource::Exact);
    assert_eq!(grep_route_source("retry logic", false), GrepRouteSource::Exact);
    assert_eq!(grep_route_source("retry logic", true), GrepRouteSource::Laser);
}

#[test]
fn hybrid_steps() {
    assert_eq!(hybrid_step(Route::Semantic, true, false), HybridStep::SemanticOnly);
    assert_eq!(hybrid_step(Route::Hybrid, true, true), HybridStep::TryPrefocus);
    assert_eq!(hybrid_step(Route::Semantic, true, true), HybridStep::TryPrefocus);
    assert_eq!(hybrid_step(Route::Hybrid, false, false), HybridStep::Fuse);
}

#[test]
fn search_options_from_default_config() {
    let cfg = Config::default();
    let o = SearchOptions::from_config(&cfg, Route::Hybrid);
    assert_eq!(o.route, Route::Hybrid);
    assert_eq!(o.top_k, DEFAULT_TOP_K);
    assert_eq!(o.top_k, 20);
    assert_eq!(o.laser_cap, 500);
    assert_eq!(o.sketch_beam, 50);
    assert_eq!(o.jit_embed_budget, 64);
    assert_eq!(o.dim, 256);
    assert_eq!(o.model_id, "qwen3-embedding-0.6b");
    assert_eq!(o.grep_backend, "parallel");
    assert_eq!(o.projection, "baseline");
}

#[test]
fn prefocus_steps() {
    assert_eq!(prefocus_step(true, true, true, false), PrefocusStep::Nothing);
    assert_eq!(prefocus_step(false, false, true, false), PrefocusStep::BeamOrder);
    assert_eq!(prefocus_step(false, true, true, false), PrefocusStep::JitSemantic);
    assert_eq!(prefocus_step(false, true, true, true), PrefocusStep::StoredSemantic);
    assert_eq!(prefocus_step(false, true, false, false), PrefocusStep::StoredSemantic);
}
