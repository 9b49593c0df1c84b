use grepplus::config::Config;
use grepplus::router::{
    label_to_route, resolve_router, route_index, route_label, router_model_path, traces_dir,
    FeatureRouter, HeuristicRouter, QueryFeatures, Router, RouterChoice,
};
use grepplus::types::{RepoMeta, Route};

#[test]
fn routes_symbol_to_grep() {
    let r = HeuristicRouter;
    let d = r.route("handleSessionRefresh", &RepoMeta::default());
    assert_eq!(d.route, Route::Grep);
}

#[test]
fn routes_nl_to_semantic_when_model_available() {
    let r = HeuristicRouter;
    let d = r.route(
        "where is retry logic",
        &RepoMeta { has_model: true, ..Default::default() },
    );
    assert!(matches!(d.route, Route::Semantic | Route::Hybrid | Route::Prefocus));
}

#[test]
fn feature_router_differs_on_nl() {
    let r = FeatureRouter;
    let d = r.route(
        "where is retry logic",
        &RepoMeta { has_model: true, ..Default::default() },
    );
    assert_ne!(d.route, Route::Grep);
}

#[test]
fn nl_query_without_model_prefocuses() {
    let r = HeuristicRouter;
    let d = r.route("where is retry logic", &RepoMeta::default());
    assert_eq!(d.route, Route::Prefocus);
    assert_eq!(d.confidence_pct, 70);
    let plain = r.route("two words", &RepoMeta::default());
    assert_eq!(plain.route, Route::Grep);
    assert_eq!(plain.confidence_pct, 50);
}

#[test]
fn route_labels_round_trip() {
    for route in [Route::Grep, Route::Semantic, Route::Hybrid, Route::Prefocus] {
        assert_eq!(label_to_route(route_label(route)), route);
    }
    assert_eq!(route_label(Route::Prefocus), "prefocus");
    assert_eq!(label_to_route("something-else"), Route::Grep);
    assert_eq!(route_index(Route::Hybrid), 2);
}

#[test]
fn router_choice_follows_config_mode() {
    let mut cfg = Config::default();
    assert_eq!(resolve_router(&cfg, true), RouterChoice::Heuristic);
    cfg.router.mode = "learned".to_string();
    assert_eq!(resolve_router(&cfg, true), RouterChoice::Learned);
    assert_eq!(resolve_router(&cfg, false), RouterChoice::Feature);
    cfg.router.mode = "feature".to_string();
    assert_eq!(resolve_router(&cfg, false), RouterChoice::Feature);
}

#[test]
fn router_paths_under_config_dir() {
    let cfg = Config::default();
    assert_eq!(router_model_path(&cfg, "/home/u/.grepplus"), "/home/u/.grepplus/router/model.json");
    assert_eq!(traces_dir("/home/u/.grepplus/"), "/home/u/.grepplus/traces");
}

#[test]
fn features_of_symbol_query() {
    let f = QueryFeatures::extract("handleSessionRefresh", &RepoMeta::default());
    assert!(f.is_literal);
    assert_eq!(f.word_count, 1);
    assert!(!f.has_nl_cue);
}

#[test]
fn no_model_keeps_queries_off_vector_routes() {
    let meta = RepoMeta::default();
    for q in ["retry backoff jitter", "where is retry logic", "fn main", "session"] {
        let h = HeuristicRouter.route(q, &meta).route;
        let f = FeatureRouter.route(q, &meta).route;
        assert!(matches!(h, Route::Grep | Route::Prefocus));
        assert!(matches!(f, Route::Grep | Route::Prefocus));
    }
}
