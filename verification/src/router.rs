//! Query routing: the heuristic and feature routers, route labels, and the
//! choice of router implementation.
use vstd::prelude::*;
use crate::config::Config;
use crate::paths::{join_path, joined};
use crate::query::{
    count_words, has_natural_language_cue, has_regex_meta, has_regex_metacharacters,
    is_literal_query, is_quoted, literal, nl_cue, quoted, word_count,
};
use crate::text::{chars_of, str_eq};
use crate::types::{RepoMeta, Route, RouteDecision};

verus! {

/// Decides where a query goes.
pub trait Router {
    fn route(&self, query: &str, meta: &RepoMeta) -> RouteDecision;
}

/// Route chosen for a natural-language query, by what the repository offers.
pub open spec fn nl_route(meta: RepoMeta) -> Route {
    if meta.index_warm && meta.has_model {
        Route::Hybrid
    } else if meta.has_model {
        Route::Semantic
    } else {
        Route::Prefocus
    }
}

/// The heuristic router's decision: route, confidence (percent), reason.
pub open spec fn heuristic_decision(q: Seq<char>, meta: RepoMeta) -> (Route, u8, Seq<char>) {
    if has_regex_meta(q) {
        (Route::Grep, 90, "regex metacharacters present"@)
    } else if literal(q) {
        (Route::Grep, 92, "literal identifier — grep fast path"@)
    } else if quoted(q) {
        (Route::Grep, 80, "quoted string"@)
    } else if nl_cue(q) {
        (nl_route(meta), 70, "natural language query"@)
    } else if word_count(q) >= 2 && meta.has_model {
        (Route::Hybrid, 60, "multi-word query with model available"@)
    } else {
        (Route::Grep, 50, "default to grep"@)
    }
}

fn decision(route: Route, pct: u8, why: &str) -> (d: RouteDecision)
    ensures
        d.route == route,
        d.confidence_pct == pct,
        d.rationale@.len() == 1,
        d.rationale@[0]@ == why@,
{
    let mut rationale: Vec<String> = Vec::new();
    rationale.push(String::from_str(why));
    RouteDecision { route, confidence_pct: pct, rationale }
}

/// Rule-based router: regex, literal and quoted queries go to grep;
/// natural-language and multi-word queries go to the semantic routes.
pub struct HeuristicRouter;

impl Router for HeuristicRouter {
    fn route(&self, query: &str, meta: &RepoMeta) -> (d: RouteDecision)
        ensures
            d.route == heuristic_decision(query@, *meta).0,
            d.confidence_pct == heuristic_decision(query@, *meta).1,
            d.rationale@.len() == 1,
            d.rationale@[0]@ == heuristic_decision(query@, *meta).2,
    {
        if has_regex_metacharacters(query) {
            return decision(Route::Grep, 90, "regex metacharacters present");
        }
        if is_literal_query(query) {
            return decision(Route::Grep, 92, "literal identifier — grep fast path");
        }
        if is_quoted(query) {
            return decision(Route::Grep, 80, "quoted string");
        }
        if has_natural_language_cue(query) {
            let route = if meta.index_warm && meta.has_model {
                Route::Hybrid
            } else if meta.has_model {
                Route::Semantic
            } else {
                Route::Prefocus
            };
            return decision(route, 70, "natural language query");
        }
        let cs = chars_of(query);
        if count_words(&cs) >= 2 && meta.has_model {
            return decision(Route::Hybrid, 60, "multi-word query with model available");
        }
        decision(Route::Grep, 50, "default to grep")
    }
}

/// Features of a query and repository that the feature router reads.
#[derive(Debug, Clone, Copy, PartialEq, Eq, Structural)]
pub struct QueryFeatures {
    pub word_count: usize,
    pub has_nl_cue: bool,
    pub is_literal: bool,
    pub has_regex: bool,
    pub is_quoted: bool,
    pub has_model: bool,
    pub index_warm: bool,
}

/// The features of `q` under `meta`.
pub open spec fn features_of(q: Seq<char>, meta: RepoMeta) -> QueryFeatures {
    QueryFeatures {
        word_count: word_count(q) as usize,
        has_nl_cue: nl_cue(q),
        is_literal: literal(q),
        has_regex: has_regex_meta(q),
        is_quoted: quoted(q),
        has_model: meta.has_model,
        index_warm: meta.index_warm,
    }
}

impl QueryFeatures {
    /// Number of features in the learned router's input vector.
    pub const DIM: usize = 7;

    /// Extracts the routing features of `query` under `meta`.
    pub fn extract(query: &str, meta: &RepoMeta) -> (f: QueryFeatures)
        ensures
            f == features_of(query@, *meta),
    {
        let cs = chars_of(query);
        QueryFeatures {
            word_count: count_words(&cs),
            has_nl_cue: has_natural_language_cue(query),
            is_literal: is_literal_query(query),
            has_regex: has_regex_metacharacters(query),
            is_quoted: is_quoted(query),
            has_model: meta.has_model,
            index_warm: meta.index_warm,
        }
    }
}

/// The feature router's route for `f`.
pub open spec fn feature_decision(f: QueryFeatures) -> Route {
    if f.has_regex || f.is_quoted || f.is_literal {
        Route::Grep
    } else if f.has_model && (f.has_nl_cue || f.word_count >= 3) {
        if f.index_warm {
            Route::Hybrid
        } else {
            Route::Semantic
        }
    } else if f.has_nl_cue {
        Route::Prefocus
    } else if f.word_count >= 2 && f.has_model {
        Route::Hybrid
    } else {
        Route::Grep
    }
}

/// Route from query features: syntax-bearing queries go to grep; prose goes
/// to the semantic routes when a model is installed, else to pre-focus.
pub fn feature_route(f: &QueryFeatures) -> (r: Route)
    ensures
        r == feature_decision(*f),
{
    if f.has_regex || f.is_quoted || f.is_literal {
        Route::Grep
    } else if f.has_model && (f.has_nl_cue || f.word_count >= 3) {
        if f.index_warm {
            Route::Hybrid
        } else {
            Route::Semantic
        }
    } else if f.has_nl_cue {
        Route::Prefocus
    } else if f.word_count >= 2 && f.has_model {
        Route::Hybrid
    } else {
        Route::Grep
    }
}

/// Router that decides from extracted query features.
pub struct FeatureRouter;

impl Router for FeatureRouter {
    fn route(&self, query: &str, meta: &RepoMeta) -> (d: RouteDecision)
        ensures
            d.route == feature_decision(features_of(query@, *meta)),
            d.confidence_pct == 65,
            d.rationale@.len() == 1,
            d.rationale@[0]@ == "feature router"@,
    {
        let features = QueryFeatures::extract(query, meta);
        let route = feature_route(&features);
        decision(route, 65, "feature router")
    }
}

/// The label of a route in traces and training data.
pub open spec fn label_of(r: Route) -> Seq<char> {
    match r {
        Route::Grep => "grep"@,
        Route::Semantic => "semantic"@,
        Route::Hybrid => "hybrid"@,
        Route::Prefocus => "prefocus"@,
    }
}

/// The route a label names; unknown labels mean grep.
pub open spec fn route_of_label(l: Seq<char>) -> Route {
    if l == "semantic"@ {
        Route::Semantic
    } else if l == "hybrid"@ {
        Route::Hybrid
    } else if l == "prefocus"@ {
        Route::Prefocus
    } else {
        Route::Grep
    }
}

/// Labels in the order of the learned router's output rows.
pub open spec fn label_table() -> Seq<Seq<char>> {
    seq!["grep"@, "semantic"@, "hybrid"@, "prefocus"@]
}

/// The label of `route`.
pub fn route_label(route: Route) -> (r: &'static str)
    ensures
        r@ == label_of(route),
{
    match route {
        Route::Grep => "grep",
        Route::Semantic => "semantic",
        Route::Hybrid => "hybrid",
        Route::Prefocus => "prefocus",
    }
}

/// The route named by `label`; anything unknown is grep.
pub fn label_to_route(label: &str) -> (r: Route)
    ensures
        r == route_of_label(label@),
{
    if str_eq(label, "semantic") {
        Route::Semantic
    } else if str_eq(label, "hybrid") {
        Route::Hybrid
    } else if str_eq(label, "prefocus") {
        Route::Prefocus
    } else {
        Route::Grep
    }
}

/// Row of `route` in the learned router's output.
pub open spec fn index_of(route: Route) -> nat {
    match route {
        Route::Grep => 0,
        Route::Semantic => 1,
        Route::Hybrid => 2,
        Route::Prefocus => 3,
    }
}

/// Row of `route` in the learned router's output.
pub fn route_index(route: Route) -> (r: usize)
    ensures
        r == index_of(route),
{
    match route {
        Route::Grep => 0,
        Route::Semantic => 1,
        Route::Hybrid => 2,
        Route::Prefocus => 3,
    }
}

/// A label read back names the route it was written for, and the route's row
/// in the output table holds that label.
pub proof fn lemma_route_label_round_trip(r: Route)
    ensures
        route_of_label(label_of(r)) == r,
        index_of(r) < label_table().len(),
        label_table()[index_of(r) as int] == label_of(r),
{
    reveal_strlit("grep");
    reveal_strlit("semantic");
    reveal_strlit("hybrid");
    reveal_strlit("prefocus");
    assert("grep"@.len() == 4);
    assert("hybrid"@.len() == 6);
    assert("semantic"@[0] == 's' && "prefocus"@[0] == 'p');
    assert("grep"@ != "semantic"@ && "grep"@ != "hybrid"@ && "grep"@ != "prefocus"@);
    assert("hybrid"@ != "semantic"@ && "prefocus"@ != "semantic"@ && "prefocus"@ != "hybrid"@);
}

/// A natural-language query (no regex metacharacter, not a literal
/// identifier, not quoted, with a natural-language cue) goes, at confidence
/// 70, to hybrid search when the repository has a model and a warm index, to
/// semantic search when it has a model but a cold index, and to pre-focus
/// when it has no model.
pub proof fn lemma_nl_query_routes(q: Seq<char>, meta: RepoMeta)
    requires
        !has_regex_meta(q),
        !literal(q),
        !quoted(q),
        nl_cue(q),
    ensures
        heuristic_decision(q, meta).1 == 70,
        meta.has_model && meta.index_warm ==> heuristic_decision(q, meta).0 == Route::Hybrid,
        meta.has_model && !meta.index_warm ==> heuristic_decision(q, meta).0 == Route::Semantic,
        !meta.has_model ==> heuristic_decision(q, meta).0 == Route::Prefocus,
{
}

/// Queries that carry syntax go to grep under both rule-based routers: regex
/// metacharacters (confidence 90), literal identifiers (92) and quoted
/// strings (80).  A query with none of these and no natural-language cue
/// goes to hybrid search when it has two or more words and a model is
/// installed (60), and to grep otherwise (50).
pub proof fn lemma_syntax_and_plain_routes(q: Seq<char>, meta: RepoMeta)
    ensures
        has_regex_meta(q) ==> heuristic_decision(q, meta).0 == Route::Grep && heuristic_decision(
            q,
            meta,
        ).1 == 90,
        !has_regex_meta(q) && literal(q) ==> heuristic_decision(q, meta).0 == Route::Grep
            && heuristic_decision(q, meta).1 == 92,
        !has_regex_meta(q) && !literal(q) && quoted(q) ==> heuristic_decision(q, meta).0
            == Route::Grep && heuristic_decision(q, meta).1 == 80,
        !has_regex_meta(q) && !literal(q) && !quoted(q) && !nl_cue(q) ==> (if word_count(q) >= 2
            && meta.has_model {
            heuristic_decision(q, meta).0 == Route::Hybrid && heuristic_decision(q, meta).1 == 60
        } else {
            heuristic_decision(q, meta).0 == Route::Grep && heuristic_decision(q, meta).1 == 50
        }),
        has_regex_meta(q) || literal(q) || quoted(q) ==> feature_decision(features_of(q, meta))
            == Route::Grep,
{
}

/// The feature router sends a prose query (no syntax; a natural-language
/// cue or three or more words) to hybrid search over a warm index and to
/// semantic search over a cold one when a model is installed; without a
/// model a query with a cue goes to pre-focus.
pub proof fn lemma_feature_prose_routes(q: Seq<char>, meta: RepoMeta)
    requires
        !has_regex_meta(q),
        !literal(q),
        !quoted(q),
    ensures
        meta.has_model && (nl_cue(q) || word_count(q) >= 3) ==> feature_decision(
            features_of(q, meta),
        ) == if meta.index_warm {
            Route::Hybrid
        } else {
            Route::Semantic
        },
        !meta.has_model && nl_cue(q) ==> feature_decision(features_of(q, meta)) == Route::Prefocus,
{
}

/// Without an embedding model neither rule-based router sends a query to a
/// route that needs one: every query goes to grep or to pre-focus.
pub proof fn lemma_no_model_no_vector_route(q: Seq<char>, meta: RepoMeta)
    requires
        !meta.has_model,
    ensures
        heuristic_decision(q, meta).0 == Route::Grep || heuristic_decision(q, meta).0
            == Route::Prefocus,
        feature_decision(features_of(q, meta)) == Route::Grep || feature_decision(
            features_of(q, meta),
        ) == Route::Prefocus,
{
}

/// Which router implementation serves queries.
#[derive(Debug, Clone, Copy, PartialEq, Eq, Structural)]
pub enum RouterChoice {
    Heuristic,
    Feature,
    Learned,
}

/// The router the config selects: `learned` falls back to the feature router
/// when no trained model exists; unknown modes use the heuristic router.
pub open spec fn router_for(mode: Seq<char>, model_exists: bool) -> RouterChoice {
    if mode == "learned"@ {
        if model_exists {
            RouterChoice::Learned
        } else {
            RouterChoice::Feature
        }
    } else if mode == "feature"@ {
        RouterChoice::Feature
    } else {
        RouterChoice::Heuristic
    }
}

/// Resolves the router implementation from `cfg`; `model_exists` says whether
/// the learned model file is present.
pub fn resolve_router(cfg: &Config, model_exists: bool) -> (r: RouterChoice)
    ensures
        r == router_for(cfg.router.mode@, model_exists),
{
    if str_eq(cfg.router.mode.as_str(), "learned") {
        if model_exists {
            RouterChoice::Learned
        } else {
            RouterChoice::Feature
        }
    } else if str_eq(cfg.router.mode.as_str(), "feature") {
        RouterChoice::Feature
    } else {
        RouterChoice::Heuristic
    }
}

/// Path of the learned router model: absolute as given, else under
/// `config_dir`.
pub fn router_model_path(cfg: &Config, config_dir: &str) -> (r: String)
    ensures
        r@ == joined(config_dir@, cfg.router.model_path@),
{
    join_path(config_dir, cfg.router.model_path.as_str())
}

/// Directory of route traces under `config_dir`.
pub fn traces_dir(config_dir: &str) -> (r: String)
    ensures
        r@ == joined(config_dir@, "traces"@),
{
    join_path(config_dir, "traces")
}

} // verus!
