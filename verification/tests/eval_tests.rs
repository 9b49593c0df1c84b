use grepplus::config::Config;
use grepplus::engine::EvalMode;
use grepplus::eval::{
    agent_pick_path, eval_mode_label, extract_path_from_answer, first_hit_rank, hit_file,
    oracle_hits, oracle_route, parse_retrievers, path_matches, retriever_route, serve_command,
    task_success, AgentCodeHarness, OracleLocation, SearchPlan,
};
use grepplus::paths::path_suffix_match;
use grepplus::types::{ChunkRef, GpError, Route};

fn result(file: &str, start: u32, end: u32) -> ChunkRef {
    ChunkRef {
        file: file.to_string(),
        chunk_id: 0,
        start_line: start,
        end_line: end,
        byte_start: 0,
        byte_end: 100,
    }
}

fn oracle(file: &str, start: u32, end: u32) -> OracleLocation {
    OracleLocation { file: file.to_string(), start_line: start, end_line: end }
}

#[test]
fn recall_computes() {
    let results = vec![result("src/auth.rs", 10, 20)];
    let oracles = vec![oracle("auth.rs", 12, 15)];
    assert!(oracle_hits(&results, &oracles, 10) > 0);
}

#[test]
fn oracle_matching_is_component_wise() {
    let results = vec![result("src/xauth.rs", 10, 20), result("lib/src/auth.rs", 30, 40)];
    let oracles = vec![oracle("auth.rs", 12, 15), oracle("src/auth.rs", 35, 35)];
    assert_eq!(oracle_hits(&results, &oracles, 10), 1);
    assert_eq!(oracle_hits(&results, &oracles, 1), 0);
    assert_eq!(first_hit_rank(&results, &oracles), Some(1));
    assert_eq!(first_hit_rank(&results[..1].to_vec(), &oracles), None);
}

#[test]
fn path_suffixes() {
    assert!(path_suffix_match("src/auth.rs", "auth.rs"));
    assert!(path_suffix_match("/repo/./src//auth.rs", "src/auth.rs"));
    assert!(!path_suffix_match("src/xauth.rs", "auth.rs"));
    assert!(path_suffix_match("/repo/src/", "src"));
    assert!(!path_suffix_match("src/auth.rs", "/src/auth.rs"));
    assert!(path_suffix_match("/src/auth.rs", "/src/auth.rs"));
    assert!(path_suffix_match("a.rs", ""));
}

#[test]
fn agent_answer_parsing() {
    let files = vec!["src/retry/backoff.rs".to_string(), "src/auth.rs".to_string()];
    assert_eq!(
        extract_path_from_answer("  The answer is src/auth.rs \n", &files),
        Some("src/auth.rs".to_string())
    );
    assert_eq!(
        extract_path_from_answer("lib/other.ts\nbecause", &files),
        Some("lib/other.ts".to_string())
    );
    assert_eq!(extract_path_from_answer("no idea", &files), None);
    assert_eq!(extract_path_from_answer("   ", &files), None);
    assert_eq!(extract_path_from_answer("main.rs  \nmore", &files), Some("main.rs".to_string()));
}

#[test]
fn picked_paths_match_oracles() {
    assert!(path_matches("repo/src/auth.rs", "src/auth.rs"));
    assert!(path_matches("auth.rs", "src/auth.rs"));
    assert!(path_matches("x/src/auth.rs.bak", "src/auth.rs"));
    assert!(!path_matches("src/login.rs", "src/auth.rs"));
    let oracles = vec!["src/auth.rs".to_string()];
    assert!(task_success(&Some("src/auth.rs".to_string()), &oracles));
    assert!(!task_success(&None, &oracles));
}

#[test]
fn agent_pick_falls_back_to_top_hit() {
    let files = vec!["a.rs".to_string(), "b.rs".to_string()];
    assert_eq!(agent_pick_path(&vec![], false, Some("x".into())), None);
    assert_eq!(agent_pick_path(&files, true, Some("x".into())), Some("a.rs".to_string()));
    assert_eq!(agent_pick_path(&files, false, Some("x".into())), Some("x".to_string()));
    assert_eq!(agent_pick_path(&files, false, None), Some("a.rs".to_string()));
    assert_eq!(hit_file(&result("src/a.rs", 1, 2)), "src/a.rs");
}

#[test]
fn retrievers() {
    assert_eq!(retriever_route("grep").unwrap(), "grep");
    assert_eq!(retriever_route("hybrid").unwrap(), "hybrid");
    match retriever_route("vector") {
        Err(GpError::Config(m)) => assert_eq!(m, "unknown retriever: vector"),
        _ => panic!("expected error"),
    }
    assert_eq!(parse_retrievers(" grep, hybrid,,"), vec!["grep", "hybrid"]);
}

#[test]
fn mode_labels() {
    assert_eq!(eval_mode_label(EvalMode::Grep), "grep");
    assert_eq!(eval_mode_label(EvalMode::Jit), "jit");
    assert_eq!(eval_mode_label(EvalMode::RouterLearned), "router-learned");
}

#[test]
fn harness_search_plans() {
    let h = AgentCodeHarness::new("/corpus", "/q.jsonl");
    assert!(matches!(h.search_plan(EvalMode::Grep), SearchPlan::UnixGrep));
    assert!(matches!(h.search_plan(EvalMode::Ripgrep), SearchPlan::Ripgrep));
    assert!(matches!(h.search_plan(EvalMode::Laser), SearchPlan::Laser));
    assert!(matches!(h.search_plan(EvalMode::Vector), SearchPlan::ParallelGrep));
    let h = h.with_config(Config::default()).warm_index(true);
    match h.search_plan(EvalMode::Vector) {
        SearchPlan::Hybrid(o) => {
            assert_eq!(o.route, Route::Semantic);
            assert!(!o.jit_enabled);
        }
        _ => panic!("expected hybrid"),
    }
    match h.search_plan(EvalMode::Jit) {
        SearchPlan::Hybrid(o) => assert!(o.jit_enabled),
        _ => panic!("expected hybrid"),
    }
    match h.search_plan(EvalMode::Laser) {
        SearchPlan::Hybrid(o) => assert_eq!(o.route, Route::Grep),
        _ => panic!("expected hybrid"),
    }
    let opts = h.grep_options();
    assert_eq!(opts.roots, vec!["/corpus".to_string()]);
    assert_eq!(opts.max_results, Some(100));
}

#[test]
fn harness_index_builds() {
    let h = AgentCodeHarness::new("/c", "/q").with_config(Config::default()).ensure_index(true);
    let sketch = h.index_build(true, false).unwrap();
    assert!(sketch.sketch_only);
    assert_eq!(sketch.dim, 256);
    assert!(h.index_build(true, true).is_none());
    assert!(h.index_build(false, false).is_none());
    let warm = h.warm_index(true).index_build(true, false).unwrap();
    assert!(!warm.sketch_only);
}

#[test]
fn serve_command_and_oracle_routes() {
    let (bin, args) = serve_command(None, "127.0.0.1:9470", true, false, true);
    assert_eq!(bin, "grepplus");
    assert_eq!(
        args,
        vec!["serve", "--bind", "127.0.0.1:9470", "--no-reload-config", "--ensure-index", "--yes-download"]
    );
    assert_eq!(serve_command(Some("/bin/gp".into()), "x", false, false, false).0, "/bin/gp");
    assert_eq!(oracle_route(1, 0), Route::Grep);
    assert_eq!(oracle_route(0, 2), Route::Hybrid);
    assert_eq!(oracle_route(0, 0), Route::Prefocus);
}
