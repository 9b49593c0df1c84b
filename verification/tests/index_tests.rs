use grepplus::index::{
    check_hot_pairs, files_root, BaselineQ4, VectorCodec,
    build_projection, candidate_files, check_index_dim, matches_candidates, normalize_projection_name,
    pack_q4, q4_level, reheat_limits, rel_path_for, resolve_projection, tally_temperatures, FileTemperature,
    IndexManifest, Projection, ReheatPlanner, TemperatureStats, INDEX_VERSION,
};
use grepplus::types::{ChunkRef, GpError};

fn chunk(file: &str, start: u32) -> ChunkRef {
    ChunkRef {
        file: file.to_string(),
        chunk_id: start,
        start_line: start,
        end_line: start + 3,
        byte_start: 0,
        byte_end: 1,
    }
}

#[test]
fn projection_names() {
    assert_eq!(normalize_projection_name("pq4"), "baseline");
    assert_eq!(normalize_projection_name("pca"), "pca");
    assert_eq!(resolve_projection("pq4", true).unwrap(), Projection::LearnedPq4);
    assert_eq!(resolve_projection("pq4", false).unwrap(), Projection::Baseline);
    assert_eq!(resolve_projection("pq4", false).unwrap().stored_name(), "baseline");
    match resolve_projection("lsh", false) {
        Err(GpError::Index(m)) => assert_eq!(m, "unknown projection: lsh"),
        _ => panic!("expected error"),
    }
    match build_projection("pca", false, None) {
        Err(GpError::Index(m)) => assert_eq!(m, "pca projection requires embedded vectors"),
        _ => panic!("expected error"),
    }
    match build_projection("pca", false, Some(0)) {
        Err(GpError::Index(m)) => assert_eq!(m, "pca projection: no vectors"),
        _ => panic!("expected error"),
    }
    assert_eq!(build_projection("pca", false, Some(3)).unwrap(), Projection::Pca);
}

#[test]
fn manifest_and_dims() {
    let m = IndexManifest::new("test-model", "baseline", 8, 3, 1, true);
    assert_eq!(m.version, INDEX_VERSION);
    assert_eq!(m.version, 2);
    assert_eq!(m.model_id, "test-model");
    assert!(check_index_dim(8, 8).is_ok());
    match check_index_dim(8, 256) {
        Err(GpError::Index(m)) => assert_eq!(m, "index dim 8 != config dim 256"),
        _ => panic!("expected error"),
    }
}

#[test]
fn temperature_tally() {
    let mut s = TemperatureStats::default();
    s.record(FileTemperature::Hot, 4);
    s.record(FileTemperature::Cold, 0);
    s.record(FileTemperature::Cold, 2);
    assert_eq!(s.total_files, 3);
    assert_eq!(s.hot, 1);
    assert_eq!(s.cold, 2);
    assert_eq!(s.cool, 0);
    assert_eq!(s.embedded_chunks, 6);
    assert_eq!(FileTemperature::Cool.as_str(), "cool");
}

#[test]
fn reheat_limits_tighten_on_cold_start() {
    assert_eq!(reheat_limits(true, true, 16, 6, 64, 18), (6, 18));
    assert_eq!(reheat_limits(true, false, 16, 6, 64, 18), (16, 64));
    assert_eq!(reheat_limits(false, true, 4, 6, 10, 18), (4, 10));
}

#[test]
fn reheat_planner_stays_in_budget() {
    let mut p = ReheatPlanner::new(3, 10);
    assert!(p.wants_more());
    assert_eq!(p.offer(4), Some(0));
    assert_eq!(p.offer(0), None);
    assert_eq!(p.offer(7), None);
    assert!(!p.wants_more());
    assert_eq!(p.planned(), 4);
    let mut q = ReheatPlanner::new(5, 5);
    assert_eq!(q.offer(5), Some(0));
    assert!(!q.wants_more());
}

#[test]
fn relative_candidate_files() {
    assert_eq!(rel_path_for("/repo", "/repo/src/a.rs"), "src/a.rs");
    assert_eq!(rel_path_for("/repo", "/elsewhere/b.rs"), "/elsewhere/b.rs");
    assert_eq!(rel_path_for("/repo", "/repo/win\\path.rs"), "win/path.rs");
    let cands = vec![chunk("/repo/b.rs", 1), chunk("/repo/a.rs", 1), chunk("/repo/b.rs", 9)];
    assert_eq!(candidate_files("/repo", &cands), vec!["b.rs", "a.rs"]);
    assert!(matches_candidates(&chunk("/repo/b.rs", 9), &cands));
    assert!(!matches_candidates(&chunk("/repo/b.rs", 8), &cands));
}

#[test]
fn q4_packing_round_trips() {
    let levels: Vec<u8> = vec![1, 15, 0, 7, 9];
    let bytes = pack_q4(&levels);
    assert_eq!(bytes, vec![0xF1, 0x70, 0x09]);
    for i in 0..levels.len() {
        assert_eq!(q4_level(&bytes, i), levels[i]);
    }
}

#[test]
fn codec_dimensions_and_hot_pairs() {
    assert_eq!(VectorCodec::new(4).kept_dim(5), 4);
    assert_eq!(VectorCodec::new(8).kept_dim(5), 5);
    assert_eq!(BaselineQ4 { proj_dim: 4 }.kept_dim(3), 3);
    assert_eq!(files_root("/cache/idx"), "/cache/idx/files");
    assert!(check_hot_pairs("a.rs", 2, 2).is_ok());
    match check_hot_pairs("a.rs", 2, 1) {
        Err(GpError::Index(m)) => assert_eq!(m, "chunk/vector mismatch for a.rs"),
        _ => panic!("expected error"),
    }
}

#[test]
fn sketch_shell_tally_is_all_cold() {
    let files = vec![(FileTemperature::Cold, 3), (FileTemperature::Cold, 1)];
    let s = tally_temperatures(&files);
    assert_eq!((s.total_files, s.hot, s.cold, s.cool, s.embedded_chunks), (2, 0, 2, 0, 4));
    let mixed = vec![
        (FileTemperature::Hot, 2),
        (FileTemperature::Cool, 5),
        (FileTemperature::Cold, 0),
        (FileTemperature::Hot, 1),
    ];
    let m = tally_temperatures(&mixed);
    assert_eq!((m.total_files, m.hot, m.cold, m.cool, m.embedded_chunks), (4, 2, 1, 1, 8));
    assert_eq!(m.hot + m.cold + m.cool, m.total_files);
}
