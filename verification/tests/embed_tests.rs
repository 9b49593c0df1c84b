use grepplus::catalog::{FeedKind, Pooling};
use grepplus::download::{fetch_step, sha256_hex, str_eq_ignore_ascii_case, verify_sha256, FetchStep};
use grepplus::models::keeps_install;
use grepplus::models::{
    default_pull_opts, embedder_choice, install_files, install_manifest, model_status_lines,
    pinned_entry, EnsureOptions, OnnxVariant,
};
use grepplus::onnx::{
    check_inputs, feed_plan, hidden_shape, input_rows, last_attended, query_text, sequence_len,
};
use grepplus::types::GpError;

#[test]
fn verify_sha256_matches() {
    let hash = sha256_hex(b"hello");
    assert!(verify_sha256(b"hello", "t.bin", &hash).is_ok());
}

#[test]
fn sha256_of_known_text() {
    let hash = sha256_hex(b"hello");
    assert_eq!(hash, "2cf24dba5fb0a30e26e83b2ac5b9e29e1b161e5c1fa7425e73043362938b9824");
    let upper = hash.to_uppercase();
    assert!(verify_sha256(b"hello", "t.bin", &upper).is_ok());
    match verify_sha256(b"hello!", "t.bin", &hash) {
        Err(GpError::Model(m)) => {
            assert!(m.starts_with("sha256 mismatch for t.bin: expected 2cf24dba"));
            assert!(m.contains(", got "));
        }
        _ => panic!("expected mismatch"),
    }
    assert!(str_eq_ignore_ascii_case("AbC", "aBc"));
    assert!(!str_eq_ignore_ascii_case("abc", "abd"));
}

#[test]
fn parses_pooled_batch_output() {
    let hidden = hidden_shape(&vec![1, 1024], 1024, 1, 22, 1024).unwrap();
    assert_eq!((hidden.rows, hidden.cols), (1, 1024));
}

#[test]
fn parses_sequence_output() {
    let hidden = hidden_shape(&vec![1, 22, 1024], 22 * 1024, 1, 22, 1024).unwrap();
    assert_eq!((hidden.rows, hidden.cols), (22, 1024));
}

#[test]
fn other_output_shapes() {
    let h = hidden_shape(&vec![2, 3, 4], 24, 1, 3, 4).unwrap();
    assert_eq!((h.rows, h.cols), (6, 4));
    assert_eq!(h.context.as_deref(), Some("output shape [2, 3, 4]"));
    let flat = hidden_shape(&vec![24], 24, 2, 3, 4).unwrap();
    assert_eq!((flat.rows, flat.cols), (6, 4));
    match hidden_shape(&vec![5], 7, 1, 2, 3) {
        Err(GpError::Model(m)) => assert_eq!(
            m,
            "unexpected ONNX output shape [5] (batch=1, seq=2, native_dim=3, len=7)"
        ),
        _ => panic!("expected error"),
    }
}

#[test]
fn input_feeding() {
    let names = vec!["input_ids".to_string(), "attention_mask".to_string(), "segment_ids".to_string()];
    assert_eq!(
        feed_plan(&names).unwrap(),
        vec![FeedKind::InputIds, FeedKind::AttentionMask, FeedKind::TokenTypeIds]
    );
    let dup = vec!["input_ids".to_string(), "input_ids".to_string()];
    match feed_plan(&dup) {
        Err(GpError::Model(m)) => assert_eq!(m, "duplicate input_ids in ONNX graph"),
        _ => panic!("expected error"),
    }
    let odd = vec!["input_ids".to_string(), "pixel_values".to_string()];
    match feed_plan(&odd) {
        Err(GpError::Model(m)) => assert_eq!(m, "unsupported ONNX input `pixel_values`"),
        _ => panic!("expected error"),
    }
    match check_inputs("m1", &odd) {
        Err(GpError::Model(m)) => assert_eq!(m, "model m1 requires unsupported ONNX input `pixel_values`"),
        _ => panic!("expected error"),
    }
    assert!(check_inputs("m1", &names).is_ok());
}

#[test]
fn token_rows_are_padded() {
    let rows = input_rows(&vec![vec![101, 7, 102]], &vec![vec![1, 1]], &vec![vec![0]], 4);
    assert_eq!(rows.ids, vec![vec![101, 7, 0, 0]]);
    assert_eq!(rows.mask, vec![vec![1, 1, 0, 0]]);
    assert_eq!(rows.type_ids, vec![vec![0, 0, 0, 0]]);
    assert_eq!(rows.positions, vec![vec![0, 1, 2, 3]]);
    assert_eq!(sequence_len(&vec![3, 9, 5], 8), 8);
    assert_eq!(sequence_len(&vec![3, 5], 8), 5);
    assert_eq!(last_attended(&vec![1, 1, 1, 0]), 2);
    assert_eq!(last_attended(&vec![0, 0]), 0);
}

#[test]
fn query_prompts() {
    assert_eq!(query_text(Pooling::Last, "Find code", "retry"), "Instruct: Find code\nQuery:retry");
    assert_eq!(query_text(Pooling::Mean, "Find code", "retry"), "retry");
}

#[test]
fn install_plan_of_a_pull() {
    let v = OnnxVariant {
        label: "model_q4f16".to_string(),
        model_file: "onnx/model_q4f16.onnx".to_string(),
        extra_files: vec!["onnx/model_q4f16.onnx_data".to_string()],
        total_bytes: 3 * 1024 * 1024 + 5,
    };
    let repo_files = vec!["tokenizer.json".to_string(), "onnx/model_q4f16.onnx".to_string()];
    assert_eq!(
        install_files(&v, "org/m", &repo_files).unwrap(),
        vec!["onnx/model_q4f16.onnx", "onnx/model_q4f16.onnx_data", "tokenizer.json"]
    );
    match install_files(&v, "org/m", &vec![]) {
        Err(GpError::Model(m)) => assert_eq!(m, "org/m missing tokenizer.json required for ONNX models"),
        _ => panic!("expected error"),
    }
    let m = install_manifest("m-model_q4f16", "main", "org/m", "m", &v, 384, 512, "last", None);
    assert_eq!(m.description, "Pulled from org/m [model_q4f16]");
    assert_eq!(m.max_batch, 1);
    assert_eq!(m.size_mb, 3);
    assert_eq!(m.quant.as_deref(), Some("model_q4f16"));
    let tiny = OnnxVariant { total_bytes: 10, ..v };
    let m2 = install_manifest("t", "main", "org/t", "t", &tiny, 384, 512, "mean", Some("Tiny"));
    assert_eq!(m2.size_mb, 1);
    assert_eq!(m2.max_batch, 0);
    assert_eq!(m2.description, "Tiny [model_q4f16]");
    let e = pinned_entry(&m2);
    assert_eq!(e.id, "t");
    assert_eq!(e.format, "onnx");
    assert_eq!(e.size_mb, 1);
}

#[test]
fn ensure_options_and_choices() {
    let o = EnsureOptions::for_required_semantic(true, None);
    assert!(o.require && !o.interactive);
    let o = EnsureOptions::from_env_and_flags(false, Some("bge-small-en-v1.5".into()));
    assert!(o.interactive && !o.require);
    assert_eq!(o.model_id.as_deref(), Some("bge-small-en-v1.5"));
    assert!(matches!(embedder_choice(Err(GpError::NoModel), false), Ok(None)));
    assert!(matches!(embedder_choice(Err(GpError::NoModel), true), Err(GpError::NoModel)));
    assert!(matches!(embedder_choice(Ok("x".into()), true), Ok(Some(id)) if id == "x"));
    let p = default_pull_opts("e5-small-v2", false);
    assert!(p.non_interactive);
    assert_eq!(p.revision, "main");
}

#[test]
fn welcome_model_lines() {
    assert_eq!(model_status_lines("qwen", true, &vec![]), vec!["  active:    qwen (installed)"]);
    assert_eq!(
        model_status_lines("qwen", false, &vec![]),
        vec!["  active:    qwen (not installed)", "  installed: none"]
    );
    assert_eq!(
        model_status_lines("qwen", false, &vec!["a".to_string(), "b".to_string()]),
        vec![
            "  active:    qwen (not installed — pick one below)",
            "  installed: a, b",
            "  tip:       grepplus models use qwen"
        ]
    );
}

#[test]
fn existing_files_are_checked_not_fetched() {
    assert_eq!(fetch_step(false, Some("abc")), FetchStep::Fetch);
    assert_eq!(fetch_step(false, None), FetchStep::Fetch);
    assert_eq!(fetch_step(true, Some("abc")), FetchStep::VerifyExisting);
    assert_eq!(fetch_step(true, Some("")), FetchStep::KeepExisting);
    assert_eq!(fetch_step(true, None), FetchStep::KeepExisting);
}

#[test]
fn installed_ids_are_kept_unless_forced() {
    assert!(keeps_install(true, false));
    assert!(!keeps_install(true, true));
    assert!(!keeps_install(false, false));
}
