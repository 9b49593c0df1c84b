use grepplus::engine::GrepOptions;
use grepplus::grep::{
    exact_grep_request, exact_pattern, finish_grep, grep_command_args, hits_to_chunks,
    parse_grep_output, pick_grep_binary, resolve_cli_backend, resolve_exact_backend, GrepBackend,
    UnixGrepEngine,
};
use grepplus::types::{GpError, GrepHit};

#[test]
fn parses_path_line_content() {
    let out = b"src/auth.rs:12:fn handleSessionRefresh() {\nlib/x.rs:3:let a = b:c;\n";
    let hits = parse_grep_output(out, None).unwrap();
    assert_eq!(hits.len(), 2);
    assert_eq!(hits[0].file, "src/auth.rs");
    assert_eq!(hits[0].line_no, 12);
    assert_eq!(hits[0].line, "fn handleSessionRefresh() {");
    assert_eq!(hits[1].line, "let a = b:c;");
    assert_eq!(hits[1].byte_offset, 0);
}

#[test]
fn skips_malformed_and_non_utf8_lines() {
    let mut out: Vec<u8> = Vec::new();
    out.extend_from_slice(b"no colon here\n");
    out.extend_from_slice(b"a.rs:notanumber:x\n");
    out.extend_from_slice(b"b.rs:\xff\xfe:x\n");
    out.extend_from_slice(b"\n");
    out.extend_from_slice(b"c.rs:+7:kept");
    let hits = parse_grep_output(&out, None).unwrap();
    assert_eq!(hits.len(), 1);
    assert_eq!(hits[0].file, "c.rs");
    assert_eq!(hits[0].line_no, 7);
}

#[test]
fn drive_letter_field_is_skipped() {
    let hits = parse_grep_output(b"C:\\src\\a.rs:4:body", None).unwrap();
    assert_eq!(hits.len(), 1);
    assert_eq!(hits[0].file, "\\src\\a.rs");
    assert_eq!(hits[0].line_no, 4);
    assert_eq!(hits[0].line, "body");
}

#[test]
fn line_numbers_must_fit_u32() {
    let hits = parse_grep_output(b"ab:4294967295:x\nbc:4294967296:y\n", None).unwrap();
    assert_eq!(hits.len(), 1);
    assert_eq!(hits[0].line_no, 4294967295);
}

#[test]
fn max_results_caps_hits() {
    let mut out = String::new();
    for i in 0..20 {
        out.push_str(&format!("many.txt:{}:needle\n", i + 1));
    }
    let hits = parse_grep_output(out.as_bytes(), Some(5)).unwrap();
    assert_eq!(hits.len(), 5);
    assert_eq!(hits[4].line_no, 5);
    let one = parse_grep_output(out.as_bytes(), Some(0)).unwrap();
    assert_eq!(one.len(), 1);
}

#[test]
fn grep_failure_reports_exit_and_stderr() {
    match finish_grep(false, Some(2), b"", "bad regex", None) {
        Err(GpError::Other(m)) => assert_eq!(m, "grep failed (exit Some(2)): bad regex"),
        _ => panic!("expected failure"),
    }
    match finish_grep(false, None, b"", "killed", None) {
        Err(GpError::Other(m)) => assert_eq!(m, "grep failed (exit None): killed"),
        _ => panic!("expected failure"),
    }
    match finish_grep(false, Some(-3), b"", "", None) {
        Err(GpError::Other(m)) => assert_eq!(m, "grep failed (exit Some(-3)): "),
        _ => panic!("expected failure"),
    }
    assert_eq!(finish_grep(false, Some(1), b"", "", None).unwrap().len(), 0);
    assert_eq!(finish_grep(true, Some(0), b"ab:1:x\n", "", None).unwrap().len(), 1);
}

#[test]
fn command_line_of_a_search() {
    let opts = GrepOptions {
        roots: vec!["/repo".to_string(), "/other".to_string()],
        fixed_string: true,
        case_insensitive: true,
        max_results: Some(100),
        ..Default::default()
    };
    let args = grep_command_args("needle", &opts).unwrap();
    assert_eq!(
        args,
        vec!["-r", "-n", "-H", "-I", "-i", "-F", "-m", "100", "--", "needle", "/repo", "/other"]
    );
    let regex = GrepOptions { roots: vec!["/r".to_string()], ..Default::default() };
    assert_eq!(
        grep_command_args("a|b", &regex).unwrap(),
        vec!["-r", "-n", "-H", "-I", "-E", "--", "a|b", "/r"]
    );
    assert!(grep_command_args("x", &GrepOptions::default()).is_none());
}

#[test]
fn grep_binary_from_environment() {
    assert_eq!(pick_grep_binary(Some("/bin/ggrep".into()), Some("/x".into())), "/bin/ggrep");
    assert_eq!(pick_grep_binary(None, Some("/x".into())), "/x");
    assert_eq!(pick_grep_binary(None, None), "grep");
}

#[test]
fn exact_channel_pattern() {
    assert_eq!(exact_pattern("handleSessionRefresh"), ("handleSessionRefresh".to_string(), true));
    assert_eq!(exact_pattern("  \"retry logic\" "), ("retry logic".to_string(), true));
    assert_eq!(exact_pattern("fn .*main"), ("fn .*main".to_string(), false));
    assert!(exact_grep_request("\"\"", &vec!["/r".to_string()], 10).is_none());
    let (p, o) = exact_grep_request("handleSessionRefresh", &vec!["/r".to_string()], 10).unwrap();
    assert_eq!(p, "handleSessionRefresh");
    assert!(o.fixed_string);
    assert_eq!(o.max_results, Some(10));
    assert_eq!(o.roots, vec!["/r".to_string()]);
}

#[test]
fn backend_resolution() {
    assert!(matches!(resolve_cli_backend("ripgrep", Some("/usr/bin/rg".into())), GrepBackend::Ripgrep(p) if p == "/usr/bin/rg"));
    assert!(matches!(resolve_cli_backend("auto", Some("/usr/bin/rg".into())), GrepBackend::Parallel));
    assert!(matches!(resolve_cli_backend("ripgrep", None), GrepBackend::Parallel));
    assert!(matches!(resolve_exact_backend("auto", Some("rg".into())), GrepBackend::Ripgrep(_)));
    assert!(matches!(resolve_exact_backend("parallel", Some("rg".into())), GrepBackend::Parallel));
}

#[test]
fn hit_chunks_span_the_line_bytes() {
    let hits = vec![GrepHit {
        file: "a.rs".to_string(),
        line_no: 9,
        byte_offset: 100,
        line: "héllo".to_string(),
        match_start: 0,
        match_end: 0,
    }];
    let chunks = hits_to_chunks(&hits);
    assert_eq!(chunks.len(), 1);
    assert_eq!(chunks[0].start_line, 9);
    assert_eq!(chunks[0].end_line, 9);
    assert_eq!(chunks[0].chunk_id, 9);
    assert_eq!(chunks[0].byte_start, 100);
    assert_eq!(chunks[0].byte_end, 106);
}

#[test]
fn unix_grep_engine_keeps_binary() {
    let g = UnixGrepEngine::new("/usr/bin/grep".to_string());
    assert_eq!(g.binary(), "/usr/bin/grep");
}
