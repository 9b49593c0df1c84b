use grepplus::catalog::Catalog;
use grepplus::download::{hf_auth_header, hf_file_url, partial_file_name};
use grepplus::models::{
    check_hf_repo, model_choices, onnx_mirrors, other_family_step, pick_selection, use_pick_step,
    FamilyStep, InstalledVariant, ModelPickAction, UseStep,
};
use grepplus::types::GpError;

fn variant(id: &str, base: &str, repo: &str, size: u32) -> InstalledVariant {
    InstalledVariant {
        id: id.to_string(),
        base_id: base.to_string(),
        quant: "model".to_string(),
        repo: repo.to_string(),
        description: String::new(),
        size_mb: size,
    }
}

#[test]
fn picker_lists_catalog_then_other_families() {
    let cat = Catalog::builtin();
    let installed = vec![
        variant("zeta-q4", "zeta", "org/zeta", 40),
        variant("e5-small-v2", "e5-small-v2", "intfloat/e5-small-v2", 63),
        variant("alpha", "alpha", "org/alpha", 10),
        variant("zeta-fp16", "zeta", "org/zeta-fp16", 90),
    ];
    let choices = model_choices(&cat, &installed);
    assert_eq!(choices.len(), 5 + 2 + 2);
    assert_eq!(
        choices[0].label,
        "qwen3-embedding-0.6b       from ~573 MB  Default: Qwen3 0.6B ONNX INT8, MRL 32-1024d [default]"
    );
    assert_eq!(
        choices[3].label,
        "e5-small-v2                from ~ 32 MB  Multilingual; quants ~32-63 MB (1 installed)"
    );
    assert!(matches!(&choices[5].action, ModelPickAction::OtherFamily(b) if b == "alpha"));
    assert_eq!(choices[5].label, "alpha                      from ~ 10 MB  org/alpha [installed]");
    assert_eq!(choices[6].label, "zeta                       from ~ 90 MB  org/zeta (2 installed)");
    assert_eq!(choices[7].label, "Find more on Hugging Face…");
    assert!(matches!(choices[8].action, ModelPickAction::Skip));
}

#[test]
fn typed_selection() {
    let cat = Catalog::builtin();
    let choices = model_choices(&cat, &vec![]);
    assert_eq!(pick_selection(&choices, "\n").unwrap(), 0);
    assert_eq!(pick_selection(&choices, " 2 ").unwrap(), 1);
    assert_eq!(pick_selection(&choices, "0").unwrap(), 0);
    assert_eq!(pick_selection(&choices, "e5-small-v2").unwrap(), 3);
    match pick_selection(&choices, "99") {
        Err(GpError::Config(m)) => assert_eq!(m, "invalid selection: 99"),
        _ => panic!("expected error"),
    }
    match pick_selection(&choices, " nope ") {
        Err(GpError::Config(m)) => assert_eq!(m, "invalid selection: nope"),
        _ => panic!("expected error"),
    }
}

#[test]
fn activating_families() {
    let installed = vec![
        variant("zeta-q4", "zeta", "org/zeta", 40),
        variant("solo", "solo", "org/solo", 1),
        variant("zeta-fp16", "zeta", "org/zeta", 90),
    ];
    assert!(matches!(other_family_step("solo", &installed, false), Ok(FamilyStep::Activate(id)) if id == "solo"));
    assert!(matches!(other_family_step("zeta", &installed, true), Ok(FamilyStep::Choose(ids)) if ids == vec!["zeta-q4", "zeta-fp16"]));
    match other_family_step("zeta", &installed, false) {
        Err(GpError::Config(m)) => assert_eq!(m, "pass a variant id, e.g. `grepplus models use zeta-q4`"),
        _ => panic!("expected error"),
    }
    match other_family_step("none", &installed, true) {
        Err(GpError::Config(m)) => assert_eq!(m, "no installed variants for none"),
        _ => panic!("expected error"),
    }
    assert!(matches!(use_pick_step(&installed, true), Ok(UseStep::Choose)));
    assert!(matches!(use_pick_step(&installed[1..2].to_vec(), false), Ok(UseStep::Use(id)) if id == "solo"));
    assert!(use_pick_step(&vec![], true).is_err());
    assert!(use_pick_step(&installed, false).is_err());
}

#[test]
fn pasted_repositories() {
    assert_eq!(check_hf_repo("  intfloat/e5-small-v2 ").unwrap(), Some("intfloat/e5-small-v2".to_string()));
    assert_eq!(check_hf_repo("   ").unwrap(), None);
    match check_hf_repo("e5-small") {
        Err(GpError::Config(m)) => {
            assert_eq!(m, "invalid repo \"e5-small\" — use org/name, e.g. intfloat/e5-small-v2")
        }
        _ => panic!("expected error"),
    }
    assert!(check_hf_repo("/abs").is_err());
    assert!(check_hf_repo("org/").is_err());
}

#[test]
fn hub_downloads() {
    assert_eq!(
        hf_file_url("org/m", "main", "onnx/model%1.onnx"),
        "https://huggingface.co/org/m/resolve/main/onnx/model%251.onnx"
    );
    assert_eq!(partial_file_name("onnx/model.onnx"), ".onnx_model.onnx.part");
    assert_eq!(hf_auth_header(Some("abc".into()), Some("zzz".into())), Some("Bearer abc".to_string()));
    assert_eq!(hf_auth_header(Some(String::new()), Some("zzz".into())), None);
    assert_eq!(hf_auth_header(None, Some("zzz".into())), Some("Bearer zzz".to_string()));
    assert_eq!(hf_auth_header(None, None), None);
}

#[test]
fn onnx_mirror_selection() {
    let found = vec![
        "org/Model-ONNX".to_string(),
        "org/model-gguf-onnx".to_string(),
        "org/model".to_string(),
    ];
    assert_eq!(onnx_mirrors("org/model", false, &found).unwrap(), vec!["org/Model-ONNX"]);
    match onnx_mirrors("org/model", false, &vec![]) {
        Err(GpError::Model(m)) => assert_eq!(
            m,
            "org/model has no ONNX weights — grep+ needs an ONNX export (safetensors/GGUF alone are not supported)"
        ),
        _ => panic!("expected error"),
    }
    match onnx_mirrors("org/model", true, &found) {
        Err(GpError::Model(m)) => assert_eq!(m, "org/model has no ONNX weights (catalog entry may be stale)"),
        _ => panic!("expected error"),
    }
}
