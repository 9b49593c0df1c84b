use grepplus::catalog::{Catalog, ModelFormat};
use grepplus::config::Config;
use grepplus::models::{
    default_model_id, install_hint, install_model, pull_target, set_active_model, PullTarget,
};
use grepplus::types::GpError;

#[test]
fn default_model_from_catalog() {
    let cfg = Config::default();
    let catalog = Catalog::builtin();
    let id = default_model_id(&catalog, &cfg, false).unwrap();
    assert_eq!(id, "qwen3-embedding-0.6b");
}

#[test]
fn catalog_loads() {
    let cat = Catalog::builtin();
    assert!(!cat.models.is_empty());
    assert_eq!(cat.default_id(), Some("qwen3-embedding-0.6b"));
}

#[test]
fn active_installed_model_wins() {
    let mut cfg = Config::default();
    cfg.embedder.active = "e5-small-v2-model_o4".to_string();
    let id = default_model_id(&Catalog::builtin(), &cfg, true).unwrap();
    assert_eq!(id, "e5-small-v2-model_o4");
    let empty = Catalog { models: vec![] };
    assert!(matches!(default_model_id(&empty, &cfg, false), Err(GpError::NoModel)));
}

#[test]
fn user_entries_override_and_extend_builtin() {
    let builtin = Catalog::builtin();
    let mut override_entry = Catalog::builtin().models.remove(1);
    override_entry.size_mb = 999;
    let mut extra = Catalog::builtin().models.remove(0);
    extra.id = "my-model".to_string();
    let user = Catalog { models: vec![override_entry, extra] };
    let merged = Catalog::merged(builtin, user);
    assert_eq!(merged.models.len(), 6);
    assert_eq!(merged.get("bge-small-en-v1.5").unwrap().size_mb, 999);
    assert_eq!(merged.models[1].id, "bge-small-en-v1.5");
    assert_eq!(merged.models[5].id, "my-model");
    assert!(merged.get("nope").is_none());
}

#[test]
fn upsert_replaces_same_id() {
    let mut cat = Catalog::builtin();
    let mut e = Catalog::builtin().models.remove(0);
    e.description = "changed".to_string();
    cat.upsert(e);
    assert_eq!(cat.models.len(), 5);
    assert_eq!(cat.models[0].description, "changed");
}

#[test]
fn sha_lookup_prefers_file_specific() {
    let mut e = Catalog::builtin().models.remove(0);
    e.sha256 = "aaa".to_string();
    e.sha256_model = "bbb".to_string();
    let model_file = e.model_file.clone();
    assert_eq!(e.sha256_for(&model_file), Some("bbb"));
    assert_eq!(e.sha256_for("tokenizer.json"), Some("aaa"));
    e.sha256 = String::new();
    assert_eq!(e.sha256_for("other.bin"), None);
    assert_eq!(e.format_kind(), ModelFormat::Onnx);
    let m = e.to_manifest();
    assert_eq!(m.base_id, e.id);
    assert_eq!(m.sha256, "bbb");
}

#[test]
fn unknown_ids_are_config_errors() {
    let cat = Catalog::builtin();
    assert!(install_model(&cat, "e5-small-v2").is_ok());
    match install_model(&cat, "nope") {
        Err(GpError::Config(m)) => assert_eq!(m, "unknown model id: nope"),
        _ => panic!("expected a config error"),
    }
    assert!(set_active_model(&cat, "nope", true).is_ok());
    assert!(set_active_model(&cat, "nope", false).is_err());
}

#[test]
fn pull_targets() {
    let cat = Catalog::builtin();
    assert!(matches!(pull_target(&cat, "intfloat/e5-small-v2"), Ok(PullTarget::Hub(r)) if r == "intfloat/e5-small-v2"));
    assert!(matches!(pull_target(&cat, "bge-small-en-v1.5"), Ok(PullTarget::Catalog(id)) if id == "bge-small-en-v1.5"));
    match pull_target(&cat, "mystery") {
        Err(GpError::Config(m)) => {
            assert_eq!(m, "unknown model id: mystery (use org/repo or a catalog id)")
        }
        _ => panic!("expected a config error"),
    }
}

#[test]
fn install_hint_names_default() {
    assert_eq!(
        install_hint(&Catalog::builtin()),
        "Run `grepplus models install` to browse recommended models (~573 MB default: qwen3-embedding-0.6b)."
    );
    assert_eq!(
        install_hint(&Catalog { models: vec![] }),
        "Run `grepplus models install` to browse recommended models."
    );
}
