use grepplus::catalog::{Catalog, ModelManifest};
use grepplus::models::{
    count_variants_for_base, format_use_choice, installed_variant_line, model_dir, sort_variants,
    variant_from_manifest, InstalledVariant,
};

fn variant(id: &str, base: &str, quant: &str, size: u32) -> InstalledVariant {
    InstalledVariant {
        id: id.to_string(),
        base_id: base.to_string(),
        quant: quant.to_string(),
        repo: "org/repo".to_string(),
        description: String::new(),
        size_mb: size,
    }
}

#[test]
fn variants_sort_by_family_then_id() {
    let v = vec![
        variant("e5-small-v2-model_o4", "e5-small-v2", "model_o4", 32),
        variant("bge-small-en-v1.5", "bge-small-en-v1.5", "model", 126),
        variant("e5-small-v2", "e5-small-v2", "model", 63),
    ];
    let sorted = sort_variants(v);
    let ids: Vec<&str> = sorted.iter().map(|v| v.id.as_str()).collect();
    assert_eq!(ids, vec!["bge-small-en-v1.5", "e5-small-v2", "e5-small-v2-model_o4"]);
    assert_eq!(count_variants_for_base("e5-small-v2", &sorted), 2);
}

#[test]
fn list_lines_align_columns() {
    let v = variant("e5-small-v2-model_o4", "e5-small-v2", "model_o4", 32);
    assert_eq!(
        installed_variant_line(&v, "e5-small-v2-model_o4"),
        "    model_o4         e5-small-v2-model_o4         ~32 MB [active]"
    );
    let unknown = variant("x", "x", "model", 0);
    assert_eq!(
        installed_variant_line(&unknown, "y"),
        "    model            x                                  "
    );
    assert_eq!(
        format_use_choice(&v, "other"),
        "[e5-small-v2] model_o4 · e5-small-v2-model_o4 ~32 MB"
    );
}

#[test]
fn variant_from_manifest_fills_gaps() {
    let cat = Catalog::builtin();
    let mut m: ModelManifest = cat.models[3].to_manifest();
    m.size_mb = 0;
    m.quant = None;
    m.base_id = String::new();
    let v = variant_from_manifest("e5-small-v2".to_string(), &m, &cat, "e5-small-v2".to_string());
    assert_eq!(v.quant, "unknown");
    assert_eq!(v.size_mb, 32);
    assert_eq!(model_dir("/home/u/.grepplus/models", "e5-small-v2"), "/home/u/.grepplus/models/e5-small-v2");
}

#[test]
fn sort_keeps_equal_keys_in_order() {
    let v = vec![
        variant("m", "fam", "first", 1),
        variant("a", "fam", "other", 9),
        variant("m", "fam", "second", 2),
    ];
    let sorted = sort_variants(v);
    let quants: Vec<&str> = sorted.iter().map(|v| v.quant.as_str()).collect();
    assert_eq!(quants, vec!["other", "first", "second"]);
}
