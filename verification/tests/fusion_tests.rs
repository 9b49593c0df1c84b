use grepplus::fusion::{chunks_overlap, fusion_plan, pin_exact_hits, FusionPlan};
use grepplus::types::ChunkRef;

fn chunk(file: &str, line: u32) -> ChunkRef {
    ChunkRef {
        file: file.to_string(),
        chunk_id: line,
        start_line: line,
        end_line: line + 5,
        byte_start: 0,
        byte_end: 100,
    }
}

#[test]
fn overlapping_chunks() {
    assert!(chunks_overlap(&chunk("a.rs", 40), &chunk("a.rs", 42)));
    assert!(chunks_overlap(&chunk("a.rs", 42), &chunk("a.rs", 47)));
    assert!(!chunks_overlap(&chunk("a.rs", 40), &chunk("a.rs", 46)));
    assert!(!chunks_overlap(&chunk("a.rs", 40), &chunk("b.rs", 40)));
}

#[test]
fn exact_hits_are_pinned_first() {
    // Ranked: semantic chunk first, then the chunk holding the exact hit.
    let ranked = vec![chunk("a.rs", 2), chunk("a.rs", 40), chunk("a.rs", 40), chunk("b.rs", 7)];
    let pins = vec![chunk("a.rs", 42)];
    let (pinned, rest) = pin_exact_hits(&ranked, &pins);
    assert_eq!(pinned, vec![1]);
    assert_eq!(rest, vec![0, 3]);
    let top = &ranked[pinned[0]];
    assert!(top.start_line <= 42 && top.end_line >= 42);
}

#[test]
fn no_pins_keeps_ranking() {
    let ranked = vec![chunk("a.rs", 2), chunk("a.rs", 40)];
    let (pinned, rest) = pin_exact_hits(&ranked, &vec![]);
    assert!(pinned.is_empty());
    assert_eq!(rest, vec![0, 1]);
}

#[test]
fn fusion_plans() {
    assert_eq!(fusion_plan(true, true, true), FusionPlan::Pins);
    assert_eq!(fusion_plan(true, false, true), FusionPlan::Semantic);
    assert_eq!(fusion_plan(true, false, false), FusionPlan::PinsSemantic);
    assert_eq!(fusion_plan(false, true, true), FusionPlan::Lexical);
    assert_eq!(fusion_plan(false, true, false), FusionPlan::PinsLexical);
    assert_eq!(fusion_plan(false, false, true), FusionPlan::LexicalSemantic);
    assert_eq!(fusion_plan(false, false, false), FusionPlan::All);
}
