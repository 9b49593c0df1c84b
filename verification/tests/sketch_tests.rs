use grepplus::sketch::{fixed_signature, looks_binary, shingles, signature_agreement, MinHasher, NUM_HASHES};

#[test]
fn identical_texts_high_jaccard() {
    let mh = MinHasher::new();
    let a = mh.signature("fn main() { println!(\"hello\"); }");
    let b = mh.signature("fn main() { println!(\"hello\"); }");
    assert_eq!(a.len(), NUM_HASHES);
    assert!(signature_agreement(&a, &b) as f32 / NUM_HASHES as f32 > 0.9);
}

#[test]
fn different_seeds_are_stable() {
    let a = MinHasher::new().signature("retry with backoff");
    let b = MinHasher::new().signature("retry with backoff");
    assert_eq!(a, b);
    let c = MinHasher::new().signature("completely unrelated words here");
    assert!(signature_agreement(&a, &c) < NUM_HASHES);
}

#[test]
fn word_shingles() {
    assert_eq!(shingles("a b c d"), vec!["a b c", "b c d"]);
    assert_eq!(shingles("Only two"), vec!["only", "two"]);
}

#[test]
fn binary_detection_and_signature_padding() {
    assert!(looks_binary(&[1, 2, 0, 3]));
    assert!(!looks_binary(b"plain text"));
    let mut late = vec![b'a'; 9000];
    late[8500] = 0;
    assert!(!looks_binary(&late));
    let sig = fixed_signature(&vec![5, 6]);
    assert_eq!(sig.len(), NUM_HASHES);
    assert_eq!(sig[0], 5);
    assert_eq!(sig[2], 0);
}
