//! Pinning verbatim exact-match hits above the fused ranking.
//!
//! Fusion itself scores in floating point and stays with the callers; what
//! is decided here is which ranked chunks are pinned, which are kept after
//! them, and in what order.
use vstd::prelude::*;
use crate::types::{chunk_key, overlaps, same_key, ChunkRef};

verus! {

/// Whether two chunks lie in the same file with overlapping line ranges.
pub fn chunks_overlap(a: &ChunkRef, b: &ChunkRef) -> (r: bool)
    ensures
        r == overlaps(*a, *b),
{
    a.start_line <= b.end_line && a.end_line >= b.start_line && a.file == b.file
}

/// `c` overlaps one of `pins`.
pub open spec fn overlaps_any(c: ChunkRef, pins: Seq<ChunkRef>) -> bool {
    exists|j: int| 0 <= j < pins.len() && overlaps(c, #[trigger] pins[j])
}

/// Some index of `idx` points at a chunk of `ranked` with key `k`.
pub open spec fn key_taken(ranked: Seq<ChunkRef>, idx: Seq<int>, k: (Seq<char>, u32, u32)) -> bool {
    exists|m: int| 0 <= m < idx.len() && chunk_key(ranked[#[trigger] idx[m]]) == k
}

/// Indices of the pinned chunks and of the others, in ranked order.  A
/// chunk overlapping an exact hit is pinned unless a chunk with its key
/// already was (it is then dropped); any other chunk is kept after them.
pub open spec fn pin_split(ranked: Seq<ChunkRef>, pins: Seq<ChunkRef>) -> (Seq<int>, Seq<int>)
    decreases ranked.len(),
{
    if ranked.len() == 0 {
        (Seq::empty(), Seq::empty())
    } else {
        let (p, r) = pin_split(ranked.drop_last(), pins);
        let i = ranked.len() - 1;
        let c = ranked.last();
        if overlaps_any(c, pins) {
            if key_taken(ranked.drop_last(), p, chunk_key(c)) {
                (p, r)
            } else {
                (p.push(i), r)
            }
        } else {
            (p, r.push(i))
        }
    }
}

/// Views of an index vector.
pub open spec fn index_view(v: Seq<usize>) -> Seq<int> {
    v.map_values(|i: usize| i as int)
}

fn overlaps_some_pin(c: &ChunkRef, pins: &Vec<ChunkRef>) -> (r: bool)
    ensures
        r == overlaps_any(*c, pins@),
{
    let mut j: usize = 0;
    while j < pins.len()
        invariant
            j <= pins.len(),
            forall|k: int| 0 <= k < j ==> !overlaps(*c, #[trigger] pins@[k]),
        decreases pins.len() - j,
    {
        if chunks_overlap(c, &pins[j]) {
            return true;
        }
        j += 1;
    }
    false
}

proof fn lemma_key_taken_prefix(ranked: Seq<ChunkRef>, n: int, idx: Seq<int>, k: (Seq<char>, u32, u32))
    requires
        0 <= n <= ranked.len(),
        forall|m: int| 0 <= m < idx.len() ==> 0 <= #[trigger] idx[m] < n,
    ensures
        key_taken(ranked.take(n), idx, k) == key_taken(ranked, idx, k),
{
    if key_taken(ranked, idx, k) {
        let m = choose|m: int| 0 <= m < idx.len() && chunk_key(ranked[#[trigger] idx[m]]) == k;
        assert(ranked.take(n)[idx[m]] == ranked[idx[m]]);
    }
    if key_taken(ranked.take(n), idx, k) {
        let m = choose|m: int| 0 <= m < idx.len() && chunk_key(ranked.take(n)[#[trigger] idx[m]]) == k;
        assert(ranked.take(n)[idx[m]] == ranked[idx[m]]);
    }
}

proof fn lemma_pin_split_bounds(ranked: Seq<ChunkRef>, pins: Seq<ChunkRef>)
    ensures
        forall|m: int|
            0 <= m < pin_split(ranked, pins).0.len() ==> 0 <= #[trigger] pin_split(ranked, pins).0[m]
                < ranked.len(),
        forall|m: int|
            0 <= m < pin_split(ranked, pins).1.len() ==> 0 <= #[trigger] pin_split(ranked, pins).1[m]
                < ranked.len(),
    decreases ranked.len(),
{
    if ranked.len() > 0 {
        let pre = ranked.drop_last();
        lemma_pin_split_bounds(pre, pins);
        let (p, r) = pin_split(pre, pins);
        let (p2, r2) = pin_split(ranked, pins);
        assert forall|m: int| 0 <= m < p2.len() implies 0 <= #[trigger] p2[m] < ranked.len() by {
            if m < p.len() {
                assert(p2[m] == p[m]);
            }
        }
        assert forall|m: int| 0 <= m < r2.len() implies 0 <= #[trigger] r2[m] < ranked.len() by {
            if m < r.len() {
                assert(r2[m] == r[m]);
            }
        }
    }
}

/// Splits `ranked` around the exact hits `pins`: the indices of the chunks
/// to pin at the top (first of each key, in ranked order) and of the chunks
/// that follow them unchanged.  Chunks whose key was already pinned are in
/// neither.
pub fn pin_exact_hits(ranked: &Vec<ChunkRef>, pins: &Vec<ChunkRef>) -> (r: (Vec<usize>, Vec<usize>))
    ensures
        (index_view(r.0@), index_view(r.1@)) == pin_split(ranked@, pins@),
{
    let mut pinned: Vec<usize> = Vec::new();
    let mut rest: Vec<usize> = Vec::new();
    let mut i: usize = 0;
    while i < ranked.len()
        invariant
            i <= ranked.len(),
            (index_view(pinned@), index_view(rest@)) == pin_split(ranked@.take(i as int), pins@),
        decreases ranked.len() - i,
    {
        let ghost pre = ranked@.take(i as int);
        let ghost cur = ranked@.take(i + 1);
        assert(cur.drop_last() =~= pre);
        assert(cur.last() == ranked@[i as int]);
        proof {
            lemma_pin_split_bounds(pre, pins@);
        }
        let c = &ranked[i];
        if overlaps_some_pin(c, pins) {
            let mut taken = false;
            let mut m: usize = 0;
            proof {
                assert forall|q: int| 0 <= q < pinned.len() implies 0 <= #[trigger] pinned@[q] < i by {
                    assert(index_view(pinned@)[q] == pinned@[q] as int);
                    assert(pin_split(pre, pins@).0[q] == pinned@[q] as int);
                }
            }
            while m < pinned.len() && !taken
                invariant
                    i < ranked.len(),
                    *c == ranked@[i as int],
                    pre == ranked@.take(i as int),
                    index_view(pinned@) == pin_split(pre, pins@).0,
                    forall|q: int| 0 <= q < pinned.len() ==> 0 <= #[trigger] pinned@[q] < i,
                    m <= pinned.len(),
                    !taken ==> forall|q: int|
                        0 <= q < m ==> chunk_key(pre[#[trigger] index_view(pinned@)[q]]) != chunk_key(
                            ranked@[i as int],
                        ),
                    taken ==> m < pinned.len() && chunk_key(pre[index_view(pinned@)[m as int]])
                        == chunk_key(ranked@[i as int]),
                decreases pinned.len() - m, if taken { 0nat } else { 1nat },
            {
                assert(index_view(pinned@)[m as int] == pinned@[m as int] as int);
                assert(pre[index_view(pinned@)[m as int]] == ranked@[pinned@[m as int] as int]);
                if same_key(&ranked[pinned[m]], c) {
                    taken = true;
                } else {
                    m += 1;
                }
            }
            proof {
                let pv = index_view(pinned@);
                if taken {
                    assert(chunk_key(pre[pv[m as int]]) == chunk_key(ranked@[i as int]));
                    assert(key_taken(pre, pv, chunk_key(ranked@[i as int])));
                } else {
                    assert(!key_taken(pre, pv, chunk_key(ranked@[i as int])));
                }
            }
            if !taken {
                let ghost before = index_view(pinned@);
                pinned.push(i);
                assert(index_view(pinned@) =~= before.push(i as int));
            }
        } else {
            let ghost before = index_view(rest@);
            rest.push(i);
            assert(index_view(rest@) =~= before.push(i as int));
        }
        i += 1;
    }
    assert(ranked@.take(ranked.len() as int) =~= ranked@);
    (pinned, rest)
}

/// What pinning keeps: every pinned chunk overlaps an exact hit, no kept
/// chunk after them does, no two pinned chunks share a key, and every
/// ranked chunk is pinned, kept, or shares its key with a pinned one.
pub proof fn lemma_pin_split_sound(ranked: Seq<ChunkRef>, pins: Seq<ChunkRef>)
    ensures
        forall|m: int|
            0 <= m < pin_split(ranked, pins).0.len() ==> {
                &&& 0 <= #[trigger] pin_split(ranked, pins).0[m] < ranked.len()
                &&& overlaps_any(ranked[pin_split(ranked, pins).0[m]], pins)
            },
        forall|m: int|
            0 <= m < pin_split(ranked, pins).1.len() ==> {
                &&& 0 <= #[trigger] pin_split(ranked, pins).1[m] < ranked.len()
                &&& !overlaps_any(ranked[pin_split(ranked, pins).1[m]], pins)
            },
        forall|m: int, q: int|
            0 <= m < q < pin_split(ranked, pins).0.len() ==> chunk_key(
                ranked[#[trigger] pin_split(ranked, pins).0[m]],
            ) != chunk_key(ranked[#[trigger] pin_split(ranked, pins).0[q]]),
        forall|i: int|
            0 <= i < ranked.len() ==> pin_split(ranked, pins).0.contains(i) || pin_split(
                ranked,
                pins,
            ).1.contains(i) || key_taken(ranked, pin_split(ranked, pins).0, chunk_key(
                #[trigger] ranked[i],
            )),
    decreases ranked.len(),
{
    if ranked.len() > 0 {
        let pre = ranked.drop_last();
        lemma_pin_split_sound(pre, pins);
        lemma_pin_split_bounds(pre, pins);
        let (p, r) = pin_split(pre, pins);
        let n = ranked.len() - 1;
        assert(pre =~= ranked.take(n));
        assert forall|k: (Seq<char>, u32, u32)| key_taken(pre, p, k) == key_taken(ranked, p, k) by {
            lemma_key_taken_prefix(ranked, n, p, k);
        }
        let (p2, r2) = pin_split(ranked, pins);
        assert forall|m: int| 0 <= m < p.len() implies ranked[#[trigger] p[m]] == pre[p[m]] by {}
        assert forall|m: int| 0 <= m < r.len() implies ranked[#[trigger] r[m]] == pre[r[m]] by {}
        assert forall|m: int| 0 <= m < p2.len() implies {
            &&& 0 <= #[trigger] p2[m] < ranked.len()
            &&& overlaps_any(ranked[p2[m]], pins)
        } by {
            if m < p.len() {
                assert(p2[m] == p[m]);
            }
        }
        assert forall|m: int| 0 <= m < r2.len() implies {
            &&& 0 <= #[trigger] r2[m] < ranked.len()
            &&& !overlaps_any(ranked[r2[m]], pins)
        } by {
            if m < r.len() {
                assert(r2[m] == r[m]);
            }
        }
        assert forall|m: int, q: int| 0 <= m < q < p2.len() implies chunk_key(
            ranked[#[trigger] p2[m]],
        ) != chunk_key(ranked[#[trigger] p2[q]]) by {
            if q < p.len() {
                assert(p2[m] == p[m] && p2[q] == p[q]);
            } else {
                assert(p2[m] == p[m]);
                assert(p2[q] == n);
                if chunk_key(ranked[p[m]]) == chunk_key(ranked[n]) {
                    assert(key_taken(ranked, p, chunk_key(ranked.last())));
                }
            }
        }
        assert forall|i: int| 0 <= i < ranked.len() implies p2.contains(i) || r2.contains(i)
            || key_taken(ranked, p2, chunk_key(#[trigger] ranked[i])) by {
            if i < n {
                assert(pre[i] == ranked[i]);
                if p.contains(i) {
                    let m = choose|m: int| 0 <= m < p.len() && p[m] == i;
                    assert(p2[m] == i);
                }
                if r.contains(i) {
                    let m = choose|m: int| 0 <= m < r.len() && r[m] == i;
                    assert(r2[m] == i);
                }
                if key_taken(pre, p, chunk_key(pre[i])) {
                    let m = choose|m: int| 0 <= m < p.len() && chunk_key(pre[#[trigger] p[m]])
                        == chunk_key(pre[i]);
                    assert(p2[m] == p[m]);
                    assert(chunk_key(ranked[p2[m]]) == chunk_key(ranked[i]));
                }
            } else {
                if overlaps_any(ranked.last(), pins) {
                    if key_taken(pre, p, chunk_key(ranked.last())) {
                        let m = choose|m: int| 0 <= m < p.len() && chunk_key(pre[#[trigger] p[m]])
                            == chunk_key(ranked.last());
                        assert(p2[m] == p[m]);
                        assert(chunk_key(ranked[p2[m]]) == chunk_key(ranked[i]));
                    } else {
                        assert(p2[p.len() as int] == i);
                    }
                } else {
                    assert(r2[r.len() as int] == i);
                }
            }
        }
    }
}

/// Which lists hybrid fusion combines, by which of lexical, semantic and
/// exact-pin results are present.
#[derive(Debug, Clone, Copy, PartialEq, Eq, Structural)]
pub enum FusionPlan {
    /// Only the exact pins (also when everything is empty).
    Pins,
    /// Only the semantic results.
    Semantic,
    /// Rank fusion of the pins with the semantic results.
    PinsSemantic,
    /// Only the lexical results.
    Lexical,
    /// The lexical fusion of the pins with the lexical results.
    PinsLexical,
    /// Rank fusion of lexical with semantic results.
    LexicalSemantic,
    /// The pins fused with the fusion of lexical and semantic results.
    All,
}

/// The fusion used for each combination of empty inputs; the pinned hits
/// are lifted to the top afterwards in every case.
pub open spec fn fusion_plan_spec(lexical_empty: bool, semantic_empty: bool, pins_empty: bool) -> FusionPlan {
    if lexical_empty {
        if semantic_empty {
            FusionPlan::Pins
        } else if pins_empty {
            FusionPlan::Semantic
        } else {
            FusionPlan::PinsSemantic
        }
    } else if semantic_empty {
        if pins_empty {
            FusionPlan::Lexical
        } else {
            FusionPlan::PinsLexical
        }
    } else if pins_empty {
        FusionPlan::LexicalSemantic
    } else {
        FusionPlan::All
    }
}

/// The fusion hybrid search applies.
pub fn fusion_plan(lexical_empty: bool, semantic_empty: bool, pins_empty: bool) -> (r: FusionPlan)
    ensures
        r == fusion_plan_spec(lexical_empty, semantic_empty, pins_empty),
{
    if lexical_empty {
        if semantic_empty {
            FusionPlan::Pins
        } else if pins_empty {
            FusionPlan::Semantic
        } else {
            FusionPlan::PinsSemantic
        }
    } else if semantic_empty {
        if pins_empty {
            FusionPlan::Lexical
        } else {
            FusionPlan::PinsLexical
        }
    } else if pins_empty {
        FusionPlan::LexicalSemantic
    } else {
        FusionPlan::All
    }
}

} // verus!
