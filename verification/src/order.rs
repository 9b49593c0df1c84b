//! Lexicographic order on strings (by code point, which is the byte order of
//! their UTF-8 encodings) and sorted, duplicate-free string vectors.
use vstd::prelude::*;

verus! {

/// `a` sorts strictly before `b`.
pub open spec fn seq_lt(a: Seq<char>, b: Seq<char>) -> bool
    decreases a.len(),
{
    if a.len() == 0 {
        b.len() > 0
    } else if b.len() == 0 {
        false
    } else if a[0] != b[0] {
        a[0] < b[0]
    } else {
        seq_lt(a.drop_first(), b.drop_first())
    }
}

/// No string sorts before itself.
pub proof fn lemma_lt_irreflexive(a: Seq<char>)
    ensures
        !seq_lt(a, a),
    decreases a.len(),
{
    if a.len() > 0 {
        lemma_lt_irreflexive(a.drop_first());
    }
}

/// The order is transitive.
pub proof fn lemma_lt_transitive(a: Seq<char>, b: Seq<char>, c: Seq<char>)
    requires
        seq_lt(a, b),
        seq_lt(b, c),
    ensures
        seq_lt(a, c),
    decreases a.len(),
{
    if a.len() > 0 && b.len() > 0 && c.len() > 0 && a[0] == b[0] && b[0] == c[0] {
        lemma_lt_transitive(a.drop_first(), b.drop_first(), c.drop_first());
    }
}

/// Two distinct strings are ordered one way or the other.
pub proof fn lemma_lt_total(a: Seq<char>, b: Seq<char>)
    ensures
        a == b || seq_lt(a, b) || seq_lt(b, a),
    decreases a.len(),
{
    if a.len() > 0 && b.len() > 0 {
        if a[0] == b[0] {
            lemma_lt_total(a.drop_first(), b.drop_first());
            if a.drop_first() == b.drop_first() {
                assert(a =~= seq![a[0]] + a.drop_first());
                assert(b =~= seq![b[0]] + b.drop_first());
            }
        }
    } else if a.len() == 0 && b.len() == 0 {
        assert(a =~= b);
    }
}

/// Whether `a` sorts strictly before `b`.
pub fn chars_lt(a: &Vec<char>, b: &Vec<char>) -> (r: bool)
    ensures
        r == seq_lt(a@, b@),
{
    let mut i: usize = 0;
    assert(a@.skip(0) =~= a@ && b@.skip(0) =~= b@);
    while i < a.len() && i < b.len() && a[i] == b[i]
        invariant
            i <= a.len(),
            i <= b.len(),
            forall|j: int| 0 <= j < i ==> a@[j] == b@[j],
            seq_lt(a@, b@) == seq_lt(a@.skip(i as int), b@.skip(i as int)),
        decreases a.len() - i,
    {
        proof {
            let sa = a@.skip(i as int);
            let sb = b@.skip(i as int);
            assert(sa.drop_first() =~= a@.skip(i + 1));
            assert(sb.drop_first() =~= b@.skip(i + 1));
        }
        i += 1;
    }
    if i == a.len() {
        i < b.len()
    } else if i == b.len() {
        false
    } else {
        a[i] < b[i]
    }
}

/// Every earlier string of `s` sorts strictly before every later one.
pub open spec fn strictly_sorted(s: Seq<Seq<char>>) -> bool {
    forall|i: int, j: int| 0 <= i < j < s.len() ==> seq_lt(#[trigger] s[i], #[trigger] s[j])
}

/// The views of a vector of strings.
pub open spec fn views(v: Seq<String>) -> Seq<Seq<char>> {
    v.map_values(|s: String| s@)
}

/// Appending `x` adds exactly `x` to what a sequence contains.
pub proof fn lemma_contains_push<A>(s: Seq<A>, x: A, t: A)
    ensures
        s.push(x).contains(t) <==> (s.contains(t) || t == x),
{
    if s.contains(t) {
        let i = choose|i: int| 0 <= i < s.len() && s[i] == t;
        assert(s.push(x)[i] == t);
    }
    if t == x {
        assert(s.push(x)[s.len() as int] == t);
    }
    if s.push(x).contains(t) {
        let i = choose|i: int| 0 <= i < s.push(x).len() && s.push(x)[i] == t;
        if i < s.len() {
            assert(s[i] == t);
        }
    }
}

/// Inserts `x` into the strictly sorted `v`, unless it is already there.
pub fn insert_sorted(v: &mut Vec<String>, x: String)
    requires
        strictly_sorted(views(old(v)@)),
    ensures
        strictly_sorted(views(final(v)@)),
        forall|t: Seq<char>|
            views(final(v)@).contains(t) <==> (views(old(v)@).contains(t) || t == x@),
{
    let xc = crate::text::chars_of(x.as_str());
    let mut i: usize = 0;
    let ghost s0 = views(v@);
    let mut found = false;
    while !found && i < v.len()
        invariant
            i <= v.len(),
            v@ == old(v)@,
            s0 == views(v@),
            xc@ == x@,
            forall|j: int| 0 <= j < i ==> seq_lt(#[trigger] s0[j], x@),
            found ==> i < v.len() && !seq_lt(s0[i as int], x@),
        decreases v.len() - i, if found { 0nat } else { 1nat },
    {
        let vc = crate::text::chars_of(v[i].as_str());
        if !chars_lt(&vc, &xc) {
            found = true;
        } else {
            i += 1;
        }
    }
    proof {
        assert(s0.len() == v@.len());
    }
    if i < v.len() {
        let vc = crate::text::chars_of(v[i].as_str());
        if crate::text::chars_eq(&vc, &xc) {
            proof {
                assert forall|t: Seq<char>| views(v@).contains(t) <==> (s0.contains(t) || t
                    == x@) by {
                    if t == x@ {
                        assert(s0[i as int] == t);
                    }
                }
            }
            return;
        }
        proof {
            lemma_lt_total(s0[i as int], x@);
        }
    }
    v.insert(i, x);
    proof {
        let s1 = views(v@);
        assert(s1.len() == s0.len() + 1);
        assert forall|k: int| 0 <= k < s1.len() implies #[trigger] s1[k] == (if k < i {
            s0[k]
        } else if k == i {
            x@
        } else {
            s0[k - 1]
        }) by {}
        assert forall|a: int, b: int| 0 <= a < b < s1.len() implies seq_lt(
            #[trigger] s1[a],
            #[trigger] s1[b],
        ) by {
            if b < i {
            } else if b == i {
            } else if a < i {
                lemma_lt_transitive(s0[a], x@, s0[i as int]);
                if b - 1 > i {
                    lemma_lt_transitive(s0[a], s0[i as int], s0[b - 1]);
                }
            } else if a == i {
                if b - 1 > i {
                    lemma_lt_transitive(x@, s0[i as int], s0[b - 1]);
                }
            } else {
            }
        }
        assert forall|t: Seq<char>| s1.contains(t) <==> (s0.contains(t) || t == x@) by {
            if s1.contains(t) {
                let k = choose|k: int| 0 <= k < s1.len() && s1[k] == t;
                if k < i {
                    assert(s0[k] == t);
                } else if k > i {
                    assert(s0[k - 1] == t);
                }
            }
            if s0.contains(t) {
                let k = choose|k: int| 0 <= k < s0.len() && s0[k] == t;
                if k < i {
                    assert(s1[k] == t);
                } else {
                    assert(s1[k + 1] == t);
                }
            }
            if t == x@ {
                assert(s1[i as int] == t);
            }
        }
    }
}

/// Inserts every string of `items` into the strictly sorted `v`, skipping
/// those already there.
pub fn insert_all_sorted(v: &mut Vec<String>, items: &Vec<String>)
    requires
        strictly_sorted(views(old(v)@)),
    ensures
        strictly_sorted(views(final(v)@)),
        forall|t: Seq<char>|
            #![trigger views(final(v)@).contains(t)]
            views(final(v)@).contains(t) <==> (views(old(v)@).contains(t) || views(
                items@,
            ).contains(t)),
{
    let ghost iv = views(items@);
    let mut i: usize = 0;
    while i < items.len()
        invariant
            i <= items.len(),
            iv == views(items@),
            strictly_sorted(views(v@)),
            forall|t: Seq<char>|
                #![trigger views(v@).contains(t)]
                views(v@).contains(t) <==> (views(old(v)@).contains(t) || iv.take(
                    i as int,
                ).contains(t)),
        decreases items.len() - i,
    {
        let item = items[i].clone();
        let ghost before = views(v@);
        insert_sorted(v, item);
        i += 1;
        proof {
            assert(iv.take(i as int) =~= iv.take(i - 1).push(iv[i - 1]));
            assert forall|t: Seq<char>| #![trigger views(v@).contains(t)]
                views(v@).contains(t) <==> (views(old(v)@).contains(t) || iv.take(
                    i as int,
                ).contains(t)) by {
                lemma_contains_push(iv.take(i - 1), iv[i - 1], t);
                assert(before.contains(t) <==> (views(old(v)@).contains(t) || iv.take(
                    i - 1,
                ).contains(t)));
            }
        }
    }
    assert(iv.take(items@.len() as int) =~= iv);
}

} // verus!
