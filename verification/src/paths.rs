//! Slash-separated paths as `std::path` treats them on Unix: joining and
//! component-wise suffix matching.
use vstd::prelude::*;
use crate::text::{chars_of, split_pieces, split_state, string_from_chars};

verus! {

/// `base.join(p)`: an absolute `p` replaces `base`; otherwise `p` is appended
/// after a `/` unless `base` is empty or already ends with one.
pub open spec fn joined(base: Seq<char>, p: Seq<char>) -> Seq<char> {
    if p.len() > 0 && p[0] == '/' {
        p
    } else if base.len() == 0 || base.last() == '/' {
        base + p
    } else {
        base + seq!['/'] + p
    }
}

/// `base.join(p)` for slash-separated paths.
pub fn join_path(base: &str, p: &str) -> (r: String)
    ensures
        r@ == joined(base@, p@),
{
    let bc = chars_of(base);
    let pc = chars_of(p);
    if pc.len() > 0 && pc[0] == '/' {
        return string_from_chars(&pc);
    }
    let mut out = string_from_chars(&bc);
    if !(bc.len() == 0 || bc[bc.len() - 1] == '/') {
        crate::text::push_char(&mut out, '/');
    }
    out.append(p);
    out
}

/// The `/`-separated pieces of `s` read so far, and the piece in progress.
pub open spec fn slash_split(s: Seq<char>) -> (Seq<Seq<char>>, Seq<char>) {
    split_state(s, '/')
}

/// The `/`-separated pieces of `s`, empty ones included.
pub open spec fn pieces(s: Seq<char>) -> Seq<Seq<char>> {
    split_pieces(s, '/')
}

/// A piece that names a component: not empty and not `.`.
pub open spec fn named_piece(x: Seq<char>) -> bool {
    x.len() > 0 && x != seq!['.']
}

/// `p` starts at the root.
pub open spec fn rooted(p: Seq<char>) -> bool {
    p.len() > 0 && p[0] == '/'
}

/// The leading components that are not named pieces: the root (written
/// `/`) of an absolute path, and the `.` a relative path starts with.
pub open spec fn head_components(p: Seq<char>, first: Seq<char>) -> Seq<Seq<char>> {
    if rooted(p) {
        seq![seq!['/']]
    } else if first == seq!['.'] {
        seq![seq!['.']]
    } else {
        Seq::empty()
    }
}

/// The named pieces of `xs`, in order.
pub open spec fn named_pieces(xs: Seq<Seq<char>>) -> Seq<Seq<char>>
    decreases xs.len(),
{
    if xs.len() == 0 {
        Seq::empty()
    } else if named_piece(xs.last()) {
        named_pieces(xs.drop_last()).push(xs.last())
    } else {
        named_pieces(xs.drop_last())
    }
}

/// `Path::components`: the root, a leading `.`, then the named pieces;
/// repeated separators, inner `.` pieces and a trailing `/` vanish.
pub open spec fn components(p: Seq<char>) -> Seq<Seq<char>> {
    head_components(p, pieces(p)[0]) + named_pieces(pieces(p))
}

/// `Path::ends_with`: the components of `child` end those of `path`.
pub open spec fn path_ends_with(path: Seq<char>, child: Seq<char>) -> bool {
    let a = components(path);
    let b = components(child);
    b.len() <= a.len() && a.skip(a.len() - b.len()) == b
}

/// Views of a vector of character vectors.
pub open spec fn char_vec_views(v: Seq<Vec<char>>) -> Seq<Seq<char>> {
    v.map_values(|x: Vec<char>| x@)
}

proof fn lemma_pieces_first(s: Seq<char>)
    ensures
        slash_split(s).0.len() > 0 ==> pieces(s)[0] == slash_split(s).0[0],
        slash_split(s).0.len() == 0 ==> pieces(s)[0] == slash_split(s).1,
{
}

proof fn lemma_first_piece_stable(s: Seq<char>, c: char)
    requires
        slash_split(s).0.len() > 0,
    ensures
        slash_split(s.push(c)).0.len() > 0,
        slash_split(s.push(c)).0[0] == slash_split(s).0[0],
{
    assert(s.push(c).drop_last() =~= s);
}

/// The components of `p`.
pub fn path_components(p: &str) -> (r: Vec<Vec<char>>)
    ensures
        char_vec_views(r@) == components(p@),
{
    let cs = chars_of(p);
    let ghost s = cs@;
    let is_rooted = cs.len() > 0 && cs[0] == '/';
    let mut named: Vec<Vec<char>> = Vec::new();
    let mut first: Vec<char> = Vec::new();
    let mut cur: Vec<char> = Vec::new();
    let mut seen_sep = false;
    let mut i: usize = 0;
    while i < cs.len()
        invariant
            i <= cs.len(),
            s == cs@,
            is_rooted == rooted(s),
            slash_split(s.take(i as int)).1 == cur@,
            seen_sep == (slash_split(s.take(i as int)).0.len() > 0),
            seen_sep ==> first@ == slash_split(s.take(i as int)).0[0],
            char_vec_views(named@) == named_pieces(slash_split(s.take(i as int)).0),
        decreases cs.len() - i,
    {
        let ghost pre = s.take(i as int);
        assert(s.take(i + 1).drop_last() =~= pre);
        assert(s.take(i + 1).last() == cs@[i as int]);
        let ghost done = slash_split(pre).0;
        if cs[i] == '/' {
            if !seen_sep {
                first = cur.clone();
            }
            let keep = cur.len() > 0 && !(cur.len() == 1 && cur[0] == '.');
            assert(keep == named_piece(cur@)) by {
                if cur@ == seq!['.'] {
                    assert(cur@.len() == 1 && cur@[0] == '.');
                }
                if cur@.len() == 1 && cur@[0] == '.' {
                    assert(cur@ =~= seq!['.']);
                }
            }
            let ghost before = char_vec_views(named@);
            assert(done.push(cur@).drop_last() =~= done);
            if keep {
                named.push(cur);
                assert(char_vec_views(named@) =~= before.push(slash_split(pre).1));
            }
            cur = Vec::new();
            seen_sep = true;
        } else {
            cur.push(cs[i]);
            if seen_sep {
                proof {
                    lemma_first_piece_stable(pre, cs@[i as int]);
                }
            }
        }
        i += 1;
    }
    assert(s.take(cs.len() as int) =~= s);
    if !seen_sep {
        first = cur.clone();
    }
    let ghost done = slash_split(s).0;
    let ghost all = pieces(s);
    assert(all.drop_last() =~= done);
    assert(all.last() == cur@);
    proof {
        lemma_pieces_first(s);
    }
    let keep = cur.len() > 0 && !(cur.len() == 1 && cur[0] == '.');
    assert(keep == named_piece(cur@)) by {
        if cur@ == seq!['.'] {
            assert(cur@.len() == 1 && cur@[0] == '.');
        }
        if cur@.len() == 1 && cur@[0] == '.' {
            assert(cur@ =~= seq!['.']);
        }
    }
    let ghost tail_before = char_vec_views(named@);
    if keep {
        named.push(cur);
        assert(char_vec_views(named@) =~= tail_before.push(all.last()));
    }
    let ghost tail = char_vec_views(named@);
    assert(tail == named_pieces(all));
    let first_is_dot = first.len() == 1 && first[0] == '.';
    assert(first_is_dot == (first@ == seq!['.'])) by {
        if first@ == seq!['.'] {
            assert(first@.len() == 1 && first@[0] == '.');
        }
        if first@.len() == 1 && first@[0] == '.' {
            assert(first@ =~= seq!['.']);
        }
    }
    let mut out: Vec<Vec<char>> = Vec::new();
    if is_rooted {
        let mut r: Vec<char> = Vec::new();
        r.push('/');
        out.push(r);
    } else if first_is_dot {
        let mut d: Vec<char> = Vec::new();
        d.push('.');
        out.push(d);
    }
    let ghost head = char_vec_views(out@);
    assert(head =~= head_components(s, all[0]));
    let mut j: usize = 0;
    while j < named.len()
        invariant
            j <= named.len(),
            char_vec_views(out@) == head + char_vec_views(named@).take(j as int),
        decreases named.len() - j,
    {
        let ghost before = char_vec_views(out@);
        out.push(named[j].clone());
        j += 1;
        assert(char_vec_views(out@) =~= before.push(named@[j - 1]@));
        assert(char_vec_views(named@).take(j as int) =~= char_vec_views(named@).take(j - 1).push(
            named@[j - 1]@,
        ));
    }
    assert(char_vec_views(named@).take(named.len() as int) =~= char_vec_views(named@));
    out
}

fn char_vecs_equal(a: &Vec<char>, b: &Vec<char>) -> (r: bool)
    ensures
        r == (a@ == b@),
{
    crate::text::chars_eq(a, b)
}

/// Whether `path` ends with the components of `child` (`Path::ends_with`).
pub fn path_suffix_match(path: &str, child: &str) -> (r: bool)
    ensures
        r == path_ends_with(path@, child@),
{
    let a = path_components(path);
    let b = path_components(child);
    let ghost av = char_vec_views(a@);
    let ghost bv = char_vec_views(b@);
    assert(av.len() == a.len() && bv.len() == b.len());
    if b.len() > a.len() {
        return false;
    }
    let off = a.len() - b.len();
    let mut k: usize = 0;
    while k < b.len()
        invariant
            k <= b.len() <= a.len(),
            off == a.len() - b.len(),
            av == char_vec_views(a@),
            bv == char_vec_views(b@),
            av == components(path@),
            bv == components(child@),
            forall|q: int| 0 <= q < k ==> av[off + q] == bv[q],
        decreases b.len() - k,
    {
        assert(av[off + k] == a@[off + k]@ && bv[k as int] == b@[k as int]@);
        if !char_vecs_equal(&a[off + k], &b[k]) {
            assert(av.skip(off as int)[k as int] != bv[k as int]);
            return false;
        }
        k += 1;
    }
    assert(av.skip(off as int) =~= bv);
    true
}

} // verus!
