//! Query expansion for laser focus: tokenizing, identifier splitting and a
//! synonym dictionary, producing a sorted, duplicate-free term list.
use vstd::prelude::*;
use crate::order::{insert_all_sorted, insert_sorted, strictly_sorted, views};
use crate::types::GpError;
use crate::text::{
    ascii_lower, char_is_alphanumeric, char_is_lowercase, char_is_uppercase, chars_of,
    is_alphanumeric, is_lowercase, is_uppercase, str_to_lowercase, string_from_chars,
    to_ascii_lower, to_lowercase, utf8_len, utf8_len_at_least,
};

verus! {

/// A character that ends an identifier part.
pub open spec fn is_part_sep(c: char) -> bool {
    c == '_' || c == '-' || c == '.'
}

/// State of the identifier splitter: finished parts, current part, and
/// whether the previous character was lowercase.
pub type SplitState = (Seq<Seq<char>>, Seq<char>, bool);

/// One character of input fed to the identifier splitter.
pub open spec fn split_step(st: SplitState, ch: char) -> SplitState {
    let (parts, cur, prev_lower) = st;
    if is_part_sep(ch) {
        (if cur.len() > 0 {
            parts.push(cur)
        } else {
            parts
        }, Seq::empty(), false)
    } else if char_is_uppercase(ch) && prev_lower && cur.len() > 0 {
        (parts.push(cur), seq![ascii_lower(ch)], char_is_lowercase(ch))
    } else {
        (parts, cur.push(ascii_lower(ch)), char_is_lowercase(ch))
    }
}

/// The splitter's state after reading `s`.
pub open spec fn split_run(s: Seq<char>) -> SplitState
    decreases s.len(),
{
    if s.len() == 0 {
        (Seq::empty(), Seq::empty(), false)
    } else {
        split_step(split_run(s.drop_last()), s.last())
    }
}

/// Parts of an identifier: split at `_`, `-`, `.` and at a lowercase to
/// uppercase boundary, each part ASCII-lowercased.
pub open spec fn identifier_parts(s: Seq<char>) -> Seq<Seq<char>> {
    let (parts, cur, _) = split_run(s);
    if cur.len() > 0 {
        parts.push(cur)
    } else {
        parts
    }
}

/// A part is non-empty and holds no separator.
pub open spec fn good_part(p: Seq<char>) -> bool {
    p.len() > 0 && forall|i: int| 0 <= i < p.len() ==> !is_part_sep(#[trigger] p[i])
}

proof fn lemma_split_run_good(s: Seq<char>)
    ensures
        forall|i: int| 0 <= i < split_run(s).0.len() ==> good_part(#[trigger] split_run(s).0[i]),
        forall|i: int| 0 <= i < split_run(s).1.len() ==> !is_part_sep(#[trigger] split_run(s).1[i]),
        split_run(s).2 ==> split_run(s).1.len() > 0,
    decreases s.len(),
{
    if s.len() > 0 {
        lemma_split_run_good(s.drop_last());
        let st = split_run(s.drop_last());
        let ch = s.last();
        assert(!is_part_sep(ch) ==> !is_part_sep(ascii_lower(ch)));
        let st2 = split_step(st, ch);
        assert forall|i: int| 0 <= i < st2.1.len() implies !is_part_sep(#[trigger] st2.1[i]) by {
            if !is_part_sep(ch) && !(char_is_uppercase(ch) && st.2 && st.1.len() > 0) {
                if i < st.1.len() {
                    assert(st2.1[i] == st.1[i]);
                }
            }
        }
    }
}

/// Every part of a split identifier is non-empty and free of `_`, `-`, `.`.
pub proof fn lemma_identifier_parts_good(s: Seq<char>)
    ensures
        forall|i: int| 0 <= i < identifier_parts(s).len() ==> good_part(#[trigger] identifier_parts(s)[i]),
{
    lemma_split_run_good(s);
}

/// Splits an identifier into lowercase parts:
/// `"handleSessionRefresh"` gives `["handle", "session", "refresh"]`,
/// `"session_refresh"` gives `["session", "refresh"]`.
pub fn split_identifier(s: &str) -> (r: Vec<String>)
    ensures
        views(r@) == identifier_parts(s@),
{
    let cs = chars_of(s);
    let mut parts: Vec<String> = Vec::new();
    let mut cur: Vec<char> = Vec::new();
    let mut prev_lower = false;
    let mut i: usize = 0;
    while i < cs.len()
        invariant
            i <= cs.len(),
            cs@ == s@,
            (views(parts@), cur@, prev_lower) == split_run(cs@.take(i as int)),
        decreases cs.len() - i,
    {
        let ch = cs[i];
        proof {
            assert(cs@.take(i + 1).drop_last() =~= cs@.take(i as int));
        }
        if ch == '_' || ch == '-' || ch == '.' {
            if cur.len() > 0 {
                let ghost before = views(parts@);
                parts.push(string_from_chars(&cur));
                assert(views(parts@) =~= before.push(cur@));
            }
            cur = Vec::new();
            prev_lower = false;
        } else {
            if is_uppercase(ch) && prev_lower && cur.len() > 0 {
                let ghost before = views(parts@);
                parts.push(string_from_chars(&cur));
                assert(views(parts@) =~= before.push(cur@));
                cur = Vec::new();
            }
            cur.push(to_ascii_lower(ch));
            prev_lower = is_lowercase(ch);
        }
        i += 1;
    }
    assert(cs@.take(cs.len() as int) =~= cs@);
    if cur.len() > 0 {
        let ghost before = views(parts@);
        parts.push(string_from_chars(&cur));
        assert(views(parts@) =~= before.push(cur@));
    }
    parts
}

/// A character that belongs to a token: alphanumeric, or `_` when
/// `underscore` is set.
pub open spec fn is_token_char(c: char, underscore: bool) -> bool {
    char_is_alphanumeric(c) || (underscore && c == '_')
}

/// Tokenizer state: finished tokens and the current token.
pub type TokState = (Seq<Seq<char>>, Seq<char>);

/// The tokenizer's state after reading `s`.
pub open spec fn tok_run(s: Seq<char>, underscore: bool) -> TokState
    decreases s.len(),
{
    if s.len() == 0 {
        (Seq::empty(), Seq::empty())
    } else {
        let (toks, cur) = tok_run(s.drop_last(), underscore);
        if is_token_char(s.last(), underscore) {
            (toks, cur.push(s.last()))
        } else {
            (if cur.len() > 0 {
                toks.push(cur)
            } else {
                toks
            }, Seq::empty())
        }
    }
}

/// Maximal non-empty runs of token characters, in order.
pub open spec fn token_runs(s: Seq<char>, underscore: bool) -> Seq<Seq<char>> {
    let (toks, cur) = tok_run(s, underscore);
    if cur.len() > 0 {
        toks.push(cur)
    } else {
        toks
    }
}

/// Query tokens: runs of alphanumeric or `_` characters.
pub open spec fn tokens(s: Seq<char>) -> Seq<Seq<char>> {
    token_runs(s, true)
}

/// Every finished token of the tokenizer state is non-empty and made of
/// alphanumeric characters (and `_` when `underscore` is set); so is the
/// current token.
proof fn lemma_tok_run_chars(s: Seq<char>, underscore: bool)
    ensures
        forall|i: int|
            0 <= i < tok_run(s, underscore).0.len() ==> #[trigger] tok_run(s, underscore).0[i].len()
                > 0,
        forall|i: int, j: int|
            0 <= i < tok_run(s, underscore).0.len() && 0 <= j < tok_run(s, underscore).0[i].len()
                ==> char_is_alphanumeric(#[trigger] tok_run(s, underscore).0[i][j]) || (underscore
                && tok_run(s, underscore).0[i][j] == '_'),
        forall|j: int|
            0 <= j < tok_run(s, underscore).1.len() ==> char_is_alphanumeric(
                #[trigger] tok_run(s, underscore).1[j],
            ) || (underscore && tok_run(s, underscore).1[j] == '_'),
    decreases s.len(),
{
    if s.len() > 0 {
        lemma_tok_run_chars(s.drop_last(), underscore);
        let (toks, cur) = tok_run(s.drop_last(), underscore);
        if is_token_char(s.last(), underscore) {
            assert forall|j: int| 0 <= j < cur.push(s.last()).len() implies char_is_alphanumeric(
                #[trigger] cur.push(s.last())[j],
            ) || (underscore && cur.push(s.last())[j] == '_') by {
                if j < cur.len() {
                    assert(cur.push(s.last())[j] == cur[j]);
                }
            }
        } else if cur.len() > 0 {
            let t2 = toks.push(cur);
            assert forall|i: int, j: int| 0 <= i < t2.len() && 0 <= j < t2[i].len() implies
                char_is_alphanumeric(#[trigger] t2[i][j]) || (underscore && t2[i][j] == '_') by {
                if i < toks.len() {
                    assert(t2[i] == toks[i]);
                } else {
                    assert(t2[i] == cur);
                }
            }
            assert forall|i: int| 0 <= i < t2.len() implies #[trigger] t2[i].len() > 0 by {
                if i < toks.len() {
                    assert(t2[i] == toks[i]);
                }
            }
        }
    }
}

/// Tokens are split at every other character: each token is non-empty and
/// every one of its characters is alphanumeric, or `_` when `underscore` is
/// set.  No separator such as `-`, `.` or a space ever stands in a token.
pub proof fn lemma_token_chars(s: Seq<char>, underscore: bool)
    ensures
        forall|i: int| 0 <= i < token_runs(s, underscore).len() ==> #[trigger] token_runs(
            s,
            underscore,
        )[i].len() > 0,
        forall|i: int, j: int|
            0 <= i < token_runs(s, underscore).len() && 0 <= j < token_runs(s, underscore)[i].len()
                ==> char_is_alphanumeric(#[trigger] token_runs(s, underscore)[i][j]) || (underscore
                && token_runs(s, underscore)[i][j] == '_'),
{
    lemma_tok_run_chars(s, underscore);
    let (toks, cur) = tok_run(s, underscore);
    let r = token_runs(s, underscore);
    if cur.len() > 0 {
        assert(r == toks.push(cur));
        assert forall|i: int, j: int| 0 <= i < r.len() && 0 <= j < r[i].len() implies
            char_is_alphanumeric(#[trigger] r[i][j]) || (underscore && r[i][j] == '_') by {
            if i < toks.len() {
                assert(r[i] == toks[i]);
            } else {
                assert(r[i] == cur);
            }
        }
        assert forall|i: int| 0 <= i < r.len() implies #[trigger] r[i].len() > 0 by {
            if i < toks.len() {
                assert(r[i] == toks[i]);
            }
        }
    }
}

/// Splits `q` into maximal non-empty runs of token characters.
pub fn split_runs(q: &str, underscore: bool) -> (r: Vec<String>)
    ensures
        views(r@) == token_runs(q@, underscore),
{
    let cs = chars_of(q);
    let mut toks: Vec<String> = Vec::new();
    let mut cur: Vec<char> = Vec::new();
    let mut i: usize = 0;
    while i < cs.len()
        invariant
            i <= cs.len(),
            cs@ == q@,
            (views(toks@), cur@) == tok_run(cs@.take(i as int), underscore),
        decreases cs.len() - i,
    {
        let ch = cs[i];
        proof {
            assert(cs@.take(i + 1).drop_last() =~= cs@.take(i as int));
        }
        if is_alphanumeric(ch) || (underscore && ch == '_') {
            cur.push(ch);
        } else {
            if cur.len() > 0 {
                let ghost before = views(toks@);
                toks.push(string_from_chars(&cur));
                assert(views(toks@) =~= before.push(cur@));
            }
            cur = Vec::new();
        }
        i += 1;
    }
    assert(cs@.take(cs.len() as int) =~= cs@);
    if cur.len() > 0 {
        let ghost before = views(toks@);
        toks.push(string_from_chars(&cur));
        assert(views(toks@) =~= before.push(cur@));
    }
    toks
}

/// Splits a query into tokens of alphanumeric and `_` characters.
pub fn tokenize(q: &str) -> (r: Vec<String>)
    ensures
        views(r@) == tokens(q@),
{
    split_runs(q, true)
}

/// One dictionary entry: a lowercase term and its synonyms.
pub struct SynonymEntry {
    pub term: String,
    pub synonyms: Vec<String>,
}

/// Static synonym dictionary.
pub struct Expander {
    entries: Vec<SynonymEntry>,
}

/// The synonyms of `key` in `entries`: those of the first entry for it.
pub open spec fn synonyms_of(entries: Seq<SynonymEntry>, key: Seq<char>) -> Seq<Seq<char>>
    decreases entries.len(),
{
    if entries.len() == 0 {
        Seq::empty()
    } else if entries[0].term@ == key {
        views(entries[0].synonyms@)
    } else {
        synonyms_of(entries.drop_first(), key)
    }
}

/// `t` is a synonym of the lowercase form of `tok`.
pub open spec fn synonym_term(entries: Seq<SynonymEntry>, tok: Seq<char>, t: Seq<char>) -> bool {
    synonyms_of(entries, str_to_lowercase(tok)).contains(t)
}

/// `t` is an identifier part of `tok` of 3 bytes or more.
pub open spec fn part_term(tok: Seq<char>, t: Seq<char>) -> bool {
    identifier_parts(tok).contains(t) && utf8_len(t) >= 3
}

/// `t` is a term that query token `tok` contributes: the token itself, a
/// synonym of its lowercase form, or an identifier part of 3 bytes or more.
pub open spec fn token_term(entries: Seq<SynonymEntry>, tok: Seq<char>, t: Seq<char>) -> bool {
    t == tok || synonym_term(entries, tok, t) || part_term(tok, t)
}

/// `t` is contributed by one of the first `k` tokens of `toks`.
pub open spec fn terms_upto(
    entries: Seq<SynonymEntry>,
    toks: Seq<Seq<char>>,
    k: int,
    t: Seq<char>,
) -> bool {
    exists|j: int| 0 <= j < k && token_term(entries, #[trigger] toks[j], t)
}

/// `t` is one of the expansion terms of query `q`.
pub open spec fn expansion_term(entries: Seq<SynonymEntry>, q: Seq<char>, t: Seq<char>) -> bool {
    terms_upto(entries, tokens(q), tokens(q).len() as int, t)
}

proof fn lemma_terms_upto_step(
    entries: Seq<SynonymEntry>,
    toks: Seq<Seq<char>>,
    k: int,
    t: Seq<char>,
)
    requires
        0 <= k < toks.len(),
    ensures
        terms_upto(entries, toks, k + 1, t) <==> (terms_upto(entries, toks, k, t) || token_term(
            entries,
            toks[k],
            t,
        )),
{
    if terms_upto(entries, toks, k + 1, t) {
        let j = choose|j: int| 0 <= j < k + 1 && token_term(entries, #[trigger] toks[j], t);
        if j < k {
            assert(terms_upto(entries, toks, k, t));
        }
    }
    if terms_upto(entries, toks, k, t) {
        let j = choose|j: int| 0 <= j < k && token_term(entries, #[trigger] toks[j], t);
        assert(0 <= j < k + 1 && token_term(entries, toks[j], t));
    }
    if token_term(entries, toks[k], t) {
        assert(0 <= k < k + 1 && token_term(entries, toks[k], t));
    }
}

/// The term lists of a TOML table of string arrays, by key in ascending
/// order; `None` when the text is not such a table (a function of the text
/// alone).
pub uninterp spec fn toml_term_lists(raw: Seq<char>) -> Option<Seq<(Seq<char>, Seq<Seq<char>>)>>;

/// `toml::from_str` into a map from strings to string arrays, read back as
/// dictionary entries in key order; `None` when parsing fails.
#[verifier::external_body]
fn parse_term_lists(raw: &str) -> (r: Option<Vec<SynonymEntry>>)
    ensures
        toml_term_lists(raw@) is None ==> r is None,
        toml_term_lists(raw@) matches Some(es) ==> (r matches Some(v) && v@.len() == es.len()
            && forall|i: int|
            0 <= i < v@.len() ==> (#[trigger] v@[i]).term@ == es[i].0 && views(v@[i].synonyms@)
                == es[i].1),
{
    match toml::from_str::<std::collections::BTreeMap<String, Vec<String>>>(raw) {
        Ok(m) => Some(m.into_iter().map(|(term, synonyms)| SynonymEntry { term, synonyms }).collect()),
        Err(_) => None,
    }
}

impl Expander {
    /// The dictionary's entries.
    pub closed spec fn entries(&self) -> Seq<SynonymEntry> {
        self.entries@
    }

    /// A dictionary with the given entries.
    pub fn new(entries: Vec<SynonymEntry>) -> (r: Self)
        ensures
            r.entries() == entries@,
    {
        Expander { entries }
    }

    /// The dictionary written as a TOML table from each term to its
    /// synonyms; an error when the text is not such a table.
    pub fn from_toml(raw: &str) -> (r: Result<Self, GpError>)
        ensures
            toml_term_lists(raw@) is None ==> (r matches Err(GpError::Config(m)) && m@
                == "invalid expand.toml"@),
            toml_term_lists(raw@) matches Some(es) ==> (r matches Ok(e) && e.entries().len()
                == es.len() && forall|i: int|
                0 <= i < es.len() ==> (#[trigger] e.entries()[i]).term@ == es[i].0 && views(
                    e.entries()[i].synonyms@,
                ) == es[i].1),
    {
        match parse_term_lists(raw) {
            Some(entries) => Ok(Expander { entries }),
            None => Err(GpError::Config(String::from_str("invalid expand.toml"))),
        }
    }

    fn lookup(&self, key: &String) -> (r: Option<&Vec<String>>)
        ensures
            r matches Some(v) ==> views(v@) == synonyms_of(self.entries(), key@),
            r is None ==> synonyms_of(self.entries(), key@) == Seq::<Seq<char>>::empty(),
    {
        let mut i: usize = 0;
        assert(self.entries@.skip(0) =~= self.entries@);
        while i < self.entries.len()
            invariant
                i <= self.entries@.len(),
                synonyms_of(self.entries@, key@) == synonyms_of(
                    self.entries@.skip(i as int),
                    key@,
                ),
            decreases self.entries.len() - i,
        {
            proof {
                assert(self.entries@.skip(i as int).drop_first() =~= self.entries@.skip(i + 1));
            }
            if self.entries[i].term == *key {
                return Some(&self.entries[i].synonyms);
            }
            i += 1;
        }
        None
    }

    /// Expands a query into grep terms: its tokens, their synonyms and their
    /// identifier parts of 3 bytes or more; sorted and without duplicates.
    pub fn expand(&self, query: &str) -> (r: Vec<String>)
        ensures
            strictly_sorted(views(r@)),
            forall|t: Seq<char>|
                views(r@).contains(t) <==> expansion_term(self.entries(), query@, t),
    {
        let toks = tokenize(query);
        let ghost tq = tokens(query@);
        let mut terms: Vec<String> = Vec::new();
        let mut k: usize = 0;
        while k < toks.len()
            invariant
                k <= toks.len(),
                views(toks@) == tq,
                tq == tokens(query@),
                strictly_sorted(views(terms@)),
                forall|t: Seq<char>|
                    #![trigger views(terms@).contains(t)]
                    views(terms@).contains(t) <==> terms_upto(self.entries(), tq, k as int, t),
            decreases toks.len() - k,
        {
            let tok = &toks[k];
            let ghost tk = tok@;
            assert(tk == tq[k as int]);
            let ghost prev = views(terms@);
            insert_sorted(&mut terms, tok.clone());
            let ghost after_tok = views(terms@);
            let lower = to_lowercase(tok.as_str());
            let ghost syn_views = synonyms_of(self.entries(), str_to_lowercase(tk));
            match self.lookup(&lower) {
                Some(syns) => {
                    insert_all_sorted(&mut terms, syns);
                },
                None => {},
            }
            let ghost mid = views(terms@);
            assert forall|t: Seq<char>|
                mid.contains(t) <==> (after_tok.contains(t) || syn_views.contains(t)) by {}
            let parts = split_identifier(tok.as_str());
            let long = long_parts(&parts);
            insert_all_sorted(&mut terms, &long);
            proof {
                assert forall|t: Seq<char>| #![trigger views(terms@).contains(t)]
                    views(terms@).contains(t) <==> terms_upto(self.entries(), tq, k + 1, t) by {
                    lemma_terms_upto_step(self.entries(), tq, k as int, t);
                    assert(prev.contains(t) <==> terms_upto(self.entries(), tq, k as int, t));
                    assert(after_tok.contains(t) <==> (prev.contains(t) || t == tk));
                    assert(views(long@).contains(t) <==> part_term(tk, t));
                }
            }
            k += 1;
        }
        terms
    }
}

/// The parts of 3 bytes or more.
fn long_parts(parts: &Vec<String>) -> (r: Vec<String>)
    ensures
        forall|t: Seq<char>|
            views(r@).contains(t) <==> (views(parts@).contains(t) && utf8_len(t) >= 3),
{
    let ghost pv = views(parts@);
    let mut out: Vec<String> = Vec::new();
    let mut i: usize = 0;
    while i < parts.len()
        invariant
            i <= parts.len(),
            pv == views(parts@),
            forall|t: Seq<char>|
                #![trigger views(out@).contains(t)]
                views(out@).contains(t) <==> (pv.take(i as int).contains(t) && utf8_len(t) >= 3),
        decreases parts.len() - i,
    {
        let pc = chars_of(parts[i].as_str());
        let ghost before = views(out@);
        if utf8_len_at_least(&pc, 3) {
            out.push(parts[i].clone());
            assert(views(out@) =~= before.push(pv[i as int]));
        }
        i += 1;
        proof {
            assert(pv.take(i as int) =~= pv.take(i - 1).push(pv[i - 1]));
            assert forall|t: Seq<char>| #![trigger views(out@).contains(t)]
                views(out@).contains(t) <==> (pv.take(i as int).contains(t) && utf8_len(t)
                    >= 3) by {
                crate::order::lemma_contains_push(pv.take(i - 1), pv[i - 1], t);
                crate::order::lemma_contains_push(before, pv[i - 1], t);
                assert(before.contains(t) <==> (pv.take(i - 1).contains(t) && utf8_len(t) >= 3));
            }
        }
    }
    assert(pv.take(parts@.len() as int) =~= pv);
    out
}

} // verus!
