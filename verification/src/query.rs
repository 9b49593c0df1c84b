//! Query classification: quoting, literal identifiers, regex syntax,
//! natural-language cues and word counts.
use vstd::prelude::*;
use crate::text::{
    ascii_lower, char_is_alphanumeric, chars_of, is_alphanumeric, is_whitespace, is_ws, to_ascii_lower,
    trim, trim_str,
};

verus! {

/// `s` is wrapped in a matching pair of double or single quotes.
pub open spec fn quoted(s: Seq<char>) -> bool {
    &&& s.len() >= 2
    &&& ((s[0] == '"' && s.last() == '"') || (s[0] == '\'' && s.last() == '\''))
}

/// `s` without its surrounding quotes, when it has them.
pub open spec fn stripped(s: Seq<char>) -> Seq<char> {
    if quoted(s) {
        s.subrange(1, s.len() - 1)
    } else {
        s
    }
}

/// A character with a meaning in extended regular expressions.
pub open spec fn is_regex_meta(c: char) -> bool {
    ||| c == '\\'
    ||| c == '^'
    ||| c == '$'
    ||| c == '*'
    ||| c == '+'
    ||| c == '?'
    ||| c == '('
    ||| c == ')'
    ||| c == '['
    ||| c == ']'
    ||| c == '{'
    ||| c == '}'
    ||| c == '|'
}

/// `s` holds a regex metacharacter.
pub open spec fn has_regex_meta(s: Seq<char>) -> bool {
    exists|i: int| 0 <= i < s.len() && is_regex_meta(#[trigger] s[i])
}

/// A character that may appear in an identifier-like literal.
pub open spec fn is_ident_char(c: char) -> bool {
    char_is_alphanumeric(c) || c == '_' || c == ':' || c == '.' || c == '-'
}

/// After trimming, `s` is one non-empty identifier-like token.
pub open spec fn literal(s: Seq<char>) -> bool {
    let t = trim(s);
    &&& t.len() > 0
    &&& forall|i: int| 0 <= i < t.len() ==> is_ident_char(#[trigger] t[i])
}

/// Number of white-space separated words (`split_whitespace().count()`).
pub open spec fn word_count(s: Seq<char>) -> nat
    decreases s.len(),
{
    if s.len() == 0 {
        0
    } else {
        word_count(s.drop_last()) + if !is_ws(s.last()) && (s.len() == 1 || is_ws(
            s[s.len() - 2],
        )) {
            1nat
        } else {
            0nat
        }
    }
}

/// Question words that mark a natural-language query.
pub open spec fn cue_words() -> Seq<Seq<char>> {
    seq![
        "where"@,
        "what"@,
        "how"@,
        "why"@,
        "when"@,
        "which"@,
        "who"@,
        "find"@,
        "show"@,
        "explain"@,
    ]
}

/// ASCII lowercase of every character.
pub open spec fn lower_ascii(s: Seq<char>) -> Seq<char> {
    s.map_values(|c: char| ascii_lower(c))
}

/// `t` begins with the word `w` (ASCII case-insensitively) followed by
/// white space.
pub open spec fn starts_with_word(t: Seq<char>, w: Seq<char>) -> bool {
    &&& t.len() > w.len()
    &&& lower_ascii(t.take(w.len() as int)) == w
    &&& is_ws(t[w.len() as int])
}

/// The trimmed query opens with a question word, or has four words or more.
pub open spec fn nl_cue(s: Seq<char>) -> bool {
    ||| exists|k: int| 0 <= k < cue_words().len() && starts_with_word(trim(s), #[trigger] cue_words()[k])
    ||| word_count(s) >= 4
}

/// Whether `q` is wrapped in matching quotes.
pub fn is_quoted(q: &str) -> (r: bool)
    ensures
        r == quoted(q@),
{
    let cs = chars_of(q);
    is_quoted_chars(&cs)
}

/// Whether `cs` is wrapped in matching quotes.
pub fn is_quoted_chars(cs: &Vec<char>) -> (r: bool)
    ensures
        r == quoted(cs@),
{
    if cs.len() < 2 {
        return false;
    }
    let first = cs[0];
    let last = cs[cs.len() - 1];
    (first == '"' && last == '"') || (first == '\'' && last == '\'')
}

/// `cs` without its surrounding quotes, when it has them.
pub fn strip_quotes(cs: &Vec<char>) -> (r: Vec<char>)
    ensures
        r@ == stripped(cs@),
{
    if !is_quoted_chars(cs) {
        return cs.clone();
    }
    let mut out: Vec<char> = Vec::new();
    let mut i: usize = 1;
    while i < cs.len() - 1
        invariant
            cs.len() >= 2,
            1 <= i <= cs.len() - 1,
            out@ == cs@.subrange(1, i as int),
        decreases cs.len() - i,
    {
        out.push(cs[i]);
        i += 1;
        assert(cs@.subrange(1, i as int) =~= cs@.subrange(1, i - 1).push(cs@[i - 1]));
    }
    out
}

fn is_regex_meta_char(c: char) -> (r: bool)
    ensures
        r == is_regex_meta(c),
{
    c == '\\' || c == '^' || c == '$' || c == '*' || c == '+' || c == '?' || c == '(' || c
        == ')' || c == '[' || c == ']' || c == '{' || c == '}' || c == '|'
}

/// Whether `q` holds a regex metacharacter.
pub fn has_regex_metacharacters(q: &str) -> (r: bool)
    ensures
        r == has_regex_meta(q@),
{
    let cs = chars_of(q);
    let mut i: usize = 0;
    while i < cs.len()
        invariant
            i <= cs.len(),
            cs@ == q@,
            forall|j: int| 0 <= j < i ==> !is_regex_meta(#[trigger] cs@[j]),
        decreases cs.len() - i,
    {
        if is_regex_meta_char(cs[i]) {
            return true;
        }
        i += 1;
    }
    false
}

fn is_ident_char_exec(c: char) -> (r: bool)
    ensures
        r == is_ident_char(c),
{
    is_alphanumeric(c) || c == '_' || c == ':' || c == '.' || c == '-'
}

/// Whether `q` is a single identifier-like token (the grep fast path).
pub fn is_literal_query(q: &str) -> (r: bool)
    ensures
        r == literal(q@),
{
    let t = trim_str(q);
    if t.len() == 0 {
        return false;
    }
    let mut i: usize = 0;
    while i < t.len()
        invariant
            i <= t.len(),
            t@ == trim(q@),
            forall|j: int| 0 <= j < i ==> is_ident_char(#[trigger] t@[j]),
        decreases t.len() - i,
    {
        if !is_ident_char_exec(t[i]) {
            assert(!is_ident_char(trim(q@)[i as int]));
            return false;
        }
        i += 1;
    }
    true
}

/// Number of white-space separated words of `cs`.
pub fn count_words(cs: &Vec<char>) -> (r: usize)
    ensures
        r == word_count(cs@),
{
    let mut n: usize = 0;
    let mut i: usize = 0;
    while i < cs.len()
        invariant
            i <= cs.len(),
            n == word_count(cs@.take(i as int)),
            n <= i,
        decreases cs.len() - i,
    {
        let starts = !is_whitespace(cs[i]) && (i == 0 || is_whitespace(cs[i - 1]));
        proof {
            let p = cs@.take(i as int + 1);
            assert(p.drop_last() =~= cs@.take(i as int));
            assert(p.last() == cs@[i as int]);
            if i > 0 {
                assert(p[p.len() - 2] == cs@[i - 1]);
            }
        }
        if starts {
            n += 1;
        }
        i += 1;
    }
    assert(cs@.take(cs.len() as int) =~= cs@);
    n
}

/// Whether the trimmed `t` begins with word `w` followed by white space.
fn starts_with_word_exec(t: &Vec<char>, w: &str) -> (r: bool)
    ensures
        r == starts_with_word(t@, w@),
{
    let wc = chars_of(w);
    if t.len() <= wc.len() {
        return false;
    }
    let mut i: usize = 0;
    while i < wc.len()
        invariant
            wc@ == w@,
            t.len() > wc.len(),
            i <= wc.len(),
            forall|j: int| 0 <= j < i ==> ascii_lower(#[trigger] t@[j]) == wc@[j],
        decreases wc.len() - i,
    {
        if to_ascii_lower(t[i]) != wc[i] {
            assert(lower_ascii(t@.take(w@.len() as int))[i as int] != w@[i as int]);
            return false;
        }
        i += 1;
    }
    assert(lower_ascii(t@.take(w@.len() as int)) =~= w@);
    is_whitespace(t[wc.len()])
}

/// Whether `q` reads as a natural-language question.
pub fn has_natural_language_cue(q: &str) -> (r: bool)
    ensures
        r == nl_cue(q@),
{
    let t = trim_str(q);
    let words: [&str; 10] = [
        "where",
        "what",
        "how",
        "why",
        "when",
        "which",
        "who",
        "find",
        "show",
        "explain",
    ];
    let ghost cw = cue_words();
    assert(cw.len() == 10);
    let mut k: usize = 0;
    while k < 10
        invariant
            k <= 10,
            t@ == trim(q@),
            cw == cue_words(),
            forall|j: int| 0 <= j < 10 ==> (#[trigger] words@[j])@ == cw[j],
            forall|j: int| 0 <= j < k ==> !starts_with_word(t@, #[trigger] cw[j]),
        decreases 10 - k,
    {
        if starts_with_word_exec(&t, words[k]) {
            return true;
        }
        k += 1;
    }
    let cs = chars_of(q);
    count_words(&cs) >= 4
}

} // verus!
