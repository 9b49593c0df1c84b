//! Lexical backends: choosing one, the exact-match channel, the `grep`
//! command line and the parser of its `path:line:content` output.
use vstd::prelude::*;
use vstd::utf8::{decode_utf8, encode_utf8, valid_utf8};
use crate::catalog::clone_strings;
use crate::engine::GrepOptions;
use crate::query::{is_literal_query, is_quoted_chars, literal, quoted, strip_quotes, stripped};
use crate::text::{
    all_digits, chars_of, decimal, digits_value, is_digit, own, str_eq, string_from_chars, trim,
    trim_str, u64_to_decimal, without_plus,
};
use crate::types::{ChunkRef, GpError, GrepHit};

verus! {

// ---------------------------------------------------------------------
// Choosing a backend.

/// The lexical backend a search runs on.
#[derive(Debug)]
pub enum GrepBackend {
    /// The in-process parallel scanner.
    Parallel,
    /// The external `rg` binary at this path.
    Ripgrep(String),
}

/// Backend for the command line: `rg` only when the configuration asks for
/// `ripgrep` and one was found (`rg` is what discovery returned).
pub fn resolve_cli_backend(backend: &str, rg: Option<String>) -> (r: GrepBackend)
    ensures
        backend@ == "ripgrep"@ && rg is Some ==> r == GrepBackend::Ripgrep(rg->0),
        !(backend@ == "ripgrep"@ && rg is Some) ==> r is Parallel,
{
    if str_eq(backend, "ripgrep") {
        if let Some(path) = rg {
            return GrepBackend::Ripgrep(path);
        }
    }
    GrepBackend::Parallel
}

/// Backend of the exact-match channel of hybrid search: `ripgrep` and
/// `auto` use a found `rg`; everything else scans in process.
pub fn resolve_exact_backend(backend: &str, rg: Option<String>) -> (r: GrepBackend)
    ensures
        (backend@ == "ripgrep"@ || backend@ == "auto"@) && rg is Some ==> r
            == GrepBackend::Ripgrep(rg->0),
        !((backend@ == "ripgrep"@ || backend@ == "auto"@) && rg is Some) ==> r is Parallel,
{
    if str_eq(backend, "ripgrep") {
        resolve_cli_backend("ripgrep", rg)
    } else if str_eq(backend, "auto") {
        match rg {
            Some(path) => GrepBackend::Ripgrep(path),
            None => GrepBackend::Parallel,
        }
    } else {
        GrepBackend::Parallel
    }
}

/// The pattern the exact channel greps for, and whether it is a fixed
/// string: literal or quoted queries are searched verbatim (quotes
/// removed), anything else as the regex it is.
pub open spec fn exact_pattern_spec(q: Seq<char>) -> (Seq<char>, bool) {
    if literal(q) || quoted(trim(q)) {
        (stripped(trim(q)), true)
    } else {
        (q, false)
    }
}

/// Pattern and fixed-string flag of the exact-match channel.
pub fn exact_pattern(query: &str) -> (r: (String, bool))
    ensures
        (r.0@, r.1) == exact_pattern_spec(query@),
{
    let t = trim_str(query);
    let s = strip_quotes(&t);
    if is_literal_query(query) || is_quoted_chars(&t) {
        (string_from_chars(&s), true)
    } else {
        (own(query), false)
    }
}

/// Pattern and options of the exact-match search over `roots`, at most
/// `cap` hits; `None` when the pattern is empty (nothing is searched).
pub fn exact_grep_request(query: &str, roots: &Vec<String>, cap: usize) -> (r: Option<
    (String, GrepOptions),
>)
    ensures
        exact_pattern_spec(query@).0.len() == 0 ==> r is None,
        exact_pattern_spec(query@).0.len() > 0 ==> (r matches Some((p, o)) && {
            &&& p@ == exact_pattern_spec(query@).0
            &&& o.fixed_string == exact_pattern_spec(query@).1
            &&& o.roots@ == roots@
            &&& o.max_results == Some(cap)
            &&& !o.case_insensitive
            &&& o.include_globs@.len() == 0
            &&& o.exclude_globs@.len() == 0
            &&& o.context_lines == 0
        }),
{
    let (pattern, fixed) = exact_pattern(query);
    if pattern.as_str().is_empty() {
        return None;
    }
    let opts = GrepOptions {
        case_insensitive: false,
        fixed_string: fixed,
        roots: clone_strings(roots),
        include_globs: Vec::new(),
        exclude_globs: Vec::new(),
        context_lines: 0,
        max_results: Some(cap),
    };
    Some((pattern, opts))
}

/// One chunk per hit: the hit's line, with the byte span of its text.
pub fn hits_to_chunks(hits: &Vec<GrepHit>) -> (r: Vec<ChunkRef>)
    requires
        forall|i: int|
            0 <= i < hits.len() ==> (#[trigger] hits@[i]).byte_offset + encode_utf8(
                hits@[i].line@,
            ).len() <= u64::MAX && encode_utf8(hits@[i].line@).len() <= usize::MAX,
    ensures
        r.len() == hits.len(),
        forall|i: int|
            0 <= i < r.len() ==> {
                let h = hits@[i];
                &&& (#[trigger] r@[i]).file@ == h.file@
                &&& r@[i].chunk_id == h.line_no
                &&& r@[i].start_line == h.line_no
                &&& r@[i].end_line == h.line_no
                &&& r@[i].byte_start == h.byte_offset
                &&& r@[i].byte_end == h.byte_offset + encode_utf8(h.line@).len()
            },
{
    let mut out: Vec<ChunkRef> = Vec::new();
    let mut i: usize = 0;
    while i < hits.len()
        invariant
            i <= hits.len(),
            out.len() == i,
            forall|k: int|
                0 <= k < hits.len() ==> (#[trigger] hits@[k]).byte_offset + encode_utf8(
                    hits@[k].line@,
                ).len() <= u64::MAX && encode_utf8(hits@[k].line@).len() <= usize::MAX,
            forall|k: int|
                0 <= k < i ==> {
                    let h = hits@[k];
                    &&& (#[trigger] out@[k]).file@ == h.file@
                    &&& out@[k].chunk_id == h.line_no
                    &&& out@[k].start_line == h.line_no
                    &&& out@[k].end_line == h.line_no
                    &&& out@[k].byte_start == h.byte_offset
                    &&& out@[k].byte_end == h.byte_offset + encode_utf8(h.line@).len()
                },
        decreases hits.len() - i,
    {
        let h = &hits[i];
        let n = h.line.as_str().len();
        out.push(
            ChunkRef {
                file: h.file.clone(),
                chunk_id: h.line_no,
                start_line: h.line_no,
                end_line: h.line_no,
                byte_start: h.byte_offset,
                byte_end: h.byte_offset + n as u64,
            },
        );
        i += 1;
    }
    out
}

// ---------------------------------------------------------------------
// The external `grep` command.

/// The external POSIX/BSD/GNU `grep` backend.
#[derive(Debug)]
pub struct UnixGrepEngine {
    binary: String,
}

impl UnixGrepEngine {
    /// The backend running the `grep` at `binary`.
    pub fn new(binary: String) -> (r: Self)
        ensures
            r.binary_path() == binary@,
    {
        UnixGrepEngine { binary }
    }

    /// Path of the binary, as a spec value.
    pub closed spec fn binary_path(&self) -> Seq<char> {
        self.binary@
    }

    /// Path of the binary.
    pub fn binary(&self) -> (r: &str)
        ensures
            r@ == self.binary_path(),
    {
        self.binary.as_str()
    }
}

/// The `grep` binary: `$GREP`, else `$GREPPLUS_GREP`, else `grep` on the
/// `PATH` (the arguments are the two variables, when set).
pub fn pick_grep_binary(grep_env: Option<String>, grepplus_env: Option<String>) -> (r: String)
    ensures
        grep_env matches Some(p) ==> r@ == p@,
        grep_env is None ==> (grepplus_env matches Some(p) ==> r@ == p@),
        grep_env is None && grepplus_env is None ==> r@ == "grep"@,
{
    match grep_env {
        Some(p) => p,
        None => match grepplus_env {
            Some(p) => p,
            None => String::from_str("grep"),
        },
    }
}

/// Arguments of `grep` for a search: recursive, numbered, with file names,
/// binary files skipped, then the case, pattern-kind and count options, the
/// pattern after `--`, and the roots.
pub open spec fn grep_args_spec(
    pattern: Seq<char>,
    case_insensitive: bool,
    fixed: bool,
    max: Option<usize>,
    roots: Seq<Seq<char>>,
) -> Seq<Seq<char>> {
    seq!["-r"@, "-n"@, "-H"@, "-I"@] + (if case_insensitive {
        seq!["-i"@]
    } else {
        Seq::empty()
    }) + (if fixed {
        seq!["-F"@]
    } else {
        seq!["-E"@]
    }) + (match max {
        Some(m) => seq!["-m"@, decimal(m as nat)],
        None => Seq::empty(),
    }) + seq!["--"@, pattern] + roots
}

/// Views of a vector of strings.
pub open spec fn string_views(v: Seq<String>) -> Seq<Seq<char>> {
    v.map_values(|s: String| s@)
}

fn push_str_arg(v: &mut Vec<String>, s: &str)
    ensures
        string_views(final(v)@) == string_views(old(v)@).push(s@),
{
    let ghost before = string_views(v@);
    v.push(own(s));
    assert(string_views(v@) =~= before.push(s@));
}

/// The `grep` arguments for `pattern` under `opts`; `None` when there is
/// no root to search (the search then finds nothing without running).
pub fn grep_command_args(pattern: &str, opts: &GrepOptions) -> (r: Option<Vec<String>>)
    ensures
        opts.roots@.len() == 0 ==> r is None,
        opts.roots@.len() > 0 ==> (r matches Some(a) && string_views(a@) == grep_args_spec(
            pattern@,
            opts.case_insensitive,
            opts.fixed_string,
            opts.max_results,
            string_views(opts.roots@),
        )),
{
    if opts.roots.len() == 0 {
        return None;
    }
    let mut args: Vec<String> = Vec::new();
    push_str_arg(&mut args, "-r");
    push_str_arg(&mut args, "-n");
    push_str_arg(&mut args, "-H");
    push_str_arg(&mut args, "-I");
    let ghost a0 = string_views(args@);
    assert(a0 =~= seq!["-r"@, "-n"@, "-H"@, "-I"@]);
    if opts.case_insensitive {
        push_str_arg(&mut args, "-i");
    }
    let ghost a1 = string_views(args@);
    assert(a1 =~= a0 + (if opts.case_insensitive {
        seq!["-i"@]
    } else {
        Seq::<Seq<char>>::empty()
    }));
    if opts.fixed_string {
        push_str_arg(&mut args, "-F");
    } else {
        push_str_arg(&mut args, "-E");
    }
    let ghost a2 = string_views(args@);
    assert(a2 =~= a1 + (if opts.fixed_string {
        seq!["-F"@]
    } else {
        seq!["-E"@]
    }));
    match opts.max_results {
        Some(m) => {
            push_str_arg(&mut args, "-m");
            let ghost b = string_views(args@);
            let count = u64_to_decimal(m as u64);
            args.push(count);
            assert(string_views(args@) =~= b.push(decimal(m as nat)));
        },
        None => {},
    }
    let ghost a3 = string_views(args@);
    assert(a3 =~= a2 + (match opts.max_results {
        Some(m) => seq!["-m"@, decimal(m as nat)],
        None => Seq::<Seq<char>>::empty(),
    }));
    push_str_arg(&mut args, "--");
    push_str_arg(&mut args, pattern);
    let ghost a4 = string_views(args@);
    assert(a4 =~= a3 + seq!["--"@, pattern@]);
    let mut i: usize = 0;
    while i < opts.roots.len()
        invariant
            i <= opts.roots.len(),
            string_views(args@) == a4 + string_views(opts.roots@.take(i as int)),
        decreases opts.roots.len() - i,
    {
        let ghost before = string_views(args@);
        args.push(opts.roots[i].clone());
        i += 1;
        assert(string_views(opts.roots@.take(i as int)) =~= string_views(
            opts.roots@.take(i - 1),
        ).push(opts.roots@[i - 1]@));
        assert(string_views(args@) =~= before.push(opts.roots@[i - 1]@));
    }
    assert(opts.roots@.take(opts.roots.len() as int) =~= opts.roots@);
    Some(args)
}

/// Decimal text of an `i32`, with a `-` for negatives.
pub open spec fn i32_text(n: i32) -> Seq<char> {
    if n < 0 {
        seq!['-'] + decimal((0 - n) as nat)
    } else {
        decimal(n as nat)
    }
}

/// Debug text of an exit code: `Some(<code>)` or `None`.
pub open spec fn exit_text(code: Option<i32>) -> Seq<char> {
    match code {
        Some(n) => "Some("@ + i32_text(n) + ")"@,
        None => "None"@,
    }
}

fn exit_code_text(code: Option<i32>) -> (r: String)
    ensures
        r@ == exit_text(code),
{
    match code {
        Some(n) => {
            let mut s = String::from_str("Some(");
            if n < 0 {
                crate::text::push_char(&mut s, '-');
                let mag = u64_to_decimal((0 - (n as i64)) as u64);
                s.append(mag.as_str());
            } else {
                let mag = u64_to_decimal(n as u64);
                s.append(mag.as_str());
            }
            s.append(")");
            assert(s@ =~= "Some("@ + i32_text(n) + ")"@);
            s
        },
        None => String::from_str("None"),
    }
}

/// Whether a `grep` run failed: anything but success or exit status 1
/// (no match).
pub open spec fn grep_failed(success: bool, code: Option<i32>) -> bool {
    !success && code != Some(1i32)
}

/// The outcome of a finished `grep` run: an error naming the exit status
/// and what `grep` wrote to stderr when it failed, else its hits.
pub fn finish_grep(
    success: bool,
    code: Option<i32>,
    stdout: &[u8],
    stderr: &str,
    max_total: Option<usize>,
) -> (r: Result<Vec<GrepHit>, GpError>)
    ensures
        grep_failed(success, code) ==> (r matches Err(GpError::Other(m)) && m@
            == "grep failed (exit "@ + exit_text(code) + "): "@ + stderr@),
        !grep_failed(success, code) ==> (r matches Ok(v) && {
            let hits = all_hits(byte_lines(stdout@));
            let cap = hit_cap(max_total, hits.len());
            &&& v.len() == if hits.len() < cap {
                hits.len()
            } else {
                cap
            }
            &&& forall|i: int| 0 <= i < v.len() ==> hit_view(#[trigger] v@[i]) == hits[i]
        }),
{
    let failed = !success && match code {
        Some(c) => c != 1,
        None => true,
    };
    if failed {
        let mut m = String::from_str("grep failed (exit ");
        let t = exit_code_text(code);
        m.append(t.as_str());
        m.append("): ");
        m.append(stderr);
        return Err(GpError::Other(m));
    }
    parse_grep_output(stdout, max_total)
}

// ---------------------------------------------------------------------
// Splitting output into lines.

/// Completed lines and the line in progress after reading `b`, as
/// `split(|&b| b == b'\n')` sees them.
pub open spec fn line_split(b: Seq<u8>) -> (Seq<Seq<u8>>, Seq<u8>)
    decreases b.len(),
{
    if b.len() == 0 {
        (Seq::empty(), Seq::empty())
    } else {
        let (done, cur) = line_split(b.drop_last());
        if b.last() == 10u8 {
            (done.push(cur), Seq::empty())
        } else {
            (done, cur.push(b.last()))
        }
    }
}

/// The `\n`-separated pieces of `b` (always at least one, possibly empty).
pub open spec fn byte_lines(b: Seq<u8>) -> Seq<Seq<u8>> {
    line_split(b).0.push(line_split(b).1)
}

fn split_lines(b: &[u8]) -> (r: Vec<Vec<u8>>)
    ensures
        r@.map_values(|l: Vec<u8>| l@) == byte_lines(b@),
{
    let mut done: Vec<Vec<u8>> = Vec::new();
    let mut cur: Vec<u8> = Vec::new();
    let mut i: usize = 0;
    while i < b.len()
        invariant
            i <= b.len(),
            (done@.map_values(|l: Vec<u8>| l@), cur@) == line_split(b@.take(i as int)),
        decreases b.len() - i,
    {
        let ghost before = done@.map_values(|l: Vec<u8>| l@);
        assert(b@.take(i + 1).drop_last() =~= b@.take(i as int));
        if b[i] == 10u8 {
            let finished = cur;
            done.push(finished);
            cur = Vec::new();
            assert(done@.map_values(|l: Vec<u8>| l@) =~= before.push(finished@));
        } else {
            cur.push(b[i]);
            assert(done@.map_values(|l: Vec<u8>| l@) =~= before);
        }
        i += 1;
    }
    assert(b@.take(b.len() as int) =~= b@);
    let ghost before = done@.map_values(|l: Vec<u8>| l@);
    let last = cur;
    done.push(last);
    assert(done@.map_values(|l: Vec<u8>| l@) =~= before.push(last@));
    done
}

// ---------------------------------------------------------------------
// One output line.

/// `s` split around its first `:`.
pub open spec fn split_at_colon(s: Seq<char>) -> Option<(Seq<char>, Seq<char>)> {
    match s.index_of_first(':') {
        Some(i) => Some((s.take(i), s.skip(i + 1))),
        None => None,
    }
}

/// An ASCII letter.
pub open spec fn is_ascii_alpha(c: char) -> bool {
    ('a' <= c && c <= 'z') || ('A' <= c && c <= 'Z')
}

/// Path and remainder of a `path:rest` line.  A one-letter first field is
/// taken for a drive letter, and the path is then the field after it.
pub open spec fn path_split(s: Seq<char>) -> Option<(Seq<char>, Seq<char>)> {
    match split_at_colon(s) {
        Some((p, rest)) => if p.len() == 1 && is_ascii_alpha(p[0]) {
            split_at_colon(rest)
        } else {
            Some((p, rest))
        },
        None => None,
    }
}

/// `str::parse::<u32>`: an optional `+`, then one or more digits whose
/// value fits in 32 bits.
pub open spec fn parse_u32(s: Seq<char>) -> Option<u32> {
    let d = without_plus(s);
    if d.len() > 0 && all_digits(d) && digits_value(d) <= u32::MAX {
        Some(digits_value(d) as u32)
    } else {
        None
    }
}

/// Line number and content of a `line:content` remainder.
pub open spec fn line_number_split(s: Seq<char>) -> Option<(u32, Seq<char>)> {
    match split_at_colon(s) {
        Some((num, content)) => match parse_u32(num) {
            Some(n) => Some((n, content)),
            None => None,
        },
        None => None,
    }
}

/// File, line number and content of one output line; `None` for a line
/// that is not UTF-8 or not in `path:line:content` form.
pub open spec fn grep_fields(line: Seq<u8>) -> Option<(Seq<char>, u32, Seq<char>)> {
    if !valid_utf8(line) {
        None
    } else {
        match path_split(decode_utf8(line)) {
            Some((path, rest)) => match line_number_split(rest) {
                Some((n, content)) => Some((path, n, content)),
                None => None,
            },
            None => None,
        }
    }
}

/// The hits of `lines`, in order, skipping lines that do not parse.
pub open spec fn all_hits(lines: Seq<Seq<u8>>) -> Seq<(Seq<char>, u32, Seq<char>)>
    decreases lines.len(),
{
    if lines.len() == 0 {
        Seq::empty()
    } else {
        let before = all_hits(lines.drop_last());
        match grep_fields(lines.last()) {
            Some(h) => before.push(h),
            None => before,
        }
    }
}

/// What a hit says, as a triple.
pub open spec fn hit_view(h: GrepHit) -> (Seq<char>, u32, Seq<char>) {
    (h.file@, h.line_no, h.line@)
}

/// How many hits a `max_results` of `max` lets through: the count is
/// checked after each hit, so a limit of zero still lets one through.
pub open spec fn hit_cap(max: Option<usize>, available: nat) -> nat {
    match max {
        Some(m) => if m == 0 {
            1
        } else {
            m as nat
        },
        None => available,
    }
}

proof fn lemma_all_hits_prefix(lines: Seq<Seq<u8>>, j: int, k: int)
    requires
        0 <= j <= k <= lines.len(),
    ensures
        all_hits(lines.take(j)).is_prefix_of(all_hits(lines.take(k))),
    decreases k - j,
{
    if j < k {
        lemma_all_hits_prefix(lines, j, k - 1);
        assert(lines.take(k).drop_last() =~= lines.take(k - 1));
    }
}

/// `std::str::from_utf8`, owned: `Some` exactly for valid UTF-8, holding
/// the decoded characters.
#[verifier::external_body]
fn utf8_decode(bytes: &[u8]) -> (r: Option<String>)
    ensures
        r is Some <==> valid_utf8(bytes@),
        r matches Some(s) ==> s@ == decode_utf8(bytes@),
{
    match std::str::from_utf8(bytes) {
        Ok(s) => Some(s.to_string()),
        Err(_) => None,
    }
}

fn first_colon(s: &Vec<char>, from: usize) -> (r: Option<usize>)
    requires
        from <= s.len(),
    ensures
        s@.skip(from as int).index_of_first(':') matches Some(i) ==> (r matches Some(k) && k == from
            + i),
        s@.skip(from as int).index_of_first(':') is None ==> r is None,
        r matches Some(k) ==> from <= k < s.len() && s@[k as int] == ':',
{
    let ghost t = s@.skip(from as int);
    proof {
        t.index_of_first_ensures(':');
    }
    let mut i: usize = from;
    while i < s.len()
        invariant
            from <= i <= s.len(),
            t == s@.skip(from as int),
            forall|j: int| from <= j < i ==> s@[j] != ':',
        decreases s.len() - i,
    {
        if s[i] == ':' {
            proof {
                t.index_of_first_ensures(':');
                assert(t[i - from] == ':');
                assert(t.contains(':'));
                match t.index_of_first(':') {
                    Some(k) => {
                        assert(t[k] == s@[from + k]);
                        if k < i - from {
                            assert(s@[from + k] != ':');
                        }
                        if k > i - from {
                            assert(t[i - from] != ':');
                        }
                    },
                    None => {},
                }
            }
            return Some(i);
        }
        i += 1;
    }
    proof {
        if t.contains(':') {
            let k = choose|k: int| 0 <= k < t.len() && t[k] == ':';
            assert(s@[from + k] == ':');
        }
    }
    None
}

fn sub_chars(s: &Vec<char>, lo: usize, hi: usize) -> (r: Vec<char>)
    requires
        lo <= hi <= s.len(),
    ensures
        r@ == s@.subrange(lo as int, hi as int),
{
    let mut out: Vec<char> = Vec::new();
    let mut i: usize = lo;
    while i < hi
        invariant
            lo <= i <= hi <= s.len(),
            out@ == s@.subrange(lo as int, i as int),
        decreases hi - i,
    {
        out.push(s[i]);
        i += 1;
        assert(s@.subrange(lo as int, i as int) =~= s@.subrange(lo as int, i - 1).push(s@[i - 1]));
    }
    out
}

/// `str::parse::<u32>` on the characters `s[lo..hi]`.
fn parse_u32_range(s: &Vec<char>, lo: usize, hi: usize) -> (r: Option<u32>)
    requires
        lo <= hi <= s.len(),
    ensures
        r == parse_u32(s@.subrange(lo as int, hi as int)),
{
    let ghost whole = s@.subrange(lo as int, hi as int);
    let mut start = lo;
    if lo < hi && s[lo] == '+' {
        start = lo + 1;
    }
    let ghost d = s@.subrange(start as int, hi as int);
    assert(d =~= without_plus(whole));
    if start == hi {
        assert(d.len() == 0);
        return None;
    }
    let mut acc: u64 = 0;
    let mut over = false;
    let mut i: usize = start;
    while i < hi
        invariant
            start <= i <= hi <= s.len(),
            lo <= start,
            whole == s@.subrange(lo as int, hi as int),
            d == s@.subrange(start as int, hi as int),
            d == without_plus(whole),
            forall|j: int| start <= j < i ==> is_digit(#[trigger] s@[j]),
            !over ==> acc == digits_value(s@.subrange(start as int, i as int)),
            !over ==> acc <= u32::MAX,
            over ==> digits_value(s@.subrange(start as int, i as int)) > u32::MAX,
        decreases hi - i,
    {
        let c = s[i];
        if !('0' <= c && c <= '9') {
            assert(!is_digit(d[i - start]));
            assert(!all_digits(d));
            assert(parse_u32(whole) is None);
            return None;
        }
        let ghost prev = s@.subrange(start as int, i as int);
        assert(s@.subrange(start as int, i + 1).drop_last() =~= prev);
        let dig = (c as u32 - '0' as u32) as u64;
        if !over {
            let next = acc * 10 + dig;
            if next > 4294967295u64 {
                over = true;
            } else {
                acc = next;
            }
        } else {
            assert(digits_value(prev) * 10 >= digits_value(prev)) by (nonlinear_arith);
        }
        i += 1;
    }
    assert(s@.subrange(start as int, hi as int) == d);
    if over {
        None
    } else {
        Some(acc as u32)
    }
}

fn parse_line(line: &Vec<u8>) -> (r: Option<GrepHit>)
    ensures
        grep_fields(line@) matches Some(h) ==> r matches Some(x) && hit_view(x) == h
            && x.byte_offset == 0 && x.match_start == 0 && x.match_end == 0,
        grep_fields(line@) is None ==> r is None,
{
    let text = match utf8_decode(line.as_slice()) {
        Some(t) => t,
        None => return None,
    };
    let cs = chars_of(text.as_str());
    let ghost s = cs@;
    let c1 = match first_colon(&cs, 0) {
        Some(i) => i,
        None => {
            assert(s.skip(0) =~= s);
            return None;
        },
    };
    assert(s.skip(0) =~= s);
    assert(split_at_colon(s) == Some((s.take(c1 as int), s.skip(c1 + 1))));
    assert(s.take(c1 as int).len() == c1);
    let mut path_lo: usize = 0;
    let mut path_hi: usize = c1;
    let mut rest: usize = c1 + 1;
    if c1 == 1 && (('a' <= cs[0] && cs[0] <= 'z') || ('A' <= cs[0] && cs[0] <= 'Z')) {
        assert(s.take(c1 as int)[0] == s[0]);
        assert(path_split(s) == split_at_colon(s.skip(c1 + 1)));
        let c2 = match first_colon(&cs, c1 + 1) {
            Some(i) => i,
            None => return None,
        };
        path_lo = c1 + 1;
        path_hi = c2;
        rest = c2 + 1;
        assert(s.skip(c1 + 1).take(c2 - (c1 + 1)) =~= s.subrange(path_lo as int, path_hi as int));
        assert(s.skip(c1 + 1).skip(c2 - (c1 + 1) + 1) =~= s.skip(rest as int));
    } else {
        assert(c1 == 1 ==> s.take(c1 as int)[0] == s[0]);
        assert(s.take(c1 as int) =~= s.subrange(0, c1 as int));
    }
    assert(path_split(s) == Some((s.subrange(path_lo as int, path_hi as int), s.skip(rest as int))));
    let c3 = match first_colon(&cs, rest) {
        Some(i) => i,
        None => return None,
    };
    assert(s.skip(rest as int).take(c3 - rest) =~= s.subrange(rest as int, c3 as int));
    assert(s.skip(rest as int).skip(c3 - rest + 1) =~= s.skip(c3 + 1));
    let n = match parse_u32_range(&cs, rest, c3) {
        Some(n) => n,
        None => return None,
    };
    let path = sub_chars(&cs, path_lo, path_hi);
    let content = sub_chars(&cs, c3 + 1, cs.len());
    assert(s.subrange(c3 + 1, s.len() as int) =~= s.skip(c3 + 1));
    Some(
        GrepHit {
            file: crate::text::string_from_chars(&path),
            line_no: n,
            byte_offset: 0,
            line: crate::text::string_from_chars(&content),
            match_start: 0,
            match_end: 0,
        },
    )
}

/// Parses `grep -rnH` output: one hit per `path:line:content` line, lines
/// that do not parse skipped, at most `max_total` hits (one at least).
pub fn parse_grep_output(stdout: &[u8], max_total: Option<usize>) -> (r: Result<Vec<GrepHit>, GpError>)
    ensures
        r matches Ok(v) && {
            let hits = all_hits(byte_lines(stdout@));
            let cap = hit_cap(max_total, hits.len());
            &&& v.len() == if hits.len() < cap {
                hits.len()
            } else {
                cap
            }
            &&& forall|i: int|
                0 <= i < v.len() ==> {
                    &&& hit_view(#[trigger] v@[i]) == hits[i]
                    &&& v@[i].byte_offset == 0
                    &&& v@[i].match_start == 0
                    &&& v@[i].match_end == 0
                }
        },
{
    let lines = split_lines(stdout);
    let ghost ls = lines@.map_values(|l: Vec<u8>| l@);
    let ghost hits = all_hits(ls);
    let mut out: Vec<GrepHit> = Vec::new();
    let mut j: usize = 0;
    let mut stop = false;
    while j < lines.len() && !stop
        invariant
            j <= lines.len(),
            ls == lines@.map_values(|l: Vec<u8>| l@),
            ls == byte_lines(stdout@),
            hits == all_hits(ls),
            out@.map_values(|h: GrepHit| hit_view(h)) == all_hits(ls.take(j as int)),
            forall|i: int|
                0 <= i < out.len() ==> {
                    &&& (#[trigger] out@[i]).byte_offset == 0
                    &&& out@[i].match_start == 0
                    &&& out@[i].match_end == 0
                },
            out.len() <= hit_cap(max_total, hits.len()) || max_total is None,
            stop ==> max_total is Some && out.len() == hit_cap(max_total, hits.len()),
            !stop && max_total is Some ==> out.len() < hit_cap(max_total, hits.len()),
        decreases lines.len() - j,
    {
        let ghost before = out@.map_values(|h: GrepHit| hit_view(h));
        assert(ls.take(j + 1).drop_last() =~= ls.take(j as int));
        assert(ls.take(j + 1).last() == lines@[j as int]@);
        match parse_line(&lines[j]) {
            Some(h) => {
                out.push(h);
                assert(out@.map_values(|h: GrepHit| hit_view(h)) =~= before.push(
                    hit_view(out@[out.len() - 1]),
                ));
                match max_total {
                    Some(m) => {
                        if out.len() >= m {
                            stop = true;
                        }
                    },
                    None => {},
                }
            },
            None => {
                assert(out@.map_values(|h: GrepHit| hit_view(h)) =~= before);
            },
        }
        j += 1;
    }
    proof {
        lemma_all_hits_prefix(ls, j as int, ls.len() as int);
        assert(ls.take(ls.len() as int) =~= ls);
        let got = out@.map_values(|h: GrepHit| hit_view(h));
        assert forall|i: int| 0 <= i < out.len() implies hit_view(#[trigger] out@[i]) == hits[i] by {
            assert(got[i] == hit_view(out@[i]));
        }
    }
    Ok(out)
}

} // verus!
