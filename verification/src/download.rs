//! Checking downloaded model files against their expected SHA-256.
use vstd::prelude::*;
use sha2::Digest;
use crate::text::{ascii_lower, chars_of, to_ascii_lower};
use crate::types::GpError;

verus! {

/// SHA-256 of `bytes` (a function of the bytes alone).
pub uninterp spec fn sha256_digest(bytes: Seq<u8>) -> Seq<u8>;

/// `sha2::Sha256::digest`: the 32-byte SHA-256 of `bytes`.
#[verifier::external_body]
fn sha256(bytes: &[u8]) -> (r: Vec<u8>)
    ensures
        r@ == sha256_digest(bytes@),
        r@.len() == 32,
{
    sha2::Sha256::digest(bytes).to_vec()
}

/// Lower-case hexadecimal digit of `n` (below sixteen).
pub open spec fn hex_digit(n: int) -> char {
    if n < 10 {
        (('0' as int) + n) as char
    } else {
        (('a' as int) + n - 10) as char
    }
}

/// `hex::encode`: two lower-case hexadecimal digits per byte, the high
/// nibble first.
pub open spec fn hex_lower(bytes: Seq<u8>) -> Seq<char> {
    Seq::new(
        2 * bytes.len(),
        |i: int|
            if i % 2 == 0 {
                hex_digit(bytes[i / 2] as int / 16)
            } else {
                hex_digit(bytes[i / 2] as int % 16)
            },
    )
}

/// `hex::encode`: the lower-case hexadecimal text of `bytes`.
#[verifier::external_body]
fn hex_encode(bytes: &[u8]) -> (r: String)
    ensures
        r@ == hex_lower(bytes@),
{
    hex::encode(bytes)
}

/// Lower-case hexadecimal SHA-256 of `bytes`.
pub fn sha256_hex(bytes: &[u8]) -> (r: String)
    ensures
        r@ == hex_lower(sha256_digest(bytes@)),
        r@.len() == 64,
{
    let d = sha256(bytes);
    hex_encode(d.as_slice())
}

/// `a.eq_ignore_ascii_case(b)`: equal once ASCII letters are lower-cased.
pub open spec fn eq_ignore_ascii_case(a: Seq<char>, b: Seq<char>) -> bool {
    a.len() == b.len() && forall|i: int| 0 <= i < a.len() ==> ascii_lower(#[trigger] a[i])
        == ascii_lower(b[i])
}

/// Whether `a` and `b` are equal up to ASCII case.
pub fn str_eq_ignore_ascii_case(a: &str, b: &str) -> (r: bool)
    ensures
        r == eq_ignore_ascii_case(a@, b@),
{
    let ca = chars_of(a);
    let cb = chars_of(b);
    if ca.len() != cb.len() {
        return false;
    }
    let mut i: usize = 0;
    while i < ca.len()
        invariant
            ca@ == a@,
            cb@ == b@,
            ca.len() == cb.len(),
            i <= ca.len(),
            forall|j: int| 0 <= j < i ==> ascii_lower(#[trigger] ca@[j]) == ascii_lower(cb@[j]),
        decreases ca.len() - i,
    {
        if to_ascii_lower(ca[i]) != to_ascii_lower(cb[i]) {
            return false;
        }
        i += 1;
    }
    true
}

/// The error for a file whose checksum does not match.
pub open spec fn sha_mismatch(path: Seq<char>, expected: Seq<char>, got: Seq<char>) -> Seq<char> {
    "sha256 mismatch for "@ + path + ": expected "@ + expected + ", got "@ + got
}

/// Checks the contents of the downloaded file at `path` against the
/// expected hexadecimal SHA-256 (in either case).
pub fn verify_sha256(contents: &[u8], path: &str, expected: &str) -> (r: Result<(), GpError>)
    ensures
        eq_ignore_ascii_case(hex_lower(sha256_digest(contents@)), expected@) ==> r is Ok,
        !eq_ignore_ascii_case(hex_lower(sha256_digest(contents@)), expected@) ==> (r matches Err(
            GpError::Model(m),
        ) && m@ == sha_mismatch(path@, expected@, hex_lower(sha256_digest(contents@)))),
{
    let digest = sha256_hex(contents);
    if str_eq_ignore_ascii_case(digest.as_str(), expected) {
        return Ok(());
    }
    let mut m = String::from_str("sha256 mismatch for ");
    m.append(path);
    m.append(": expected ");
    m.append(expected);
    m.append(", got ");
    m.append(digest.as_str());
    Err(GpError::Model(m))
}

/// What a download does about one file of an install.
#[derive(Debug, Clone, Copy, PartialEq, Eq, Structural)]
pub enum FetchStep {
    /// The file is there and no checksum is known: keep it as it is.
    KeepExisting,
    /// The file is there: check it against the expected checksum, do not
    /// fetch it again.
    VerifyExisting,
    /// The file is missing: fetch it (and check it when a checksum is known).
    Fetch,
}

/// A checksum is owed when one is given and it is not empty.
pub open spec fn checksum_owed(expected: Option<Seq<char>>) -> bool {
    expected matches Some(e) && e.len() > 0
}

/// A present file is verified (when a checksum is owed) or kept, never
/// fetched again; a missing one is fetched.
pub open spec fn fetch_step_spec(exists: bool, expected: Option<Seq<char>>) -> FetchStep {
    if !exists {
        FetchStep::Fetch
    } else if checksum_owed(expected) {
        FetchStep::VerifyExisting
    } else {
        FetchStep::KeepExisting
    }
}

/// The step a download takes for a file, given whether it already exists
/// in the install directory and its expected checksum, if any.
pub fn fetch_step(exists: bool, expected: Option<&str>) -> (r: FetchStep)
    ensures
        r == fetch_step_spec(
            exists,
            match expected {
                Some(e) => Some(e@),
                None => None,
            },
        ),
{
    if !exists {
        return FetchStep::Fetch;
    }
    match expected {
        Some(e) => {
            if !e.is_empty() {
                FetchStep::VerifyExisting
            } else {
                FetchStep::KeepExisting
            }
        },
        None => FetchStep::KeepExisting,
    }
}

/// `s.replace(from, to)` for a single character `from`.
pub open spec fn replace_char(s: Seq<char>, from: char, to: Seq<char>) -> Seq<char>
    decreases s.len(),
{
    if s.len() == 0 {
        Seq::empty()
    } else {
        replace_char(s.drop_last(), from, to) + if s.last() == from {
            to
        } else {
            seq![s.last()]
        }
    }
}

fn replace_chars(s: &str, from: char, to: &str) -> (r: String)
    ensures
        r@ == replace_char(s@, from, to@),
{
    let cs = chars_of(s);
    let mut out = String::new();
    let mut i: usize = 0;
    while i < cs.len()
        invariant
            i <= cs.len(),
            out@ == replace_char(cs@.take(i as int), from, to@),
        decreases cs.len() - i,
    {
        assert(cs@.take(i + 1).drop_last() =~= cs@.take(i as int));
        if cs[i] == from {
            out.append(to);
        } else {
            crate::text::push_char(&mut out, cs[i]);
        }
        i += 1;
        assert(out@ =~= replace_char(cs@.take(i as int), from, to@));
    }
    assert(cs@.take(cs.len() as int) =~= cs@);
    out
}

/// Download address of `file` of `repo` at `revision` on the hub, with
/// `%` escaped.
pub open spec fn hf_url_spec(repo: Seq<char>, revision: Seq<char>, file: Seq<char>) -> Seq<char> {
    "https://huggingface.co/"@ + repo + "/resolve/"@ + revision + "/"@ + replace_char(
        file,
        '%',
        "%25"@,
    )
}

/// Download address of a hub file.
pub fn hf_file_url(repo: &str, revision: &str, file: &str) -> (r: String)
    ensures
        r@ == hf_url_spec(repo@, revision@, file@),
{
    let mut u = String::from_str("https://huggingface.co/");
    u.append(repo);
    u.append("/resolve/");
    u.append(revision);
    u.append("/");
    let f = replace_chars(file, '%', "%25");
    u.append(f.as_str());
    u
}

/// Name of the partial download of `file`: hidden, slashes flattened,
/// `.part` appended.
pub open spec fn partial_name_spec(file: Seq<char>) -> Seq<char> {
    seq!['.'] + replace_char(file, '/', seq!['_']) + ".part"@
}

/// Name of the partial download of `file` in the install directory.
pub fn partial_file_name(file: &str) -> (r: String)
    ensures
        r@ == partial_name_spec(file@),
{
    let mut n = String::new();
    crate::text::push_char(&mut n, '.');
    let mut us = String::new();
    crate::text::push_char(&mut us, '_');
    let f = replace_chars(file, '/', us.as_str());
    n.append(f.as_str());
    n.append(".part");
    assert(us@ =~= seq!['_']);
    n
}

/// The authorization header of hub downloads: `$GREPPLUS_HF_TOKEN` when
/// set, else `$HF_TOKEN`; none when that token is empty.
pub fn hf_auth_header(grepplus_token: Option<String>, hf_token: Option<String>) -> (r: Option<String>)
    ensures
        ({
            let token = match grepplus_token {
                Some(t) => Some(t),
                None => hf_token,
            };
            match token {
                Some(t) => if t@.len() > 0 {
                    r matches Some(h) && h@ == "Bearer "@ + t@
                } else {
                    r is None
                },
                None => r is None,
            }
        }),
{
    let token = match grepplus_token {
        Some(t) => Some(t),
        None => hf_token,
    };
    match token {
        Some(t) => {
            if t.as_str().is_empty() {
                None
            } else {
                let mut h = String::from_str("Bearer ");
                h.append(t.as_str());
                Some(h)
            }
        },
        None => None,
    }
}

} // verus!
