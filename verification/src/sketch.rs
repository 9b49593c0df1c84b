//! MinHash signatures over word-trigram shingles, for the sketch beam.
use vstd::prelude::*;
use vstd::utf8::encode_utf8;
use vstd::wrapping::u64_specs;
use rand::Rng;
use rand::SeedableRng;
use rand_chacha::ChaCha8Rng;
use crate::laser::{lemma_token_chars, split_runs, token_runs};
use crate::order::views;
use crate::text::{char_is_alphanumeric, push_char, str_to_lowercase, to_lowercase};

verus! {

/// Number of hash functions in a signature.
pub const NUM_HASHES: usize = 64;

/// Seed of the hash-function coefficients.
pub const MINHASH_SEED: u64 = 0x5EED_C0DE;

/// The Mersenne prime 2^61 - 1 that hash values are reduced by.
pub const MINHASH_PRIME: u64 = 0x1FFF_FFFF_FFFF_FFFF;

#[verifier::external_type_specification]
#[verifier::external_body]
pub struct ExChaCha8Rng(ChaCha8Rng);

/// Word `pos` (counting from zero) of the 64-bit words that a ChaCha8
/// generator seeded by `SeedableRng::seed_from_u64(seed)` hands out when
/// every draw is a `u64`.  The stream is a function of the seed and the
/// position alone: the generator is deterministic and portable.
pub uninterp spec fn chacha8_u64(seed: u64, pos: nat) -> u64;

/// A seeded ChaCha8 generator together with its seed and the number of
/// 64-bit words drawn from it so far.
pub struct SeededStream {
    rng: ChaCha8Rng,
    seed: Ghost<u64>,
    pos: Ghost<nat>,
}

impl SeededStream {
    /// The seed the generator was made from.
    pub closed spec fn seed(&self) -> u64 {
        self.seed@
    }

    /// How many 64-bit words have been drawn.
    pub closed spec fn pos(&self) -> nat {
        self.pos@
    }
}

/// `SeedableRng::seed_from_u64` for ChaCha8: a generator seeded from `seed`,
/// nothing drawn yet.
#[verifier::external_body]
fn seeded_stream(seed: u64) -> (r: SeededStream)
    ensures
        r.seed() == seed,
        r.pos() == 0,
{
    SeededStream { rng: ChaCha8Rng::seed_from_u64(seed), seed: Ghost(seed), pos: Ghost(0) }
}

/// `Rng::gen::<u64>`: the next 64-bit word of the seeded stream.
#[verifier::external_body]
fn next_random_u64(s: &mut SeededStream) -> (r: u64)
    ensures
        r == chacha8_u64(old(s).seed(), old(s).pos()),
        final(s).seed() == old(s).seed(),
        final(s).pos() == old(s).pos() + 1,
{
    s.rng.gen::<u64>()
}

/// FNV-1a style fold of the bytes read so far.
pub open spec fn fxhash_spec(bytes: Seq<u8>) -> u64
    decreases bytes.len(),
{
    if bytes.len() == 0 {
        0xcbf29ce484222325u64
    } else {
        u64_specs::wrapping_mul(
            fxhash_spec(bytes.drop_last()) ^ (bytes.last() as u64),
            0x100000001b3u64,
        )
    }
}

/// 64-bit FNV-1a hash of `bytes`.
pub fn fxhash(bytes: &[u8]) -> (r: u64)
    ensures
        r == fxhash_spec(bytes@),
{
    let mut h: u64 = 0xcbf29ce484222325;
    let mut i: usize = 0;
    while i < bytes.len()
        invariant
            i <= bytes@.len(),
            h == fxhash_spec(bytes@.take(i as int)),
        decreases bytes@.len() - i,
    {
        assert(bytes@.take(i + 1).drop_last() =~= bytes@.take(i as int));
        h = (h ^ (bytes[i] as u64)).wrapping_mul(0x100000001b3);
        i += 1;
    }
    assert(bytes@.take(bytes@.len() as int) =~= bytes@);
    h
}

/// Words of `text`: maximal runs of alphanumeric characters.
pub open spec fn words(text: Seq<char>) -> Seq<Seq<char>> {
    token_runs(text, false)
}

/// Shingles of `text`: its lowercase words when it has fewer than three,
/// else every window of three consecutive words joined by single spaces and
/// lowercased.
pub open spec fn shingles_spec(text: Seq<char>) -> Seq<Seq<char>> {
    let w = words(text);
    if w.len() < 3 {
        w.map_values(|t: Seq<char>| str_to_lowercase(t))
    } else {
        Seq::new(
            (w.len() - 2) as nat,
            |i: int| str_to_lowercase(w[i] + seq![' '] + w[i + 1] + seq![' '] + w[i + 2]),
        )
    }
}

/// Shingles are lowercased: with `w` the maximal alphanumeric runs of
/// `text`, a text of fewer than three words gives each word lowercased,
/// and a longer one gives, for every window of three consecutive words, the
/// lowercase of the three joined by single spaces.  Every word is non-empty
/// and purely alphanumeric.
pub proof fn lemma_shingles_lowered_windows(text: Seq<char>)
    ensures
        ({
            let w = token_runs(text, false);
            let s = shingles_spec(text);
            &&& w.len() < 3 ==> s.len() == w.len() && forall|i: int|
                0 <= i < w.len() ==> #[trigger] s[i] == str_to_lowercase(w[i])
            &&& w.len() >= 3 ==> s.len() == w.len() - 2 && forall|i: int|
                0 <= i < w.len() - 2 ==> #[trigger] s[i] == str_to_lowercase(
                    w[i] + seq![' '] + w[i + 1] + seq![' '] + w[i + 2],
                )
            &&& forall|i: int, j: int|
                0 <= i < w.len() && 0 <= j < w[i].len() ==> char_is_alphanumeric(
                    #[trigger] w[i][j],
                )
            &&& forall|i: int| 0 <= i < w.len() ==> #[trigger] w[i].len() > 0
        }),
{
    lemma_token_chars(text, false);
}

/// Word-trigram shingles of `text`.
pub fn shingles(text: &str) -> (r: Vec<String>)
    ensures
        views(r@) == shingles_spec(text@),
{
    let toks = split_runs(text, false);
    let ghost w = words(text@);
    let mut out: Vec<String> = Vec::new();
    if toks.len() < 3 {
        let mut i: usize = 0;
        while i < toks.len()
            invariant
                i <= toks.len(),
                views(toks@) == w,
                views(out@) == w.take(i as int).map_values(|t: Seq<char>| str_to_lowercase(t)),
            decreases toks.len() - i,
        {
            let ghost before = views(out@);
            out.push(to_lowercase(toks[i].as_str()));
            i += 1;
            assert(views(out@) =~= w.take(i as int).map_values(
                |t: Seq<char>| str_to_lowercase(t),
            )) by {
                assert(views(out@) =~= before.push(str_to_lowercase(w[i - 1])));
            }
        }
        assert(w.take(toks@.len() as int) =~= w);
        return out;
    }
    let mut i: usize = 0;
    while i + 2 < toks.len()
        invariant
            toks.len() >= 3,
            i <= toks.len() - 2,
            views(toks@) == w,
            views(out@) == Seq::new(
                i as nat,
                |j: int| str_to_lowercase(w[j] + seq![' '] + w[j + 1] + seq![' '] + w[j + 2]),
            ),
        decreases toks.len() - i,
    {
        let mut joined = toks[i].clone();
        push_char(&mut joined, ' ');
        joined.append(toks[i + 1].as_str());
        push_char(&mut joined, ' ');
        joined.append(toks[i + 2].as_str());
        assert(w[i as int] == toks@[i as int]@ && w[i + 1] == toks@[i + 1]@ && w[i + 2]
            == toks@[i + 2]@);
        assert(joined@ =~= w[i as int] + seq![' '] + w[i + 1] + seq![' '] + w[i + 2]);
        let ghost before = views(out@);
        out.push(to_lowercase(joined.as_str()));
        i += 1;
        assert(views(out@) =~= Seq::new(
            i as nat,
            |j: int| str_to_lowercase(w[j] + seq![' '] + w[j + 1] + seq![' '] + w[j + 2]),
        )) by {
            assert(views(out@) =~= before.push(
                str_to_lowercase(
                    w[i - 1] + seq![' '] + w[i as int] + seq![' '] + w[i + 1],
                ),
            ));
        }
    }
    out
}

/// Hash function `k` of a shingle hash: `(a * h + b) mod p`, truncated to
/// 32 bits.
pub open spec fn hash_value(a: u64, b: u64, p: u64, h: u64) -> u32 {
    (u64_specs::wrapping_add(u64_specs::wrapping_mul(a, h), b) % p) as u32
}

/// The minimum of hash function (`a`, `b`) over the shingle hashes `hs`,
/// starting from `u32::MAX`.
pub open spec fn min_hash(a: u64, b: u64, p: u64, hs: Seq<u64>) -> u32
    decreases hs.len(),
{
    if hs.len() == 0 {
        u32::MAX
    } else {
        let v = hash_value(a, b, p, hs.last());
        let m = min_hash(a, b, p, hs.drop_last());
        if v < m {
            v
        } else {
            m
        }
    }
}

/// Hashes of the UTF-8 bytes of each shingle of `text`.
pub open spec fn shingle_hashes(text: Seq<char>) -> Seq<u64> {
    shingles_spec(text).map_values(|sh: Seq<char>| fxhash_spec(encode_utf8(sh)))
}

/// The multipliers of every fresh hasher: in round `k`, word `2k` of the
/// stream seeded by `MINHASH_SEED`, with its low bit set.
pub open spec fn seeded_mults() -> Seq<u64> {
    Seq::new(NUM_HASHES as nat, |k: int| chacha8_u64(MINHASH_SEED, (2 * k) as nat) | 1u64)
}

/// The offsets of every fresh hasher: in round `k`, word `2k + 1` of the
/// stream seeded by `MINHASH_SEED`.
pub open spec fn seeded_offsets() -> Seq<u64> {
    Seq::new(NUM_HASHES as nat, |k: int| chacha8_u64(MINHASH_SEED, (2 * k + 1) as nat))
}

/// Setting the low bit makes every seeded multiplier odd.
proof fn lemma_seeded_mults_odd()
    ensures
        forall|k: int| 0 <= k < NUM_HASHES ==> #[trigger] seeded_mults()[k] % 2 == 1,
{
    assert forall|k: int| 0 <= k < NUM_HASHES implies #[trigger] seeded_mults()[k] % 2 == 1 by {
        let x = chacha8_u64(MINHASH_SEED, (2 * k) as nat);
        let odd = x | 1u64;
        assert(odd % 2 == 1) by (bit_vector)
            requires
                odd == x | 1u64,
        ;
    }
}

/// MinHash with `NUM_HASHES` hash functions.
pub struct MinHasher {
    a: Vec<u64>,
    b: Vec<u64>,
    prime: u64,
}

impl MinHasher {
    #[verifier::type_invariant]
    spec fn wf(self) -> bool {
        &&& self.a@.len() == NUM_HASHES
        &&& self.b@.len() == NUM_HASHES
        &&& self.prime == MINHASH_PRIME
    }

    /// Multipliers of the hash functions.
    pub closed spec fn mults(self) -> Seq<u64> {
        self.a@
    }

    /// Offsets of the hash functions.
    pub closed spec fn offsets(self) -> Seq<u64> {
        self.b@
    }

    /// Hash functions drawn from a ChaCha8 generator seeded with
    /// `MINHASH_SEED`: round `k` draws the multiplier (made odd), then the
    /// offset.  Every hasher holds the same coefficients.
    pub fn new() -> (r: Self)
        ensures
            r.mults() == seeded_mults(),
            r.offsets() == seeded_offsets(),
            r.mults().len() == NUM_HASHES,
            r.offsets().len() == NUM_HASHES,
            forall|k: int| 0 <= k < NUM_HASHES ==> #[trigger] r.mults()[k] % 2 == 1,
    {
        let mut rng = seeded_stream(MINHASH_SEED);
        let mut a: Vec<u64> = Vec::new();
        let mut b: Vec<u64> = Vec::new();
        let mut i: usize = 0;
        while i < NUM_HASHES
            invariant
                i <= NUM_HASHES,
                rng.seed() == MINHASH_SEED,
                rng.pos() == 2 * i,
                a@ == seeded_mults().take(i as int),
                b@ == seeded_offsets().take(i as int),
            decreases NUM_HASHES - i,
        {
            let x = next_random_u64(&mut rng);
            let odd = x | 1;
            a.push(odd);
            let y = next_random_u64(&mut rng);
            b.push(y);
            assert(a@ =~= seeded_mults().take(i + 1));
            assert(b@ =~= seeded_offsets().take(i + 1));
            i += 1;
        }
        assert(a@ =~= seeded_mults());
        assert(b@ =~= seeded_offsets());
        proof {
            lemma_seeded_mults_odd();
        }
        MinHasher { a, b, prime: MINHASH_PRIME }
    }

    /// MinHash signature of `text`: entry `k` is the least value of hash
    /// function `k` over the shingles' FNV hashes (`u32::MAX` when there are
    /// none).
    pub fn signature(&self, text: &str) -> (sig: Vec<u32>)
        ensures
            sig@.len() == NUM_HASHES,
            forall|k: int|
                0 <= k < NUM_HASHES ==> #[trigger] sig@[k] == min_hash(
                    self.mults()[k],
                    self.offsets()[k],
                    MINHASH_PRIME,
                    shingle_hashes(text@),
                ),
    {
        proof {
            use_type_invariant(self);
        }
        let shs = shingles(text);
        let ghost hs = shingle_hashes(text@);
        let mut sig: Vec<u32> = Vec::new();
        let mut k: usize = 0;
        while k < NUM_HASHES
            invariant
                k <= NUM_HASHES,
                sig@.len() == k,
                forall|j: int| 0 <= j < k ==> #[trigger] sig@[j] == u32::MAX,
            decreases NUM_HASHES - k,
        {
            sig.push(u32::MAX);
            k += 1;
        }
        let mut i: usize = 0;
        while i < shs.len()
            invariant
                i <= shs@.len(),
                views(shs@) == shingles_spec(text@),
                hs == shingle_hashes(text@),
                hs.len() == shs@.len(),
                self.a@.len() == NUM_HASHES,
                self.b@.len() == NUM_HASHES,
                self.prime == MINHASH_PRIME,
                sig@.len() == NUM_HASHES,
                forall|j: int|
                    0 <= j < NUM_HASHES ==> #[trigger] sig@[j] == min_hash(
                        self.a@[j],
                        self.b@[j],
                        MINHASH_PRIME,
                        hs.take(i as int),
                    ),
            decreases shs@.len() - i,
        {
            let h = fxhash(shs[i].as_str().as_bytes());
            assert(h == hs[i as int]);
            assert(hs.take(i + 1).drop_last() =~= hs.take(i as int));
            let mut kk: usize = 0;
            while kk < NUM_HASHES
                invariant
                    kk <= NUM_HASHES,
                    i < hs.len(),
                    h == hs[i as int],
                    self.a@.len() == NUM_HASHES,
                    self.b@.len() == NUM_HASHES,
                    self.prime == MINHASH_PRIME,
                    sig@.len() == NUM_HASHES,
                    hs.take(i + 1).drop_last() == hs.take(i as int),
                    forall|j: int|
                        0 <= j < kk ==> #[trigger] sig@[j] == min_hash(
                            self.a@[j],
                            self.b@[j],
                            MINHASH_PRIME,
                            hs.take(i + 1),
                        ),
                    forall|j: int|
                        kk <= j < NUM_HASHES ==> #[trigger] sig@[j] == min_hash(
                            self.a@[j],
                            self.b@[j],
                            MINHASH_PRIME,
                            hs.take(i as int),
                        ),
                decreases NUM_HASHES - kk,
            {
                let v = (self.a[kk].wrapping_mul(h).wrapping_add(self.b[kk]) % self.prime) as u32;
                if v < sig[kk] {
                    sig.set(kk, v);
                }
                kk += 1;
            }
            i += 1;
        }
        assert(hs.take(shs@.len() as int) =~= hs);
        sig
    }
}

/// Number of positions where two signatures agree (the Jaccard estimate is
/// this count over `NUM_HASHES`).
pub open spec fn agreement(a: Seq<u32>, b: Seq<u32>) -> nat
    decreases a.len(),
{
    if a.len() == 0 || b.len() == 0 {
        0
    } else {
        agreement(a.drop_last(), b.drop_last()) + if a.last() == b.last() && a.len() == b.len() {
            1nat
        } else {
            0nat
        }
    }
}

/// Number of positions `k < NUM_HASHES` where `a[k] == b[k]`.
pub fn signature_agreement(a: &Vec<u32>, b: &Vec<u32>) -> (r: usize)
    requires
        a@.len() == NUM_HASHES,
        b@.len() == NUM_HASHES,
    ensures
        r == agreement(a@, b@),
        r <= NUM_HASHES,
{
    let mut n: usize = 0;
    let mut k: usize = 0;
    while k < NUM_HASHES
        invariant
            k <= NUM_HASHES,
            a@.len() == NUM_HASHES,
            b@.len() == NUM_HASHES,
            n == agreement(a@.take(k as int), b@.take(k as int)),
            n <= k,
        decreases NUM_HASHES - k,
    {
        assert(a@.take(k + 1).drop_last() =~= a@.take(k as int));
        assert(b@.take(k + 1).drop_last() =~= b@.take(k as int));
        if a[k] == b[k] {
            n += 1;
        }
        k += 1;
    }
    assert(a@.take(NUM_HASHES as int) =~= a@);
    assert(b@.take(NUM_HASHES as int) =~= b@);
    n
}

/// A text agrees with itself at every position of its signature.
pub proof fn lemma_self_agreement(a: Seq<u32>)
    ensures
        agreement(a, a) == a.len(),
    decreases a.len(),
{
    if a.len() > 0 {
        lemma_self_agreement(a.drop_last());
    }
}

/// Two hashers made by `new` sign every text alike: given the signatures
/// `s1` and `s2` that `signature` returns for `text` from each, they are
/// equal and agree at every one of the `NUM_HASHES` positions.
pub proof fn lemma_fresh_hashers_agree(
    h1: MinHasher,
    h2: MinHasher,
    text: Seq<char>,
    s1: Seq<u32>,
    s2: Seq<u32>,
)
    requires
        h1.mults() == seeded_mults(),
        h1.offsets() == seeded_offsets(),
        h2.mults() == seeded_mults(),
        h2.offsets() == seeded_offsets(),
        s1.len() == NUM_HASHES,
        s2.len() == NUM_HASHES,
        forall|k: int|
            0 <= k < NUM_HASHES ==> #[trigger] s1[k] == min_hash(
                h1.mults()[k],
                h1.offsets()[k],
                MINHASH_PRIME,
                shingle_hashes(text),
            ),
        forall|k: int|
            0 <= k < NUM_HASHES ==> #[trigger] s2[k] == min_hash(
                h2.mults()[k],
                h2.offsets()[k],
                MINHASH_PRIME,
                shingle_hashes(text),
            ),
    ensures
        s1 == s2,
        agreement(s1, s2) == NUM_HASHES,
{
    assert(s1 =~= s2);
    lemma_self_agreement(s1);
}

/// How many leading bytes are looked at to tell binary files apart.
pub const BINARY_PROBE: usize = 8192;

/// A file whose first `BINARY_PROBE` bytes hold a NUL byte is binary.
pub open spec fn binary_bytes(bytes: Seq<u8>) -> bool {
    exists|i: int| 0 <= i < bytes.len() && i < BINARY_PROBE && bytes[i] == 0
}

/// Whether contents read from a file mark it as binary (skipped by the
/// sketch).
pub fn looks_binary(bytes: &[u8]) -> (r: bool)
    ensures
        r == binary_bytes(bytes@),
{
    let n = if bytes.len() < BINARY_PROBE {
        bytes.len()
    } else {
        BINARY_PROBE
    };
    let mut i: usize = 0;
    while i < n
        invariant
            i <= n,
            n <= bytes.len(),
            n <= BINARY_PROBE,
            n == bytes.len() || n == BINARY_PROBE,
            forall|j: int| 0 <= j < i ==> bytes@[j] != 0,
        decreases n - i,
    {
        if bytes[i] == 0 {
            return true;
        }
        i += 1;
    }
    false
}

/// A stored signature as a full one: its first `NUM_HASHES` values, zeros
/// after the ones it lacks.
pub open spec fn fixed_signature_spec(stored: Seq<u32>) -> Seq<u32> {
    Seq::new(NUM_HASHES as nat, |i: int| if i < stored.len() {
        stored[i]
    } else {
        0u32
    })
}

/// A signature read back from an index, cut or padded to `NUM_HASHES`.
pub fn fixed_signature(stored: &Vec<u32>) -> (r: Vec<u32>)
    ensures
        r@ == fixed_signature_spec(stored@),
{
    let mut out: Vec<u32> = Vec::new();
    let mut i: usize = 0;
    while i < NUM_HASHES
        invariant
            i <= NUM_HASHES,
            out@ == fixed_signature_spec(stored@).take(i as int),
        decreases NUM_HASHES - i,
    {
        if i < stored.len() {
            out.push(stored[i]);
        } else {
            out.push(0);
        }
        i += 1;
        assert(out@ =~= fixed_signature_spec(stored@).take(i as int));
    }
    assert(fixed_signature_spec(stored@).take(NUM_HASHES as int) =~= fixed_signature_spec(stored@));
    out
}

} // verus!
