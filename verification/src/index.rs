//! Index bookkeeping: the manifest, projection choice, file temperatures,
//! the JIT reheat planner, candidate files and 4-bit code packing.
use vstd::prelude::*;
use crate::paths::{components, join_path, joined};
use crate::text::{chars_of, decimal, own, str_eq, string_from_chars, u64_to_decimal};
use crate::types::{chunk_key, same_key, ChunkRef, GpError};

verus! {

/// What an index was built with.
#[derive(Debug)]
pub struct IndexManifest {
    pub version: u32,
    pub model_id: String,
    pub projection: String,
    pub dim: usize,
    pub chunk_count: usize,
    pub file_count: usize,
    /// Built as a sketch shell: no embeddings stored up front.
    pub sketch_only: bool,
}

/// Version of the index layout written by builds.
pub const INDEX_VERSION: u32 = 2;

impl IndexManifest {
    /// The manifest of a fresh build.
    pub fn new(
        model_id: &str,
        projection: &str,
        dim: usize,
        chunk_count: usize,
        file_count: usize,
        sketch_only: bool,
    ) -> (r: Self)
        ensures
            r.version == INDEX_VERSION,
            r.model_id@ == model_id@,
            r.projection@ == projection@,
            r.dim == dim && r.chunk_count == chunk_count && r.file_count == file_count,
            r.sketch_only == sketch_only,
    {
        IndexManifest {
            version: INDEX_VERSION,
            model_id: own(model_id),
            projection: own(projection),
            dim,
            chunk_count,
            file_count,
            sketch_only,
        }
    }
}

/// Projection name recorded for a sketch shell: `pq4` is stored as
/// `baseline` (no trained model is used yet); other names are kept.
pub open spec fn normalized_projection(p: Seq<char>) -> Seq<char> {
    if p == "pq4"@ || p == "baseline"@ {
        "baseline"@
    } else {
        p
    }
}

/// The projection name a sketch-shell build records.
pub fn normalize_projection_name(projection: &str) -> (r: String)
    ensures
        r@ == normalized_projection(projection@),
{
    if str_eq(projection, "pq4") || str_eq(projection, "baseline") {
        String::from_str("baseline")
    } else {
        own(projection)
    }
}

/// The projection a backend is built or loaded with.
#[derive(Debug, Clone, Copy, PartialEq, Eq, Structural)]
pub enum Projection {
    /// PCA to the index dimension, then 4-bit codes.
    Pca,
    /// A trained 4-bit model (`pq4.json`).
    LearnedPq4,
    /// The leading coordinates, then 4-bit codes.
    Baseline,
}

/// Name recorded in the manifest for a projection.
pub open spec fn projection_name(p: Projection) -> Seq<char> {
    match p {
        Projection::Pca => "pca"@,
        Projection::LearnedPq4 => "pq4"@,
        Projection::Baseline => "baseline"@,
    }
}

impl Projection {
    /// Name recorded in the manifest.
    pub fn stored_name(&self) -> (r: &'static str)
        ensures
            r@ == projection_name(*self),
    {
        match self {
            Projection::Pca => "pca",
            Projection::LearnedPq4 => "pq4",
            Projection::Baseline => "baseline",
        }
    }
}

/// The error for a projection name that is not known.
pub open spec fn unknown_projection(name: Seq<char>) -> Seq<char> {
    "unknown projection: "@ + name
}

fn unknown_projection_error(name: &str) -> (r: GpError)
    ensures
        r matches GpError::Index(m) && m@ == unknown_projection(name@),
{
    let mut m = String::from_str("unknown projection: ");
    m.append(name);
    GpError::Index(m)
}

/// Projection of a stored index: `pq4` falls back on the baseline when no
/// trained model was saved.
pub open spec fn projection_for(name: Seq<char>, pq4_exists: bool) -> Option<Projection> {
    if name == "pca"@ {
        Some(Projection::Pca)
    } else if name == "pq4"@ {
        Some(if pq4_exists {
            Projection::LearnedPq4
        } else {
            Projection::Baseline
        })
    } else if name == "baseline"@ {
        Some(Projection::Baseline)
    } else {
        None
    }
}

/// The projection to load for an index whose manifest names `projection`.
pub fn resolve_projection(projection: &str, pq4_exists: bool) -> (r: Result<Projection, GpError>)
    ensures
        projection_for(projection@, pq4_exists) matches Some(p) ==> r == Ok::<Projection, GpError>(p),
        projection_for(projection@, pq4_exists) is None ==> (r matches Err(GpError::Index(m)) && m@
            == unknown_projection(projection@)),
{
    if str_eq(projection, "pca") {
        Ok(Projection::Pca)
    } else if str_eq(projection, "pq4") {
        if pq4_exists {
            Ok(Projection::LearnedPq4)
        } else {
            Ok(Projection::Baseline)
        }
    } else if str_eq(projection, "baseline") {
        Ok(Projection::Baseline)
    } else {
        Err(unknown_projection_error(projection))
    }
}

/// The projection a warm build uses; PCA needs embedded vectors to fit on
/// (`samples` is their count, `None` when there are none).
pub fn build_projection(projection: &str, pq4_exists: bool, samples: Option<usize>) -> (r: Result<
    Projection,
    GpError,
>)
    ensures
        projection@ == "pca"@ && samples is None ==> (r matches Err(GpError::Index(m)) && m@
            == "pca projection requires embedded vectors"@),
        projection@ == "pca"@ && samples == Some(0usize) ==> (r matches Err(GpError::Index(m))
            && m@ == "pca projection: no vectors"@),
        projection@ == "pca"@ ==> (samples matches Some(n) ==> (n > 0 ==> r == Ok::<
            Projection,
            GpError,
        >(Projection::Pca))),
        projection@ != "pca"@ ==> (match projection_for(projection@, pq4_exists) {
            Some(p) => r == Ok::<Projection, GpError>(p),
            None => r matches Err(GpError::Index(m)) && m@ == unknown_projection(projection@),
        }),
{
    if str_eq(projection, "pca") {
        match samples {
            None => Err(GpError::Index(String::from_str("pca projection requires embedded vectors"))),
            Some(n) => if n == 0 {
                Err(GpError::Index(String::from_str("pca projection: no vectors")))
            } else {
                Ok(Projection::Pca)
            },
        }
    } else {
        resolve_projection(projection, pq4_exists)
    }
}

/// The error when the index and the configuration disagree on the
/// embedding dimension.
pub open spec fn dim_mismatch(index_dim: usize, config_dim: usize) -> Seq<char> {
    "index dim "@ + decimal(index_dim as nat) + " != config dim "@ + decimal(config_dim as nat)
}

/// Semantic search needs the index built at the configured dimension.
pub fn check_index_dim(index_dim: usize, config_dim: usize) -> (r: Result<(), GpError>)
    ensures
        index_dim == config_dim ==> r is Ok,
        index_dim != config_dim ==> (r matches Err(GpError::Index(m)) && m@ == dim_mismatch(
            index_dim,
            config_dim,
        )),
{
    if index_dim == config_dim {
        return Ok(());
    }
    let mut m = String::from_str("index dim ");
    let a = u64_to_decimal(index_dim as u64);
    m.append(a.as_str());
    m.append(" != config dim ");
    let b = u64_to_decimal(config_dim as u64);
    m.append(b.as_str());
    Err(GpError::Index(m))
}

// ---------------------------------------------------------------------
// File temperatures.

/// How warm a file is in the cache.
#[derive(Debug, Clone, Copy, PartialEq, Eq, Structural)]
pub enum FileTemperature {
    /// Embedded and unchanged since.
    Hot,
    /// Not embedded.
    Cold,
    /// Embedded, but the file changed since.
    Cool,
}

/// Name stored in a file's metadata.
pub open spec fn temperature_name(t: FileTemperature) -> Seq<char> {
    match t {
        FileTemperature::Hot => "hot"@,
        FileTemperature::Cold => "cold"@,
        FileTemperature::Cool => "cool"@,
    }
}

impl FileTemperature {
    /// Name stored in a file's metadata.
    pub fn as_str(&self) -> (r: &'static str)
        ensures
            r@ == temperature_name(*self),
    {
        match self {
            FileTemperature::Hot => "hot",
            FileTemperature::Cold => "cold",
            FileTemperature::Cool => "cool",
        }
    }
}

/// File counts per temperature and embedded chunks.
#[derive(Debug, Clone, Copy, PartialEq, Eq, Structural)]
pub struct TemperatureStats {
    pub total_files: usize,
    pub hot: usize,
    pub cold: usize,
    pub cool: usize,
    pub embedded_chunks: usize,
}

impl Default for TemperatureStats {
    fn default() -> (r: Self)
        ensures
            r.total_files == 0 && r.hot == 0 && r.cold == 0 && r.cool == 0 && r.embedded_chunks == 0,
    {
        TemperatureStats { total_files: 0, hot: 0, cold: 0, cool: 0, embedded_chunks: 0 }
    }
}

/// Every counted file has exactly one temperature.
pub open spec fn stats_consistent(s: TemperatureStats) -> bool {
    s.total_files == s.hot + s.cold + s.cool
}

impl TemperatureStats {
    /// Counts one more file of temperature `t` holding `chunks` chunks.
    pub fn record(&mut self, t: FileTemperature, chunks: usize)
        requires
            old(self).total_files < usize::MAX,
            old(self).embedded_chunks + chunks <= usize::MAX,
            t is Hot ==> old(self).hot < usize::MAX,
            t is Cold ==> old(self).cold < usize::MAX,
            t is Cool ==> old(self).cool < usize::MAX,
        ensures
            stats_consistent(*old(self)) ==> stats_consistent(*final(self)),
            final(self).total_files == old(self).total_files + 1,
            final(self).embedded_chunks == old(self).embedded_chunks + chunks,
            final(self).hot == old(self).hot + if t is Hot {
                1int
            } else {
                0int
            },
            final(self).cold == old(self).cold + if t is Cold {
                1int
            } else {
                0int
            },
            final(self).cool == old(self).cool + if t is Cool {
                1int
            } else {
                0int
            },
    {
        self.total_files = self.total_files + 1;
        self.embedded_chunks = self.embedded_chunks + chunks;
        match t {
            FileTemperature::Hot => self.hot = self.hot + 1,
            FileTemperature::Cold => self.cold = self.cold + 1,
            FileTemperature::Cool => self.cool = self.cool + 1,
        }
    }
}

/// How many of the listed files have temperature `t`.
pub open spec fn count_temp(files: Seq<(FileTemperature, usize)>, t: FileTemperature) -> nat
    decreases files.len(),
{
    if files.len() == 0 {
        0
    } else {
        count_temp(files.drop_last(), t) + if files.last().0 == t {
            1nat
        } else {
            0nat
        }
    }
}

/// Total chunk count of the listed files.
pub open spec fn chunk_total(files: Seq<(FileTemperature, usize)>) -> nat
    decreases files.len(),
{
    if files.len() == 0 {
        0
    } else {
        chunk_total(files.drop_last()) + files.last().1 as nat
    }
}

/// A prefix of the list holds no more chunks than the whole list.
proof fn lemma_chunk_total_prefix(files: Seq<(FileTemperature, usize)>, i: int)
    requires
        0 <= i <= files.len(),
    ensures
        chunk_total(files.take(i)) <= chunk_total(files),
    decreases files.len(),
{
    if i < files.len() {
        assert(files.drop_last().take(i) =~= files.take(i));
        lemma_chunk_total_prefix(files.drop_last(), i);
    } else {
        assert(files.take(i) =~= files);
    }
}

/// Temperature statistics of an index whose files have the listed
/// temperatures and chunk counts: every file is counted once, under its
/// temperature, so hot, cold and cool add up to the total.
pub fn tally_temperatures(files: &Vec<(FileTemperature, usize)>) -> (r: TemperatureStats)
    requires
        chunk_total(files@) <= usize::MAX,
    ensures
        r.total_files == files@.len(),
        r.hot == count_temp(files@, FileTemperature::Hot),
        r.cold == count_temp(files@, FileTemperature::Cold),
        r.cool == count_temp(files@, FileTemperature::Cool),
        r.embedded_chunks == chunk_total(files@),
        stats_consistent(r),
{
    let mut st = TemperatureStats { total_files: 0, hot: 0, cold: 0, cool: 0, embedded_chunks: 0 };
    let mut i: usize = 0;
    while i < files.len()
        invariant
            i <= files.len(),
            chunk_total(files@) <= usize::MAX,
            st.total_files == i,
            st.hot == count_temp(files@.take(i as int), FileTemperature::Hot),
            st.cold == count_temp(files@.take(i as int), FileTemperature::Cold),
            st.cool == count_temp(files@.take(i as int), FileTemperature::Cool),
            st.embedded_chunks == chunk_total(files@.take(i as int)),
            stats_consistent(st),
        decreases files.len() - i,
    {
        let (t, chunks) = files[i];
        let ghost pre = files@.take(i as int);
        let ghost next = files@.take(i + 1);
        proof {
            assert(next.drop_last() =~= pre);
            assert(next.last() == files@[i as int]);
            lemma_chunk_total_prefix(files@, i + 1);
        }
        st.record(t, chunks);
        i += 1;
    }
    assert(files@.take(files.len() as int) =~= files@);
    st
}

// ---------------------------------------------------------------------
// JIT reheat.

/// Whether a chunk is among the candidates (same file and line range).
pub fn matches_candidates(chunk: &ChunkRef, candidates: &Vec<ChunkRef>) -> (r: bool)
    ensures
        r == exists|i: int|
            0 <= i < candidates.len() && chunk_key(#[trigger] candidates@[i]) == chunk_key(*chunk),
{
    let mut i: usize = 0;
    while i < candidates.len()
        invariant
            i <= candidates.len(),
            forall|j: int| 0 <= j < i ==> chunk_key(#[trigger] candidates@[j]) != chunk_key(*chunk),
        decreases candidates.len() - i,
    {
        if same_key(&candidates[i], chunk) {
            return true;
        }
        i += 1;
    }
    false
}

/// File cap and chunk budget of one reheat: a mostly cold index with
/// nothing scored yet uses the tighter cold-start limits.
pub open spec fn reheat_limits_spec(
    index_mostly_cold: bool,
    nothing_scored: bool,
    reheat_file_cap: usize,
    cold_first_file_cap: usize,
    embed_budget: usize,
    cold_first_embed_budget: usize,
) -> (usize, usize) {
    if index_mostly_cold && nothing_scored {
        (
            if reheat_file_cap < cold_first_file_cap {
                reheat_file_cap
            } else {
                cold_first_file_cap
            },
            if embed_budget < cold_first_embed_budget {
                embed_budget
            } else {
                cold_first_embed_budget
            },
        )
    } else {
        (reheat_file_cap, embed_budget)
    }
}

/// The cold-start limits apply only to a mostly cold index on which nothing
/// has been scored yet, and then cap each limit by its cold-start value;
/// every other reheat keeps the regular file cap and budget.  The limits
/// never exceed the regular ones.
pub proof fn lemma_reheat_limits(
    index_mostly_cold: bool,
    nothing_scored: bool,
    reheat_file_cap: usize,
    cold_first_file_cap: usize,
    embed_budget: usize,
    cold_first_embed_budget: usize,
)
    ensures
        ({
            let (cap, budget) = reheat_limits_spec(
                index_mostly_cold,
                nothing_scored,
                reheat_file_cap,
                cold_first_file_cap,
                embed_budget,
                cold_first_embed_budget,
            );
            &&& !(index_mostly_cold && nothing_scored) ==> cap == reheat_file_cap && budget
                == embed_budget
            &&& index_mostly_cold && nothing_scored ==> cap <= cold_first_file_cap && budget
                <= cold_first_embed_budget && (cap == reheat_file_cap || cap == cold_first_file_cap)
                && (budget == embed_budget || budget == cold_first_embed_budget)
            &&& cap <= reheat_file_cap && budget <= embed_budget
        }),
{
}

/// File cap and chunk budget of one reheat.
pub fn reheat_limits(
    index_mostly_cold: bool,
    nothing_scored: bool,
    reheat_file_cap: usize,
    cold_first_file_cap: usize,
    embed_budget: usize,
    cold_first_embed_budget: usize,
) -> (r: (usize, usize))
    ensures
        r == reheat_limits_spec(
            index_mostly_cold,
            nothing_scored,
            reheat_file_cap,
            cold_first_file_cap,
            embed_budget,
            cold_first_embed_budget,
        ),
{
    if index_mostly_cold && nothing_scored {
        let cap = if reheat_file_cap < cold_first_file_cap {
            reheat_file_cap
        } else {
            cold_first_file_cap
        };
        let budget = if embed_budget < cold_first_embed_budget {
            embed_budget
        } else {
            cold_first_embed_budget
        };
        (cap, budget)
    } else {
        (reheat_file_cap, embed_budget)
    }
}

/// Chooses which queued cold files are embedded in one batch: files are
/// offered in beam order, each whole or not at all, within a file cap and
/// a chunk budget.
pub struct ReheatPlanner {
    file_cap: usize,
    budget: usize,
    offered: usize,
    planned: usize,
}

impl ReheatPlanner {
    #[verifier::type_invariant]
    spec fn within_limits(self) -> bool {
        &&& self.planned <= self.budget
        &&& self.offered <= self.file_cap
    }

    /// Files offered so far.
    pub closed spec fn offered_count(&self) -> nat {
        self.offered as nat
    }

    /// Chunks accepted so far.
    pub closed spec fn planned_chunks(&self) -> nat {
        self.planned as nat
    }

    /// The file cap.
    pub closed spec fn cap(&self) -> nat {
        self.file_cap as nat
    }

    /// The chunk budget.
    pub closed spec fn chunk_budget(&self) -> nat {
        self.budget as nat
    }

    /// Whether the next queued file is looked at.
    pub open spec fn wants_more_spec(&self) -> bool {
        self.offered_count() < self.cap() && self.planned_chunks() < self.chunk_budget()
    }

    /// A planner with nothing planned.
    pub fn new(file_cap: usize, budget: usize) -> (r: Self)
        ensures
            r.cap() == file_cap,
            r.chunk_budget() == budget,
            r.offered_count() == 0,
            r.planned_chunks() == 0,
    {
        ReheatPlanner { file_cap, budget, offered: 0, planned: 0 }
    }

    /// Whether the next queued file is looked at: fewer files than the cap
    /// were offered and the budget is not used up.
    pub fn wants_more(&self) -> (r: bool)
        ensures
            r == self.wants_more_spec(),
    {
        self.offered < self.file_cap && self.planned < self.budget
    }

    /// Chunks accepted so far (the length of the text batch); never more
    /// than the budget.
    pub fn planned(&self) -> (r: usize)
        ensures
            r == self.planned_chunks(),
            r <= self.chunk_budget(),
            self.offered_count() <= self.cap(),
    {
        proof {
            use_type_invariant(self);
        }
        self.planned
    }

    /// Offers the next file, holding `chunks` chunks.  It is accepted when
    /// it has chunks and they fit in what is left of the budget; the result
    /// is then where its texts start in the batch.
    pub fn offer(&mut self, chunks: usize) -> (r: Option<usize>)
        requires
            old(self).wants_more_spec(),
        ensures
            final(self).offered_count() == old(self).offered_count() + 1,
            final(self).cap() == old(self).cap(),
            final(self).chunk_budget() == old(self).chunk_budget(),
            (chunks > 0 && old(self).planned_chunks() + chunks <= old(self).chunk_budget()) ==> (r
                == Some(old(self).planned_chunks() as usize) && final(self).planned_chunks()
                == old(self).planned_chunks() + chunks),
            !(chunks > 0 && old(self).planned_chunks() + chunks <= old(self).chunk_budget()) ==> (r
                is None && final(self).planned_chunks() == old(self).planned_chunks()),
            final(self).planned_chunks() <= final(self).chunk_budget(),
            final(self).offered_count() <= final(self).cap(),
    {
        proof {
            use_type_invariant(&*self);
        }
        let room = self.budget - self.planned;
        self.offered = self.offered + 1;
        if chunks > 0 && chunks <= room {
            let start = self.planned;
            self.planned = self.planned + chunks;
            Some(start)
        } else {
            None
        }
    }
}

// ---------------------------------------------------------------------
// Relative paths of candidate files.

/// `Path::strip_prefix`: the rest of `path` after the components of `base`
/// (a function of the two paths alone).
pub uninterp spec fn path_strip_prefix(path: Seq<char>, base: Seq<char>) -> Option<Seq<char>>;

/// `std::path::Path::strip_prefix`, the remainder as a string.  Per its
/// documentation it fails exactly when `base` does not start `path`
/// component-wise; what the remainder is, is left to the name.
#[verifier::external_body]
fn strip_path_prefix(path: &str, base: &str) -> (r: Option<String>)
    ensures
        r is Some <==> components(base@).is_prefix_of(components(path@)),
        r matches Some(s) ==> path_strip_prefix(path@, base@) == Some(s@),
        r is None ==> path_strip_prefix(path@, base@) is None,
{
    match std::path::Path::new(path).strip_prefix(base) {
        Ok(rest) => Some(rest.to_string_lossy().into_owned()),
        Err(_) => None,
    }
}

/// `s` with every `\` turned into `/`.
pub open spec fn forward_slashes(s: Seq<char>) -> Seq<char> {
    s.map_values(|c: char| if c == '\\' {
        '/'
    } else {
        c
    })
}

/// Path of `file` relative to `repo` (or `file` itself when it is not
/// under `repo`), with forward slashes.
pub open spec fn rel_path_spec(repo: Seq<char>, file: Seq<char>) -> Seq<char> {
    forward_slashes(
        match path_strip_prefix(file, repo) {
            Some(rest) => rest,
            None => file,
        },
    )
}

/// Path of `file` relative to `repo`, with forward slashes: the rest of
/// `file` when `repo`'s components start `file`'s, else `file` itself.
pub fn rel_path_for(repo: &str, file: &str) -> (r: String)
    ensures
        r@ == rel_path_spec(repo@, file@),
        path_strip_prefix(file@, repo@) is Some <==> components(repo@).is_prefix_of(
            components(file@),
        ),
        forall|i: int| 0 <= i < r@.len() ==> #[trigger] r@[i] != '\\',
{
    let base = match strip_path_prefix(file, repo) {
        Some(rest) => rest,
        None => own(file),
    };
    let cs = chars_of(base.as_str());
    let mut out: Vec<char> = Vec::new();
    let mut i: usize = 0;
    while i < cs.len()
        invariant
            i <= cs.len(),
            out@ == forward_slashes(cs@.take(i as int)),
        decreases cs.len() - i,
    {
        let c = cs[i];
        if c == '\\' {
            out.push('/');
        } else {
            out.push(c);
        }
        i += 1;
        assert(forward_slashes(cs@.take(i as int)) =~= forward_slashes(cs@.take(i - 1)).push(
            if cs@[i - 1] == '\\' {
                '/'
            } else {
                cs@[i - 1]
            },
        ));
    }
    assert(cs@.take(cs.len() as int) =~= cs@);
    string_from_chars(&out)
}

/// `s` with every repeated element after its first occurrence left out.
pub open spec fn first_occurrences(s: Seq<Seq<char>>) -> Seq<Seq<char>>
    decreases s.len(),
{
    if s.len() == 0 {
        Seq::empty()
    } else {
        let d = first_occurrences(s.drop_last());
        if d.contains(s.last()) {
            d
        } else {
            d.push(s.last())
        }
    }
}

/// Relative paths of the candidates' files.
pub open spec fn candidate_rel_paths(repo: Seq<char>, cands: Seq<ChunkRef>) -> Seq<Seq<char>> {
    cands.map_values(|c: ChunkRef| rel_path_spec(repo, c.file@))
}

/// The files the candidates touch, relative to `repo`, each once, in the
/// order the beam ranked them.
pub fn candidate_files(repo: &str, candidates: &Vec<ChunkRef>) -> (r: Vec<String>)
    ensures
        r@.map_values(|s: String| s@) == first_occurrences(candidate_rel_paths(repo@, candidates@)),
{
    let ghost all = candidate_rel_paths(repo@, candidates@);
    let mut out: Vec<String> = Vec::new();
    let mut i: usize = 0;
    while i < candidates.len()
        invariant
            i <= candidates.len(),
            all == candidate_rel_paths(repo@, candidates@),
            out@.map_values(|s: String| s@) == first_occurrences(all.take(i as int)),
        decreases candidates.len() - i,
    {
        assert(all.take(i + 1).drop_last() =~= all.take(i as int));
        assert(all.take(i + 1).last() == rel_path_spec(repo@, candidates@[i as int].file@));
        let rel = rel_path_for(repo, candidates[i].file.as_str());
        let ghost seen = out@.map_values(|s: String| s@);
        let mut found = false;
        let mut j: usize = 0;
        while j < out.len() && !found
            invariant
                j <= out.len(),
                seen == out@.map_values(|s: String| s@),
                found ==> seen.contains(rel@),
                !found ==> forall|q: int| 0 <= q < j ==> seen[q] != rel@,
            decreases out.len() - j, if found { 0nat } else { 1nat },
        {
            if str_eq(out[j].as_str(), rel.as_str()) {
                assert(seen[j as int] == rel@);
                found = true;
            } else {
                j += 1;
            }
        }
        if !found {
            out.push(rel);
            assert(out@.map_values(|s: String| s@) =~= seen.push(rel@));
        }
        i += 1;
    }
    assert(all.take(candidates.len() as int) =~= all);
    out
}

/// Relative order and uniqueness of candidate files: no file is listed
/// twice and every candidate's file is listed.
pub proof fn lemma_first_occurrences(s: Seq<Seq<char>>)
    ensures
        forall|i: int, j: int|
            0 <= i < j < first_occurrences(s).len() ==> first_occurrences(s)[i] != first_occurrences(
                s,
            )[j],
        forall|x: Seq<char>| first_occurrences(s).contains(x) <==> s.contains(x),
    decreases s.len(),
{
    if s.len() > 0 {
        let p = s.drop_last();
        lemma_first_occurrences(p);
        let d = first_occurrences(p);
        assert forall|x: Seq<char>| first_occurrences(s).contains(x) <==> s.contains(x) by {
            let f = first_occurrences(s);
            if s.contains(x) {
                let k = choose|k: int| 0 <= k < s.len() && s[k] == x;
                if k < s.len() - 1 {
                    assert(p[k] == x);
                    assert(p.contains(x));
                    assert(d.contains(x));
                }
                if d.contains(x) {
                    let m = choose|m: int| 0 <= m < d.len() && d[m] == x;
                    assert(f[m] == x);
                } else {
                    assert(f[d.len() as int] == x);
                }
            }
            if f.contains(x) {
                let k = choose|k: int| 0 <= k < f.len() && f[k] == x;
                if k < d.len() {
                    assert(d[k] == x);
                    assert(d.contains(x));
                    assert(p.contains(x));
                    let m = choose|m: int| 0 <= m < p.len() && p[m] == x;
                    assert(s[m] == p[m]);
                } else {
                    assert(s[s.len() - 1] == x);
                }
            }
        }
        if !d.contains(s.last()) {
            let dd = d.push(s.last());
            assert forall|i: int, j: int| 0 <= i < j < dd.len() implies dd[i] != dd[j] by {
                if j == dd.len() - 1 {
                    assert(dd[i] == d[i]);
                    assert(d.contains(d[i]));
                } else {
                    assert(dd[i] == d[i] && dd[j] == d[j]);
                }
            }
        }
    }
}

/// Directory of per-file artifacts under an index root.
pub fn files_root(index_root: &str) -> (r: String)
    ensures
        r@ == joined(index_root@, "files"@),
{
    join_path(index_root, "files")
}

/// A HOT file's cached chunk records and vectors must pair up one to one.
pub fn check_hot_pairs(rel: &str, records: usize, codes: usize) -> (r: Result<(), GpError>)
    ensures
        records == codes ==> r is Ok,
        records != codes ==> (r matches Err(GpError::Index(m)) && m@ == "chunk/vector mismatch for "@
            + rel@),
{
    if records != codes {
        let mut m = String::from_str("chunk/vector mismatch for ");
        m.append(rel);
        return Err(GpError::Index(m));
    }
    Ok(())
}

/// Neighbour lists of the approximate-nearest-neighbour graph over chunk
/// codes (built and searched by score, outside this library).
#[derive(Debug)]
pub struct AnnGraph {
    pub version: u32,
    pub neighbors: Vec<Vec<u32>>,
}

/// Encodes and scores embedding vectors at a fixed dimension.
#[derive(Debug, Clone, Copy, PartialEq, Eq, Structural)]
pub struct VectorCodec {
    pub dim: usize,
}

impl VectorCodec {
    /// A codec keeping `dim` coordinates.
    pub fn new(dim: usize) -> (r: Self)
        ensures
            r.dim == dim,
    {
        VectorCodec { dim }
    }

    /// Coordinates a vector of length `len` keeps before quantization.
    pub fn kept_dim(&self, len: usize) -> (r: usize)
        ensures
            r == if self.dim < len {
                self.dim
            } else {
                len
            },
    {
        if self.dim < len {
            self.dim
        } else {
            len
        }
    }
}

/// The baseline projection: the leading `proj_dim` coordinates, then 4-bit
/// codes.
#[derive(Debug, Clone, Copy, PartialEq, Eq, Structural)]
pub struct BaselineQ4 {
    pub proj_dim: usize,
}

impl BaselineQ4 {
    /// Coordinates a vector of length `len` keeps.
    pub fn kept_dim(&self, len: usize) -> (r: usize)
        ensures
            r == if self.proj_dim < len {
                self.proj_dim
            } else {
                len
            },
    {
        if self.proj_dim < len {
            self.proj_dim
        } else {
            len
        }
    }
}

// ---------------------------------------------------------------------
// 4-bit codes.

/// Level `i` of a packed code: the low nibble of byte `i / 2` for even
/// `i`, the high nibble for odd `i`.
pub open spec fn q4_nibble(bytes: Seq<u8>, i: int) -> u8 {
    if i % 2 == 0 {
        bytes[i / 2] & 0x0Fu8
    } else {
        bytes[i / 2] >> 4u8
    }
}

/// Every level fits in four bits.
pub open spec fn levels_fit(levels: Seq<u8>) -> bool {
    forall|i: int| 0 <= i < levels.len() ==> #[trigger] levels[i] < 16
}

/// The byte holding levels `2j` and `2j + 1` (zero above the last level).
pub open spec fn packed_byte(levels: Seq<u8>, j: int) -> u8 {
    if 2 * j + 1 < levels.len() {
        levels[2 * j] | ((levels[2 * j + 1] << 4u8) as u8)
    } else {
        levels[2 * j]
    }
}

proof fn lemma_nibbles(a: u8, b: u8)
    requires
        a < 16,
        b < 16,
    ensures
        (a | ((b << 4u8) as u8)) & 0x0Fu8 == a,
        (a | ((b << 4u8) as u8)) >> 4u8 == b,
        a & 0x0Fu8 == a,
{
    assert((a | ((b << 4u8) as u8)) & 0x0Fu8 == a) by (bit_vector)
        requires
            a < 16,
            b < 16,
    ;
    assert((a | ((b << 4u8) as u8)) >> 4u8 == b) by (bit_vector)
        requires
            a < 16,
            b < 16,
    ;
    assert(a & 0x0Fu8 == a) by (bit_vector)
        requires
            a < 16,
    ;
}

/// Packs 4-bit levels two per byte, the even-indexed level in the low
/// nibble.
pub fn pack_q4(levels: &Vec<u8>) -> (r: Vec<u8>)
    requires
        levels_fit(levels@),
    ensures
        r.len() == (levels.len() + 1) / 2,
        forall|j: int| 0 <= j < r.len() ==> #[trigger] r@[j] == packed_byte(levels@, j),
{
    let mut out: Vec<u8> = Vec::new();
    let mut i: usize = 0;
    while i < levels.len()
        invariant
            i <= levels.len(),
            i % 2 == 0 || i == levels.len(),
            levels_fit(levels@),
            out.len() == (i + 1) / 2,
            forall|j: int| 0 <= j < out.len() ==> #[trigger] out@[j] == packed_byte(levels@, j),
        decreases levels.len() - i,
    {
        let lo = levels[i];
        if i + 1 < levels.len() {
            let hi = levels[i + 1];
            assert(hi < 16);
            let b = lo | ((hi << 4u8) as u8);
            out.push(b);
            i += 2;
        } else {
            out.push(lo);
            i += 1;
        }
    }
    out
}

/// Level `i` of a packed code.
pub fn q4_level(bytes: &Vec<u8>, i: usize) -> (r: u8)
    requires
        i / 2 < bytes.len(),
    ensures
        r == q4_nibble(bytes@, i as int),
{
    let b = bytes[i / 2];
    if i % 2 == 0 {
        b & 0x0F
    } else {
        b >> 4
    }
}

/// Unpacking gives back every packed level.
pub proof fn lemma_q4_round_trip(levels: Seq<u8>, i: int)
    requires
        levels_fit(levels),
        0 <= i < levels.len(),
    ensures
        q4_nibble(Seq::new(((levels.len() + 1) / 2) as nat, |j: int| packed_byte(levels, j)), i)
            == levels[i],
{
    let j = i / 2;
    let packed = Seq::new(((levels.len() + 1) / 2) as nat, |j: int| packed_byte(levels, j));
    assert(packed[j] == packed_byte(levels, j));
    if 2 * j + 1 < levels.len() {
        lemma_nibbles(levels[2 * j], levels[2 * j + 1]);
    } else {
        lemma_nibbles(levels[2 * j], 0);
    }
}

} // verus!
