//! Model manifests and the model catalog: formats, pooling, batch limits,
//! checksums and the merge of user entries over the built-in catalog.
use vstd::prelude::*;
use crate::paths::{join_path, joined};
use crate::text::{str_eq, str_to_lowercase, to_lowercase};
use crate::types::GpError;

verus! {

/// Weight file format of an installed model.
#[derive(Debug, Clone, Copy, PartialEq, Eq, Structural)]
pub enum ModelFormat {
    Onnx,
}

impl ModelFormat {
    /// The format's name.
    pub fn as_str(self) -> (r: &'static str)
        ensures
            r@ == "onnx"@,
    {
        "onnx"
    }

    /// The format a (case-insensitive) name denotes.
    pub fn parse(s: &str) -> (r: Option<ModelFormat>)
        ensures
            r == (if str_to_lowercase(s@) == "onnx"@ {
                Some(ModelFormat::Onnx)
            } else {
                None
            }),
    {
        let lower = to_lowercase(s);
        if str_eq(lower.as_str(), "onnx") {
            Some(ModelFormat::Onnx)
        } else {
            None
        }
    }
}

/// How token embeddings are pooled into one vector.
#[derive(Debug, Clone, Copy, PartialEq, Eq, Structural)]
pub enum Pooling {
    Mean,
    Cls,
    Last,
}

/// Install record written next to a model's weights.
pub struct ModelManifest {
    pub id: String,
    pub revision: String,
    pub repo: String,
    pub format: String,
    pub sha256: String,
    pub model_file: String,
    pub tokenizer_file: String,
    pub extra_files: Vec<String>,
    pub quant: Option<String>,
    /// Catalog id or repo slug this install belongs to (groups variants).
    pub base_id: String,
    pub native_dim: usize,
    pub max_len: usize,
    pub pooling: String,
    pub max_batch: usize,
    pub description: String,
    pub size_mb: u32,
}

/// Default format name of a manifest or catalog entry.
pub fn default_format() -> (r: String)
    ensures
        r@ == "onnx"@,
{
    String::from_str("onnx")
}

/// Default weights file of a manifest.
pub fn default_model_file() -> (r: String)
    ensures
        r@ == "model.onnx"@,
{
    String::from_str("model.onnx")
}

/// Default tokenizer file.
pub fn default_tokenizer() -> (r: String)
    ensures
        r@ == "tokenizer.json"@,
{
    String::from_str("tokenizer.json")
}

/// Default native embedding dimension of a manifest.
pub fn default_native_dim() -> (r: usize)
    ensures
        r == 384,
{
    384
}

/// Default maximum sequence length of a manifest.
pub fn default_max_len() -> (r: usize)
    ensures
        r == 512,
{
    512
}

/// Default pooling name.
pub fn default_pool() -> (r: String)
    ensures
        r@ == "mean"@,
{
    String::from_str("mean")
}

/// Pooling a (case-insensitive) name selects; anything else is mean pooling.
pub open spec fn pooling_for(name: Seq<char>) -> Pooling {
    if str_to_lowercase(name) == "cls"@ {
        Pooling::Cls
    } else if str_to_lowercase(name) == "last"@ {
        Pooling::Last
    } else {
        Pooling::Mean
    }
}

/// Batch size used when the manifest sets none: one for last-token pooling,
/// else 32.
pub open spec fn batch_for(max_batch: usize, pooling: Seq<char>) -> usize {
    if max_batch > 0 {
        max_batch
    } else if str_to_lowercase(pooling) == "last"@ {
        1
    } else {
        32
    }
}

/// The files that must be present for the install to be usable: weights,
/// extra files and, for ONNX with a named tokenizer, the tokenizer.
pub open spec fn weights_present(m: ModelManifest, present: Seq<Seq<char>>) -> bool {
    &&& present.contains(m.model_file@)
    &&& forall|i: int| 0 <= i < m.extra_files@.len() ==> present.contains(#[trigger] m.extra_files@[i]@)
    &&& (m.tokenizer_file@.len() > 0 ==> present.contains(m.tokenizer_file@))
}

/// Whether `present` (names relative to the model dir) holds `name`.
fn has_file(present: &Vec<String>, name: &String) -> (r: bool)
    ensures
        r == crate::order::views(present@).contains(name@),
{
    let ghost pv = crate::order::views(present@);
    let mut i: usize = 0;
    while i < present.len()
        invariant
            i <= present.len(),
            pv == crate::order::views(present@),
            forall|j: int| 0 <= j < i ==> pv[j] != name@,
        decreases present.len() - i,
    {
        if present[i] == *name {
            assert(pv[i as int] == name@);
            return true;
        }
        i += 1;
    }
    false
}

impl ModelManifest {
    /// Format of the weights (ONNX unless the name is unknown, which also
    /// means ONNX).
    pub fn format_kind(&self) -> (r: ModelFormat)
        ensures
            r == ModelFormat::Onnx,
    {
        match ModelFormat::parse(self.format.as_str()) {
            Some(f) => f,
            None => ModelFormat::Onnx,
        }
    }

    /// Pooling mode named by the manifest.
    pub fn pooling_mode(&self) -> (r: Pooling)
        ensures
            r == pooling_for(self.pooling@),
    {
        let lower = to_lowercase(self.pooling.as_str());
        if str_eq(lower.as_str(), "cls") {
            Pooling::Cls
        } else if str_eq(lower.as_str(), "last") {
            Pooling::Last
        } else {
            Pooling::Mean
        }
    }

    /// Batch size for embedding: the manifest's, or 1 for last-token pooling,
    /// or 32.
    pub fn effective_max_batch(&self) -> (r: usize)
        ensures
            r == batch_for(self.max_batch, self.pooling@),
            r > 0,
    {
        if self.max_batch > 0 {
            return self.max_batch;
        }
        let lower = to_lowercase(self.pooling.as_str());
        if str_eq(lower.as_str(), "last") {
            1
        } else {
            32
        }
    }

    /// Whether every file the install needs is among `present` (names
    /// relative to the model directory).
    pub fn weights_exist(&self, present: &Vec<String>) -> (r: bool)
        ensures
            r == weights_present(*self, crate::order::views(present@)),
    {
        let ghost pv = crate::order::views(present@);
        if !has_file(present, &self.model_file) {
            return false;
        }
        let mut i: usize = 0;
        while i < self.extra_files.len()
            invariant
                i <= self.extra_files@.len(),
                pv == crate::order::views(present@),
                forall|j: int| 0 <= j < i ==> pv.contains(#[trigger] self.extra_files@[j]@),
            decreases self.extra_files@.len() - i,
        {
            if !has_file(present, &self.extra_files[i]) {
                return false;
            }
            i += 1;
        }
        match self.format_kind() {
            ModelFormat::Onnx => {
                if !self.tokenizer_file.as_str().is_empty() && !has_file(present, &self.tokenizer_file) {
                    return false;
                }
            },
        }
        true
    }
}

/// Tensor a model input name is fed with.
#[derive(Debug, Clone, Copy, PartialEq, Eq, Structural)]
pub enum FeedKind {
    InputIds,
    AttentionMask,
    TokenTypeIds,
    PositionIds,
}

/// The tensor fed to an ONNX input of the given name, if supported.
pub open spec fn feed_for(name: Seq<char>) -> Option<FeedKind> {
    if name == "input_ids"@ {
        Some(FeedKind::InputIds)
    } else if name == "attention_mask"@ {
        Some(FeedKind::AttentionMask)
    } else if name == "token_type_ids"@ || name == "segment_ids"@ {
        Some(FeedKind::TokenTypeIds)
    } else if name == "position_ids"@ {
        Some(FeedKind::PositionIds)
    } else {
        None
    }
}

/// Maps a model's declared ONNX input name to the tensor built for it.
pub fn feed_kind_for_input(name: &str) -> (r: Option<FeedKind>)
    ensures
        r == feed_for(name@),
{
    if str_eq(name, "input_ids") {
        Some(FeedKind::InputIds)
    } else if str_eq(name, "attention_mask") {
        Some(FeedKind::AttentionMask)
    } else if str_eq(name, "token_type_ids") || str_eq(name, "segment_ids") {
        Some(FeedKind::TokenTypeIds)
    } else if str_eq(name, "position_ids") {
        Some(FeedKind::PositionIds)
    } else {
        None
    }
}

/// A recommended model and where to fetch it.
pub struct CatalogEntry {
    pub id: String,
    pub repo: String,
    pub revision: String,
    pub sha256: String,
    pub sha256_model: String,
    pub sha256_tokenizer: String,
    pub model_file: String,
    pub tokenizer_file: String,
    pub extra_files: Vec<String>,
    pub format: String,
    pub native_dim: usize,
    pub max_len: usize,
    pub pooling: String,
    pub max_batch: usize,
    pub size_mb: u32,
    pub description: String,
}

/// Copies of a vector of strings.
pub fn clone_strings(v: &Vec<String>) -> (r: Vec<String>)
    ensures
        r@ == v@,
{
    let mut out: Vec<String> = Vec::new();
    let mut i: usize = 0;
    while i < v.len()
        invariant
            i <= v@.len(),
            out@ == v@.take(i as int),
        decreases v@.len() - i,
    {
        out.push(v[i].clone());
        i += 1;
        assert(out@ =~= v@.take(i as int));
    }
    assert(v@.take(v@.len() as int) =~= v@);
    out
}

/// Expected checksum of `file`: the model or tokenizer checksum when that file
/// is meant and it is set, else the entry-wide checksum when set.
pub open spec fn sha_for(e: CatalogEntry, file: Seq<char>) -> Option<Seq<char>> {
    if file == e.model_file@ && e.sha256_model@.len() > 0 {
        Some(e.sha256_model@)
    } else if file != e.model_file@ && file == e.tokenizer_file@ && e.sha256_tokenizer@.len()
        > 0 {
        Some(e.sha256_tokenizer@)
    } else if e.sha256@.len() > 0 {
        Some(e.sha256@)
    } else {
        None
    }
}

impl CatalogEntry {
    /// Expected SHA-256 of one of the entry's files, if known.
    pub fn sha256_for(&self, file: &str) -> (r: Option<&str>)
        ensures
            r is Some == sha_for(*self, file@) is Some,
            r matches Some(s) ==> s@ == sha_for(*self, file@)->0,
    {
        if str_eq(file, self.model_file.as_str()) {
            if !self.sha256_model.as_str().is_empty() {
                return Some(self.sha256_model.as_str());
            }
        } else if str_eq(file, self.tokenizer_file.as_str()) {
            if !self.sha256_tokenizer.as_str().is_empty() {
                return Some(self.sha256_tokenizer.as_str());
            }
        }
        if !self.sha256.as_str().is_empty() {
            return Some(self.sha256.as_str());
        }
        None
    }

    /// Format of the entry's weights.
    pub fn format_kind(&self) -> (r: ModelFormat)
        ensures
            r == ModelFormat::Onnx,
    {
        match ModelFormat::parse(self.format.as_str()) {
            Some(f) => f,
            None => ModelFormat::Onnx,
        }
    }

    /// The manifest recorded when this entry is installed as itself.
    pub fn to_manifest(&self) -> (m: ModelManifest)
        ensures
            m.id == self.id,
            m.revision == self.revision,
            m.repo == self.repo,
            m.format == self.format,
            m.sha256 == self.sha256_model,
            m.model_file == self.model_file,
            m.tokenizer_file == self.tokenizer_file,
            m.extra_files@ == self.extra_files@,
            m.quant is None,
            m.base_id == self.id,
            m.native_dim == self.native_dim,
            m.max_len == self.max_len,
            m.pooling == self.pooling,
            m.max_batch == self.max_batch,
            m.description == self.description,
            m.size_mb == self.size_mb,
    {
        ModelManifest {
            id: self.id.clone(),
            revision: self.revision.clone(),
            repo: self.repo.clone(),
            format: self.format.clone(),
            sha256: self.sha256_model.clone(),
            model_file: self.model_file.clone(),
            tokenizer_file: self.tokenizer_file.clone(),
            extra_files: clone_strings(&self.extra_files),
            quant: None,
            base_id: self.id.clone(),
            native_dim: self.native_dim,
            max_len: self.max_len,
            pooling: self.pooling.clone(),
            max_batch: self.max_batch,
            description: self.description.clone(),
            size_mb: self.size_mb,
        }
    }
}

/// The list of recommended models; the first is the default.
pub struct Catalog {
    pub models: Vec<CatalogEntry>,
}

/// Index of the first entry of `models` with the given id.
pub open spec fn first_index(models: Seq<CatalogEntry>, id: Seq<char>) -> Option<int>
    decreases models.len(),
{
    if models.len() == 0 {
        None
    } else if models[0].id@ == id {
        Some(0)
    } else {
        match first_index(models.drop_first(), id) {
            Some(i) => Some(i + 1),
            None => None,
        }
    }
}

/// The first entry of `models` with the given id.
pub open spec fn entry_for(models: Seq<CatalogEntry>, id: Seq<char>) -> Option<CatalogEntry> {
    match first_index(models, id) {
        Some(i) => Some(models[i]),
        None => None,
    }
}

proof fn lemma_first_index(models: Seq<CatalogEntry>, id: Seq<char>)
    ensures
        first_index(models, id) matches Some(i) ==> 0 <= i < models.len() && models[i].id@ == id
            && forall|j: int| 0 <= j < i ==> #[trigger] models[j].id@ != id,
        first_index(models, id) is None ==> forall|j: int|
            0 <= j < models.len() ==> #[trigger] models[j].id@ != id,
    decreases models.len(),
{
    if models.len() > 0 {
        lemma_first_index(models.drop_first(), id);
        assert forall|j: int| 0 < j < models.len() implies #[trigger] models[j] == models.drop_first()[j - 1] by {}
    }
}

proof fn lemma_first_index_char(models: Seq<CatalogEntry>, id: Seq<char>, i: int)
    requires
        0 <= i < models.len(),
        models[i].id@ == id,
        forall|j: int| 0 <= j < i ==> #[trigger] models[j].id@ != id,
    ensures
        first_index(models, id) == Some(i),
    decreases i,
{
    if i > 0 {
        assert forall|j: int| 0 <= j < i - 1 implies #[trigger] models.drop_first()[j].id@ != id by {
            assert(models.drop_first()[j] == models[j + 1]);
        }
        lemma_first_index_char(models.drop_first(), id, i - 1);
    }
}

proof fn lemma_first_index_none(models: Seq<CatalogEntry>, id: Seq<char>)
    requires
        forall|j: int| 0 <= j < models.len() ==> #[trigger] models[j].id@ != id,
    ensures
        first_index(models, id) is None,
    decreases models.len(),
{
    if models.len() > 0 {
        assert forall|j: int| 0 <= j < models.len() - 1 implies #[trigger] models.drop_first()[j].id@ != id by {
            assert(models.drop_first()[j] == models[j + 1]);
        }
        lemma_first_index_none(models.drop_first(), id);
    }
}

/// `models` with `e` replacing the first entry of the same id, or appended.
pub open spec fn upsert(models: Seq<CatalogEntry>, e: CatalogEntry) -> Seq<CatalogEntry> {
    match first_index(models, e.id@) {
        Some(i) => models.update(i, e),
        None => models.push(e),
    }
}

/// `builtin` with the `user` entries applied in order.
pub open spec fn merge_all(builtin: Seq<CatalogEntry>, user: Seq<CatalogEntry>) -> Seq<CatalogEntry>
    decreases user.len(),
{
    if user.len() == 0 {
        builtin
    } else {
        upsert(merge_all(builtin, user.drop_last()), user.last())
    }
}

/// After an upsert, the entry found for `e`'s id is `e`; other ids find what
/// they found before.
pub proof fn lemma_upsert_lookup(models: Seq<CatalogEntry>, e: CatalogEntry, id: Seq<char>)
    ensures
        entry_for(upsert(models, e), id) == (if id == e.id@ {
            Some(e)
        } else {
            entry_for(models, id)
        }),
{
    lemma_first_index(models, e.id@);
    lemma_first_index(models, id);
    let m2 = upsert(models, e);
    match first_index(models, e.id@) {
        Some(i) => {
            if id == e.id@ {
                assert forall|j: int| 0 <= j < i implies #[trigger] m2[j].id@ != id by {
                    assert(m2[j] == models[j]);
                }
                lemma_first_index_char(m2, id, i);
            } else {
                match first_index(models, id) {
                    Some(k) => {
                        assert forall|j: int| 0 <= j < k implies #[trigger] m2[j].id@ != id by {
                            if j != i {
                                assert(m2[j] == models[j]);
                            }
                        }
                        lemma_first_index_char(m2, id, k);
                    },
                    None => {
                        assert forall|j: int| 0 <= j < m2.len() implies #[trigger] m2[j].id@ != id by {
                            if j != i {
                                assert(m2[j] == models[j]);
                            }
                        }
                        lemma_first_index_none(m2, id);
                    },
                }
            }
        },
        None => {
            if id == e.id@ {
                assert forall|j: int| 0 <= j < models.len() implies #[trigger] m2[j].id@ != id by {
                    assert(m2[j] == models[j]);
                }
                lemma_first_index_char(m2, id, models.len() as int);
            } else {
                match first_index(models, id) {
                    Some(k) => {
                        assert forall|j: int| 0 <= j < k implies #[trigger] m2[j].id@ != id by {
                            assert(m2[j] == models[j]);
                        }
                        lemma_first_index_char(m2, id, k);
                    },
                    None => {
                        assert forall|j: int| 0 <= j < m2.len() implies #[trigger] m2[j].id@ != id by {
                            if j < models.len() {
                                assert(m2[j] == models[j]);
                            }
                        }
                        lemma_first_index_none(m2, id);
                    },
                }
            }
        },
    }
}

/// The last user entry with a given id, if any.
pub open spec fn last_user_entry(user: Seq<CatalogEntry>, id: Seq<char>) -> Option<CatalogEntry>
    decreases user.len(),
{
    if user.len() == 0 {
        None
    } else if user.last().id@ == id {
        Some(user.last())
    } else {
        last_user_entry(user.drop_last(), id)
    }
}

/// In the merged catalog, an id that the user catalog names resolves to the
/// user's (last) entry for it; any other id resolves as in the built-in one.
pub proof fn lemma_merged_lookup(builtin: Seq<CatalogEntry>, user: Seq<CatalogEntry>, id: Seq<char>)
    ensures
        entry_for(merge_all(builtin, user), id) == (match last_user_entry(user, id) {
            Some(e) => Some(e),
            None => entry_for(builtin, id),
        }),
    decreases user.len(),
{
    if user.len() > 0 {
        lemma_merged_lookup(builtin, user.drop_last(), id);
        lemma_upsert_lookup(merge_all(builtin, user.drop_last()), user.last(), id);
    }
}

/// A catalog entry for an ONNX export on the `main` revision with the
/// default tokenizer, no pinned checksums and no extra files.
fn recommended(
    id: &str,
    repo: &str,
    model_file: &str,
    native_dim: usize,
    max_len: usize,
    pooling: &str,
    size_mb: u32,
    description: &str,
) -> (r: CatalogEntry)
    ensures
        r.id@ == id@,
        r.repo@ == repo@,
        r.model_file@ == model_file@,
        r.native_dim == native_dim,
        r.max_len == max_len,
        r.pooling@ == pooling@,
        r.size_mb == size_mb,
        r.description@ == description@,
        r.revision@ == "main"@,
        r.format@ == "onnx"@,
        r.tokenizer_file@ == "tokenizer.json"@,
        r.extra_files@.len() == 0,
        r.max_batch == 0,
{
    CatalogEntry {
        id: String::from_str(id),
        repo: String::from_str(repo),
        revision: String::from_str("main"),
        sha256: String::new(),
        sha256_model: String::new(),
        sha256_tokenizer: String::new(),
        model_file: String::from_str(model_file),
        tokenizer_file: default_tokenizer(),
        extra_files: Vec::new(),
        format: default_format(),
        native_dim,
        max_len,
        pooling: String::from_str(pooling),
        max_batch: 0,
        size_mb,
        description: String::from_str(description),
    }
}

impl Catalog {
    /// Path of the user catalog override under `config_dir`.
    pub fn user_catalog_path(config_dir: &str) -> (r: String)
        ensures
            r@ == joined(config_dir@, "catalog.json"@),
    {
        join_path(config_dir, "catalog.json")
    }

    /// The recommended models shipped with the tool, the default first.
    pub fn builtin() -> (r: Catalog)
        ensures
            r.models@.len() == 5,
            r.models@[0].id@ == "qwen3-embedding-0.6b"@,
            r.models@[1].id@ == "bge-small-en-v1.5"@,
            r.models@[2].id@ == "nomic-embed-text-v1.5"@,
            r.models@[3].id@ == "e5-small-v2"@,
            r.models@[4].id@ == "harrier-oss-v1-0.6b"@,
            r.models@[0].size_mb == 573 && r.models@[1].size_mb == 126,
            r.models@[2].size_mb == 105 && r.models@[3].size_mb == 32,
            r.models@[4].size_mb == 337,
    {
        let mut models: Vec<CatalogEntry> = Vec::new();
        models.push(
            recommended(
                "qwen3-embedding-0.6b",
                "onnx-community/Qwen3-Embedding-0.6B-ONNX",
                "onnx/model_int8.onnx",
                1024,
                8192,
                "last",
                573,
                "Default: Qwen3 0.6B ONNX INT8, MRL 32-1024d",
            ),
        );
        models.push(
            recommended(
                "bge-small-en-v1.5",
                "BAAI/bge-small-en-v1.5",
                "onnx/model.onnx",
                384,
                512,
                "cls",
                126,
                "Fast English",
            ),
        );
        models.push(
            recommended(
                "nomic-embed-text-v1.5",
                "nomic-ai/nomic-embed-text-v1.5",
                "onnx/model_quantized.onnx",
                768,
                8192,
                "mean",
                105,
                "Multilingual; quants ~105-261 MB",
            ),
        );
        models.push(
            recommended(
                "e5-small-v2",
                "intfloat/e5-small-v2",
                "onnx/model_quantized.onnx",
                384,
                512,
                "mean",
                32,
                "Multilingual; quants ~32-63 MB",
            ),
        );
        models.push(
            recommended(
                "harrier-oss-v1-0.6b",
                "microsoft/harrier-oss-v1-0.6b",
                "onnx/model.onnx",
                1024,
                8192,
                "last",
                337,
                "Code-oriented, 8k context",
            ),
        );
        Catalog { models }
    }

    /// Replaces the entry with `entry`'s id by `entry`, or appends it when
    /// there is none (what saving a user entry does to the user catalog).
    pub fn upsert(&mut self, entry: CatalogEntry)
        ensures
            final(self).models@ == upsert(old(self).models@, entry),
    {
        let ghost before = self.models@;
        let mut j: usize = 0;
        let mut found = false;
        while j < self.models.len() && !found
            invariant
                j <= self.models@.len(),
                self.models@ == before,
                forall|k: int| 0 <= k < j ==> #[trigger] before[k].id@ != entry.id@,
                found ==> j < before.len() && before[j as int].id@ == entry.id@,
            decreases self.models@.len() - j, if found { 0nat } else { 1nat },
        {
            if self.models[j].id == entry.id {
                found = true;
            } else {
                j += 1;
            }
        }
        if found {
            proof {
                lemma_first_index_char(before, entry.id@, j as int);
            }
            self.models.set(j, entry);
        } else {
            proof {
                lemma_first_index_none(before, entry.id@);
            }
            self.models.push(entry);
        }
    }

    /// The built-in catalog with the user's entries applied in order: an entry
    /// whose id is already present replaces it, others are appended.
    pub fn merged(builtin: Catalog, user: Catalog) -> (r: Catalog)
        ensures
            r.models@ == merge_all(builtin.models@, user.models@),
    {
        let mut out = builtin;
        let mut rest = user.models;
        let ghost b = out.models@;
        let ghost u = rest@;
        assert(u.len() == rest.len());
        let mut i: usize = 0;
        while rest.len() > 0
            invariant
                i + rest@.len() == u.len(),
                u.len() <= usize::MAX,
                rest@ == u.skip(i as int),
                out.models@ == merge_all(b, u.take(i as int)),
            decreases rest@.len(),
        {
            let entry = rest.remove(0);
            assert(entry == u[i as int]);
            proof {
                assert(u.take(i + 1).drop_last() =~= u.take(i as int));
                assert(u.take(i + 1).last() == entry);
            }
            out.upsert(entry);
            i += 1;
            assert(rest@ =~= u.skip(i as int));
        }
        assert(u.take(u.len() as int) =~= u);
        out
    }

    /// The first entry with the given id.
    pub fn get(&self, id: &str) -> (r: Option<&CatalogEntry>)
        ensures
            r is Some == entry_for(self.models@, id@) is Some,
            r matches Some(e) ==> *e == entry_for(self.models@, id@)->0,
    {
        let mut i: usize = 0;
        while i < self.models.len()
            invariant
                i <= self.models@.len(),
                forall|k: int| 0 <= k < i ==> #[trigger] self.models@[k].id@ != id@,
            decreases self.models@.len() - i,
        {
            if str_eq(self.models[i].id.as_str(), id) {
                proof {
                    lemma_first_index_char(self.models@, id@, i as int);
                }
                return Some(&self.models[i]);
            }
            i += 1;
        }
        proof {
            lemma_first_index_none(self.models@, id@);
        }
        None
    }

    /// All entries, in catalog order.
    pub fn list(&self) -> (r: &[CatalogEntry])
        ensures
            r@ == self.models@,
    {
        self.models.as_slice()
    }

    /// Id of the default (first) entry.
    pub fn default_id(&self) -> (r: Option<&str>)
        ensures
            r is Some == (self.models@.len() > 0),
            r matches Some(s) ==> s@ == self.models@[0].id@,
    {
        if self.models.len() > 0 {
            Some(self.models[0].id.as_str())
        } else {
            None
        }
    }
}

} // verus!
