//! Choosing, installing and activating embedding models: the decisions,
//! separated from the downloads and prompts that carry them out.
use vstd::prelude::*;
use crate::catalog::{entry_for, weights_present, Catalog, CatalogEntry, ModelManifest};
use crate::config::Config;
use crate::order::{
    chars_lt, insert_sorted, lemma_lt_irreflexive, lemma_lt_transitive, seq_lt, strictly_sorted, views,
};
use crate::paths::{join_path, joined};
use crate::text::{
    chars_contain, chars_of, contains_seq, decimal, pad_left, pad_right, parse_usize,
    parse_usize_spec, push_padded_left, push_padded_right, str_to_lowercase, trim, trim_str,
    u64_to_decimal,
};
use crate::types::GpError;

verus! {

/// An installed model variant (one quantization of one model family).
#[derive(Debug)]
pub struct InstalledVariant {
    pub id: String,
    pub base_id: String,
    pub quant: String,
    pub repo: String,
    pub description: String,
    pub size_mb: u32,
}

impl Clone for InstalledVariant {
    fn clone(&self) -> (r: Self)
        ensures
            r == *self,
    {
        InstalledVariant {
            id: self.id.clone(),
            base_id: self.base_id.clone(),
            quant: self.quant.clone(),
            repo: self.repo.clone(),
            description: self.description.clone(),
            size_mb: self.size_mb,
        }
    }
}

/// Options for making sure a model is available.
pub struct EnsureOptions {
    /// Install the default model without prompting.
    pub yes_download: bool,
    /// Allow the interactive picker on a terminal.
    pub interactive: bool,
    /// A missing model is an error rather than "no model".
    pub require: bool,
    /// Explicitly requested model id.
    pub model_id: Option<String>,
}

impl Default for EnsureOptions {
    fn default() -> (r: Self)
        ensures
            !r.yes_download,
            !r.interactive,
            !r.require,
            r.model_id is None,
    {
        EnsureOptions { yes_download: false, interactive: false, require: false, model_id: None }
    }
}

/// Options of a model pull or install.
pub struct PullOptions {
    pub target: String,
    pub revision: String,
    pub quant: Option<String>,
    pub as_id: Option<String>,
    /// Skip the quant picker and use the recommended variant.
    pub non_interactive: bool,
    /// Offer full-precision exports in the picker.
    pub include_full: bool,
    pub force: bool,
    pub pin_catalog: bool,
}

/// Install directory of model `id` under `models_dir`.
pub fn model_dir(models_dir: &str, id: &str) -> (r: String)
    ensures
        r@ == joined(models_dir@, id@),
{
    join_path(models_dir, id)
}

/// A model is installed when its manifest was read and every file it names
/// is present (`present`: names relative to the model directory).
pub fn is_installed(manifest: Option<&ModelManifest>, present: &Vec<String>) -> (r: bool)
    ensures
        r == (manifest matches Some(m) && weights_present(*m, views(present@))),
{
    match manifest {
        Some(m) => m.weights_exist(present),
        None => false,
    }
}

/// Number of variants of `v` that belong to family `base_id`.
pub open spec fn count_base(v: Seq<InstalledVariant>, base_id: Seq<char>) -> nat
    decreases v.len(),
{
    if v.len() == 0 {
        0
    } else {
        count_base(v.drop_last(), base_id) + if v.last().base_id@ == base_id {
            1nat
        } else {
            0nat
        }
    }
}

/// How many installed variants belong to family `base_id`.
pub fn count_variants_for_base(base_id: &str, installed: &[InstalledVariant]) -> (r: usize)
    ensures
        r == count_base(installed@, base_id@),
{
    let mut n: usize = 0;
    let mut i: usize = 0;
    while i < installed.len()
        invariant
            i <= installed@.len(),
            n == count_base(installed@.take(i as int), base_id@),
            n <= i,
        decreases installed@.len() - i,
    {
        assert(installed@.take(i + 1).drop_last() =~= installed@.take(i as int));
        if crate::text::str_eq(installed[i].base_id.as_str(), base_id) {
            n += 1;
        }
        i += 1;
    }
    assert(installed@.take(installed@.len() as int) =~= installed@);
    n
}

/// The variant listed for an install: family from the manifest (or the name
/// inferred from the id when it records none), quant label or `unknown`,
/// size from the manifest, else the catalog size when the install is the
/// catalog model itself.
pub fn variant_from_manifest(
    id: String,
    manifest: &ModelManifest,
    catalog: &Catalog,
    inferred_base: String,
) -> (v: InstalledVariant)
    ensures
        v.id == id,
        v.base_id@ == (if manifest.base_id@.len() == 0 {
            inferred_base@
        } else {
            manifest.base_id@
        }),
        v.quant@ == (match manifest.quant {
            Some(q) => q@,
            None => "unknown"@,
        }),
        v.repo == manifest.repo,
        v.description == manifest.description,
        v.size_mb == (if manifest.size_mb > 0 {
            manifest.size_mb
        } else {
            match entry_for(catalog.models@, v.base_id@) {
                Some(e) => if id@ == v.base_id@ {
                    e.size_mb
                } else {
                    0
                },
                None => 0,
            }
        }),
{
    let base_id = if manifest.base_id.as_str().is_empty() {
        inferred_base
    } else {
        manifest.base_id.clone()
    };
    let quant = match &manifest.quant {
        Some(q) => q.clone(),
        None => String::from_str("unknown"),
    };
    let size_mb = if manifest.size_mb > 0 {
        manifest.size_mb
    } else {
        match catalog.get(base_id.as_str()) {
            Some(e) => if id == base_id {
                e.size_mb
            } else {
                0
            },
            None => 0,
        }
    };
    InstalledVariant {
        id,
        base_id,
        quant,
        repo: manifest.repo.clone(),
        description: manifest.description.clone(),
        size_mb,
    }
}

/// The model to fall back on: the active one when installed, else the
/// catalog's default.
pub open spec fn default_model_spec(
    catalog: Catalog,
    active: Seq<char>,
    active_installed: bool,
) -> Option<Seq<char>> {
    if active_installed {
        Some(active)
    } else if catalog.models@.len() > 0 {
        Some(catalog.models@[0].id@)
    } else {
        None
    }
}

/// The model to fall back on: the active one when installed, else the
/// catalog's default; no model when the catalog is empty.
pub fn default_model_id(catalog: &Catalog, cfg: &Config, active_installed: bool) -> (r: Result<
    String,
    GpError,
>)
    ensures
        r matches Ok(id) ==> default_model_spec(*catalog, cfg.embedder.active@, active_installed)
            == Some(id@),
        r matches Err(e) ==> e is NoModel && default_model_spec(
            *catalog,
            cfg.embedder.active@,
            active_installed,
        ) is None,
        r is Ok == default_model_spec(*catalog, cfg.embedder.active@, active_installed) is Some,
{
    if active_installed {
        return Ok(cfg.embedder.active.clone());
    }
    match catalog.default_id() {
        Some(id) => Ok(String::from_str(id)),
        None => Err(GpError::NoModel),
    }
}

/// What `ensure_model` has to do next.
pub enum EnsureStep {
    /// The model is ready: use it.
    Use(String),
    /// Install the model (without prompting when `non_interactive`), then use it.
    InstallThenUse { id: String, non_interactive: bool },
    /// Run the interactive picker.
    Pick,
    /// No model is available.
    NoModel,
}

/// What the model store looks like when `ensure_model` runs.
pub struct ModelState {
    /// The explicitly requested model is installed.
    pub requested_installed: bool,
    /// The configured active model is installed.
    pub active_installed: bool,
    /// Ids of all installed models.
    pub installed: Vec<String>,
    /// The catalog default is installed.
    pub default_installed: bool,
    /// Stdin and stderr are terminals.
    pub tty: bool,
}

/// What `ensure_model` decides, as values.
pub enum EnsurePlan {
    Use(Seq<char>),
    InstallThenUse(Seq<char>, bool),
    Pick,
    NoModel,
}

/// Plan for making a model available: an explicit request wins (installed
/// first if missing); then the active model when installed; then the only
/// installed model; then, with `yes_download`, the default model
/// (installed first if missing); then the picker on a terminal.
pub open spec fn ensure_plan(
    active: Seq<char>,
    opts: EnsureOptions,
    st: ModelState,
    catalog: Catalog,
) -> EnsurePlan {
    match opts.model_id {
        Some(id) => if st.requested_installed {
            EnsurePlan::Use(id@)
        } else {
            EnsurePlan::InstallThenUse(id@, opts.yes_download)
        },
        None => if st.active_installed {
            EnsurePlan::Use(active)
        } else if st.installed@.len() == 1 {
            EnsurePlan::Use(st.installed@[0]@)
        } else if opts.yes_download {
            match default_model_spec(catalog, active, st.active_installed) {
                Some(d) => if st.default_installed {
                    EnsurePlan::Use(d)
                } else {
                    EnsurePlan::InstallThenUse(d, true)
                },
                None => EnsurePlan::NoModel,
            }
        } else if opts.interactive && st.tty {
            EnsurePlan::Pick
        } else {
            EnsurePlan::NoModel
        },
    }
}

/// An explicitly requested model is used as it is when installed and is
/// installed first otherwise (without prompting exactly when downloads were
/// allowed up front).
pub proof fn lemma_requested_model_plan(
    active: Seq<char>,
    opts: EnsureOptions,
    st: ModelState,
    catalog: Catalog,
    id: String,
)
    requires
        opts.model_id == Some(id),
    ensures
        st.requested_installed ==> ensure_plan(active, opts, st, catalog) == EnsurePlan::Use(id@),
        !st.requested_installed ==> ensure_plan(active, opts, st, catalog)
            == EnsurePlan::InstallThenUse(id@, opts.yes_download),
{
}

/// Without an explicit request the installed active model wins; failing
/// that, a sole installed model; failing that, with downloads allowed, the
/// catalog's default (installed first when missing); then the picker on an
/// interactive terminal; and otherwise there is no model.
pub proof fn lemma_unrequested_model_plan(
    active: Seq<char>,
    opts: EnsureOptions,
    st: ModelState,
    catalog: Catalog,
)
    requires
        opts.model_id is None,
    ensures
        st.active_installed ==> ensure_plan(active, opts, st, catalog) == EnsurePlan::Use(active),
        !st.active_installed && st.installed@.len() == 1 ==> ensure_plan(active, opts, st, catalog)
            == EnsurePlan::Use(st.installed@[0]@),
        !st.active_installed && st.installed@.len() != 1 && opts.yes_download
            && catalog.models@.len() > 0 ==> ensure_plan(active, opts, st, catalog) == if st.default_installed {
            EnsurePlan::Use(catalog.models@[0].id@)
        } else {
            EnsurePlan::InstallThenUse(catalog.models@[0].id@, true)
        },
        !st.active_installed && st.installed@.len() != 1 && !opts.yes_download ==> ensure_plan(
            active,
            opts,
            st,
            catalog,
        ) == if opts.interactive && st.tty {
            EnsurePlan::Pick
        } else {
            EnsurePlan::NoModel
        },
{
}

/// A model is only used as it is when the store holds it: the requested
/// model when it is installed, the active model when it is installed, the
/// one installed model, or the default model when it is installed.
/// Anything else is installed first, or not used at all.
pub proof fn lemma_use_only_installed(
    active: Seq<char>,
    opts: EnsureOptions,
    st: ModelState,
    catalog: Catalog,
    m: Seq<char>,
)
    requires
        ensure_plan(active, opts, st, catalog) == EnsurePlan::Use(m),
    ensures
        match opts.model_id {
            Some(id) => st.requested_installed && m == id@,
            None => (st.active_installed && m == active) || (st.installed@.len() == 1 && m
                == st.installed@[0]@) || (opts.yes_download && st.default_installed
                && default_model_spec(catalog, active, st.active_installed) == Some(m)),
        },
{
}

/// The plan a step carries out.
pub open spec fn step_view(s: EnsureStep) -> EnsurePlan {
    match s {
        EnsureStep::Use(id) => EnsurePlan::Use(id@),
        EnsureStep::InstallThenUse { id, non_interactive } => EnsurePlan::InstallThenUse(
            id@,
            non_interactive,
        ),
        EnsureStep::Pick => EnsurePlan::Pick,
        EnsureStep::NoModel => EnsurePlan::NoModel,
    }
}

/// Decides how to make a usable embedding model available.
pub fn ensure_model(cfg: &Config, opts: &EnsureOptions, st: &ModelState, catalog: &Catalog) -> (r:
    EnsureStep)
    ensures
        step_view(r) == ensure_plan(cfg.embedder.active@, *opts, *st, *catalog),
{
    if let Some(id) = &opts.model_id {
        if !st.requested_installed {
            return EnsureStep::InstallThenUse { id: id.clone(), non_interactive: opts.yes_download };
        }
        return EnsureStep::Use(id.clone());
    }
    if st.active_installed {
        return EnsureStep::Use(cfg.embedder.active.clone());
    }
    if st.installed.len() == 1 {
        return EnsureStep::Use(st.installed[0].clone());
    }
    if opts.yes_download {
        return match default_model_id(catalog, cfg, st.active_installed) {
            Ok(id) => if st.default_installed {
                EnsureStep::Use(id)
            } else {
                EnsureStep::InstallThenUse { id, non_interactive: true }
            },
            Err(_) => EnsureStep::NoModel,
        };
    }
    if opts.interactive && st.tty {
        return EnsureStep::Pick;
    }
    EnsureStep::NoModel
}

/// `"unknown model id: "` followed by the id.
pub open spec fn unknown_model_message(id: Seq<char>) -> Seq<char> {
    "unknown model id: "@ + id
}

fn unknown_model(id: &str) -> (e: GpError)
    ensures
        e matches GpError::Config(m) && m@ == unknown_model_message(id@),
{
    let mut msg = String::from_str("unknown model id: ");
    msg.append(id);
    GpError::Config(msg)
}

/// Checks that `id` may be activated: it is in the catalog or installed.
pub fn set_active_model(catalog: &Catalog, id: &str, installed: bool) -> (r: Result<(), GpError>)
    ensures
        r is Ok == (entry_for(catalog.models@, id@) is Some || installed),
        r matches Err(e) ==> e matches GpError::Config(m) && m@ == unknown_model_message(id@),
{
    if catalog.get(id).is_none() && !installed {
        return Err(unknown_model(id));
    }
    Ok(())
}

/// The catalog entry to install for `id`.
pub fn install_model<'a>(catalog: &'a Catalog, id: &str) -> (r: Result<&'a CatalogEntry, GpError>)
    ensures
        r is Ok == entry_for(catalog.models@, id@) is Some,
        r matches Ok(e) ==> *e == entry_for(catalog.models@, id@)->0,
        r matches Err(e) ==> e matches GpError::Config(m) && m@ == unknown_model_message(id@),
{
    match catalog.get(id) {
        Some(e) => Ok(e),
        None => Err(unknown_model(id)),
    }
}

/// What a `models pull` target names.
#[derive(Debug)]
pub enum PullTarget {
    /// A catalog id.
    Catalog(String),
    /// A Hugging Face `org/repo`.
    Hub(String),
}

/// The error for a bare name that is not a catalog id.
pub open spec fn unknown_pull_target(target: Seq<char>) -> Seq<char> {
    "unknown model id: "@ + target + " (use org/repo or a catalog id)"@
}

/// Reads a pull target: a name with a `/` is a hub repository; any other
/// name must be a catalog id.
pub fn pull_target(catalog: &Catalog, target: &str) -> (r: Result<PullTarget, GpError>)
    ensures
        contains_seq(target@, seq!['/']) ==> (r matches Ok(PullTarget::Hub(repo)) && repo@
            == target@),
        !contains_seq(target@, seq!['/']) && entry_for(catalog.models@, target@) is Some ==> (r matches Ok(
            PullTarget::Catalog(id),
        ) && id@ == target@),
        !contains_seq(target@, seq!['/']) && entry_for(catalog.models@, target@) is None ==> (r matches Err(
            GpError::Config(m),
        ) && m@ == unknown_pull_target(target@)),
{
    let cs = chars_of(target);
    let mut slash: Vec<char> = Vec::new();
    slash.push('/');
    if chars_contain(&cs, &slash) {
        return Ok(PullTarget::Hub(String::from_str(target)));
    }
    if catalog.get(target).is_some() {
        return Ok(PullTarget::Catalog(String::from_str(target)));
    }
    let mut m = String::from_str("unknown model id: ");
    m.append(target);
    m.append(" (use org/repo or a catalog id)");
    Err(GpError::Config(m))
}

impl EnsureOptions {
    /// Options of the search commands: interactive, not required, the model
    /// named by `$GREPPLUS_MODEL` (`model_env`) when set.
    pub fn from_env_and_flags(yes_download: bool, model_env: Option<String>) -> (r: Self)
        ensures
            r.yes_download == yes_download,
            r.interactive,
            !r.require,
            r.model_id == model_env,
    {
        EnsureOptions { yes_download, interactive: true, require: false, model_id: model_env }
    }

    /// Options of the semantic, index and serve paths: prompt unless
    /// downloading without asking, and a model is required.
    pub fn for_required_semantic(yes_download: bool, model_env: Option<String>) -> (r: Self)
        ensures
            r.yes_download == yes_download,
            r.interactive == !yes_download,
            r.require,
            r.model_id == model_env,
    {
        EnsureOptions { yes_download, interactive: !yes_download, require: true, model_id: model_env }
    }
}

/// What to load once the model has been ensured: its id, nothing when no
/// model is available and none is required, or the error.
pub fn embedder_choice(ensured: Result<String, GpError>, require: bool) -> (r: Result<
    Option<String>,
    GpError,
>)
    ensures
        ensured matches Ok(id) ==> r == Ok::<Option<String>, GpError>(Some(id)),
        ensured matches Err(GpError::NoModel) ==> (if require {
            r matches Err(GpError::NoModel)
        } else {
            r matches Ok(None)
        }),
        ensured matches Err(e) ==> (e is NoModel || r == Err::<Option<String>, GpError>(e)),
{
    match ensured {
        Ok(id) => Ok(Some(id)),
        Err(GpError::NoModel) => if require {
            Err(GpError::NoModel)
        } else {
            Ok(None)
        },
        Err(e) => Err(e),
    }
}

/// Default options of a pull of `target`: the `main` revision, the quant
/// picker only on a terminal (`stdin_tty`), everything else off.
pub fn default_pull_opts(target: &str, stdin_tty: bool) -> (r: PullOptions)
    ensures
        r.target@ == target@,
        r.revision@ == "main"@,
        r.non_interactive == !stdin_tty,
        r.quant is None && r.as_id is None,
        !r.include_full && !r.force && !r.pin_catalog,
{
    PullOptions {
        target: String::from_str(target),
        revision: String::from_str("main"),
        quant: None,
        as_id: None,
        non_interactive: !stdin_tty,
        include_full: false,
        force: false,
        pin_catalog: false,
    }
}

/// One ONNX export of a hub repository.
pub struct OnnxVariant {
    /// Quant label, e.g. `model_q4f16`.
    pub label: String,
    pub model_file: String,
    pub extra_files: Vec<String>,
    /// Size of the model and extra files.
    pub total_bytes: u64,
}

/// Views of a vector of strings.
pub open spec fn string_seq(v: Seq<String>) -> Seq<Seq<char>> {
    v.map_values(|s: String| s@)
}

/// The files an install fetches: the weights, their extra files, and the
/// tokenizer when they do not already include it.
pub open spec fn fetch_list(model_file: Seq<char>, extras: Seq<Seq<char>>) -> Seq<Seq<char>> {
    let base = seq![model_file] + extras;
    if base.contains("tokenizer.json"@) {
        base
    } else {
        base.push("tokenizer.json"@)
    }
}

/// The error for a repository without a tokenizer.
pub open spec fn missing_tokenizer(repo: Seq<char>) -> Seq<char> {
    repo + " missing tokenizer.json required for ONNX models"@
}

fn contains_string(v: &Vec<String>, s: &str) -> (r: bool)
    ensures
        r == string_seq(v@).contains(s@),
{
    let ghost sv = string_seq(v@);
    let mut i: usize = 0;
    while i < v.len()
        invariant
            i <= v.len(),
            sv == string_seq(v@),
            forall|j: int| 0 <= j < i ==> sv[j] != s@,
        decreases v.len() - i,
    {
        if crate::text::str_eq(v[i].as_str(), s) {
            assert(sv[i as int] == s@);
            return true;
        }
        i += 1;
    }
    false
}

/// Files to download for `variant` from `repo`, whose files are
/// `repo_files`; ONNX installs need the repository's `tokenizer.json`.
pub fn install_files(variant: &OnnxVariant, repo: &str, repo_files: &Vec<String>) -> (r: Result<
    Vec<String>,
    GpError,
>)
    ensures
        string_seq(repo_files@).contains("tokenizer.json"@) ==> (r matches Ok(v) && string_seq(v@)
            == fetch_list(variant.model_file@, string_seq(variant.extra_files@))),
        !string_seq(repo_files@).contains("tokenizer.json"@) ==> (r matches Err(GpError::Model(m))
            && m@ == missing_tokenizer(repo@)),
{
    if !contains_string(repo_files, "tokenizer.json") {
        let mut m = String::from_str(repo);
        m.append(" missing tokenizer.json required for ONNX models");
        return Err(GpError::Model(m));
    }
    let mut files: Vec<String> = Vec::new();
    files.push(variant.model_file.clone());
    let mut i: usize = 0;
    while i < variant.extra_files.len()
        invariant
            i <= variant.extra_files.len(),
            string_seq(files@) == seq![variant.model_file@] + string_seq(variant.extra_files@).take(
                i as int,
            ),
        decreases variant.extra_files.len() - i,
    {
        let ghost before = string_seq(files@);
        files.push(variant.extra_files[i].clone());
        i += 1;
        assert(string_seq(files@) =~= before.push(variant.extra_files@[i - 1]@));
        assert(string_seq(variant.extra_files@).take(i as int) =~= string_seq(
            variant.extra_files@,
        ).take(i - 1).push(variant.extra_files@[i - 1]@));
    }
    assert(string_seq(variant.extra_files@).take(variant.extra_files.len() as int) =~= string_seq(
        variant.extra_files@,
    ));
    if !contains_string(&files, "tokenizer.json") {
        let ghost before = string_seq(files@);
        files.push(String::from_str("tokenizer.json"));
        assert(string_seq(files@) =~= before.push("tokenizer.json"@));
    }
    Ok(files)
}

/// Size in megabytes recorded for an install of `total_bytes` bytes (at
/// least one).
pub open spec fn install_size_mb(total_bytes: u64) -> u32 {
    let mb = total_bytes / 1024 / 1024;
    (if mb < 1 {
        1
    } else {
        mb
    }) as u32
}

/// The manifest written for a pulled install: the variant's files and quant
/// label, the model's dimension, length and pooling (`last` pooling runs
/// one input at a time), and the description (the catalog's, else `Pulled
/// from <repo>`) tagged with the quant label.
pub fn install_manifest(
    local_id: &str,
    revision: &str,
    repo: &str,
    base_id: &str,
    variant: &OnnxVariant,
    native_dim: usize,
    max_len: usize,
    pooling: &str,
    catalog_description: Option<&str>,
) -> (m: ModelManifest)
    ensures
        m.id@ == local_id@ && m.revision@ == revision@ && m.repo@ == repo@,
        m.format@ == "onnx"@ && m.sha256@.len() == 0,
        m.model_file@ == variant.model_file@,
        m.tokenizer_file@ == "tokenizer.json"@,
        m.extra_files@ == variant.extra_files@,
        m.quant matches Some(q) && q@ == variant.label@,
        m.base_id@ == base_id@,
        m.native_dim == native_dim && m.max_len == max_len,
        m.pooling@ == pooling@,
        m.max_batch == (if pooling@ == "last"@ {
            1usize
        } else {
            0usize
        }),
        m.description@ == (match catalog_description {
            Some(d) => d@,
            None => "Pulled from "@ + repo@,
        }) + " ["@ + variant.label@ + "]"@,
        m.size_mb == install_size_mb(variant.total_bytes),
{
    let mut description = match catalog_description {
        Some(d) => String::from_str(d),
        None => {
            let mut t = String::from_str("Pulled from ");
            t.append(repo);
            t
        },
    };
    description.append(" [");
    description.append(variant.label.as_str());
    description.append("]");
    let mb = variant.total_bytes / 1024 / 1024;
    let size = if mb < 1 {
        1
    } else {
        mb
    };
    ModelManifest {
        id: String::from_str(local_id),
        revision: String::from_str(revision),
        repo: String::from_str(repo),
        format: String::from_str("onnx"),
        sha256: String::new(),
        model_file: variant.model_file.clone(),
        tokenizer_file: String::from_str("tokenizer.json"),
        extra_files: crate::catalog::clone_strings(&variant.extra_files),
        quant: Some(variant.label.clone()),
        base_id: String::from_str(base_id),
        native_dim,
        max_len,
        pooling: String::from_str(pooling),
        max_batch: if crate::text::str_eq(pooling, "last") {
            1
        } else {
            0
        },
        description,
        size_mb: size as u32,
    }
}

/// The user-catalog entry that pins a pulled install: its manifest's
/// repository, files and model metadata, with no checksums.
pub fn pinned_entry(m: &ModelManifest) -> (e: CatalogEntry)
    ensures
        e.id == m.id && e.repo == m.repo && e.revision == m.revision,
        e.sha256@.len() == 0 && e.sha256_model@.len() == 0 && e.sha256_tokenizer@.len() == 0,
        e.model_file == m.model_file && e.tokenizer_file == m.tokenizer_file,
        e.extra_files@ == m.extra_files@,
        e.format@ == "onnx"@,
        e.native_dim == m.native_dim && e.max_len == m.max_len && e.pooling == m.pooling,
        e.max_batch == m.max_batch && e.size_mb == m.size_mb && e.description == m.description,
{
    CatalogEntry {
        id: m.id.clone(),
        repo: m.repo.clone(),
        revision: m.revision.clone(),
        sha256: String::new(),
        sha256_model: String::new(),
        sha256_tokenizer: String::new(),
        model_file: m.model_file.clone(),
        tokenizer_file: m.tokenizer_file.clone(),
        extra_files: crate::catalog::clone_strings(&m.extra_files),
        format: String::from_str("onnx"),
        native_dim: m.native_dim,
        max_len: m.max_len,
        pooling: m.pooling.clone(),
        max_batch: m.max_batch,
        size_mb: m.size_mb,
        description: m.description.clone(),
    }
}

/// Label of an installed variant in the `models use` picker:
/// `[base] quant · id ~N MB [active]`.
pub open spec fn use_choice_label(v: InstalledVariant, active: Seq<char>) -> Seq<char> {
    "["@ + v.base_id@ + "] "@ + v.quant@ + " · "@ + v.id@ + (if v.size_mb > 0 {
        " ~"@ + decimal(v.size_mb as nat) + " MB"@
    } else {
        Seq::empty()
    }) + (if v.id@ == active {
        " [active]"@
    } else {
        Seq::empty()
    })
}

/// Label of an installed variant in the `models use` picker.
pub fn format_use_choice(v: &InstalledVariant, active: &str) -> (r: String)
    ensures
        r@ == use_choice_label(*v, active@),
{
    let mut s = String::from_str("[");
    s.append(v.base_id.as_str());
    s.append("] ");
    s.append(v.quant.as_str());
    s.append(" · ");
    s.append(v.id.as_str());
    let ghost head = s@;
    if v.size_mb > 0 {
        s.append(" ~");
        let n = u64_to_decimal(v.size_mb as u64);
        s.append(n.as_str());
        s.append(" MB");
    }
    let ghost mid = s@;
    if crate::text::str_eq(v.id.as_str(), active) {
        s.append(" [active]");
    }
    assert(s@ =~= use_choice_label(*v, active@));
    s
}

/// Fields of a Hugging Face `config.json` used to describe a pulled model.
pub struct HfConfig {
    pub hidden_size: Option<usize>,
    pub max_position_embeddings: Option<usize>,
}

/// Dimension, maximum length and pooling of a pulled model: from its config
/// when it could be fetched (defaults 384 and 512, length capped at 8192),
/// else 384, 512 and mean pooling.
pub fn infer_model_meta(cfg: Option<&HfConfig>, pooling: &str) -> (r: (usize, usize, String))
    ensures
        match cfg {
            Some(c) => {
                &&& r.0 == (match c.hidden_size {
                    Some(d) => d,
                    None => 384,
                })
                &&& r.1 == (if (match c.max_position_embeddings {
                    Some(m) => m,
                    None => 512,
                }) < 8192 {
                    (match c.max_position_embeddings {
                        Some(m) => m,
                        None => 512,
                    })
                } else {
                    8192
                })
                &&& r.2@ == pooling@
            },
            None => r.0 == 384 && r.1 == 512 && r.2@ == "mean"@,
        },
{
    match cfg {
        Some(c) => {
            let dim = match c.hidden_size {
                Some(d) => d,
                None => 384,
            };
            let max_pos = match c.max_position_embeddings {
                Some(m) => m,
                None => 512,
            };
            let max_len = if max_pos < 8192 {
                max_pos
            } else {
                8192
            };
            (dim, max_len, String::from_str(pooling))
        },
        None => (384, 512, String::from_str("mean")),
    }
}

/// `names` joined with `, `.
pub open spec fn comma_joined(names: Seq<Seq<char>>) -> Seq<char>
    decreases names.len(),
{
    if names.len() == 0 {
        Seq::empty()
    } else if names.len() == 1 {
        names[0]
    } else {
        comma_joined(names.drop_last()) + ", "@ + names.last()
    }
}

fn join_names(names: &Vec<String>) -> (r: String)
    ensures
        r@ == comma_joined(string_seq(names@)),
{
    let ghost ns = string_seq(names@);
    let mut s = String::new();
    let mut i: usize = 0;
    while i < names.len()
        invariant
            i <= names.len(),
            ns == string_seq(names@),
            s@ == comma_joined(ns.take(i as int)),
        decreases names.len() - i,
    {
        assert(ns.take(i + 1).drop_last() =~= ns.take(i as int));
        assert(ns.take(i + 1).last() == names@[i as int]@);
        if i > 0 {
            s.append(", ");
        }
        s.append(names[i].as_str());
        i += 1;
        assert(s@ =~= comma_joined(ns.take(i as int)));
    }
    assert(ns.take(names.len() as int) =~= ns);
    s
}

/// The model lines of the welcome banner: the active model and whether it
/// is installed, the installed models when it is not, and a tip to switch.
pub open spec fn model_status_spec(active: Seq<char>, active_installed: bool, installed: Seq<Seq<char>>) -> Seq<
    Seq<char>,
> {
    let head = if active_installed {
        seq!["  active:    "@ + active + " (installed)"@]
    } else if installed.len() == 0 {
        seq!["  active:    "@ + active + " (not installed)"@, "  installed: none"@]
    } else {
        seq![
            "  active:    "@ + active + " (not installed — pick one below)"@,
            "  installed: "@ + comma_joined(installed),
        ]
    };
    if installed.len() > 0 && !active_installed {
        head.push("  tip:       grepplus models use "@ + active)
    } else {
        head
    }
}

fn concat3(a: &str, b: &str, c: &str) -> (r: String)
    ensures
        r@ == a@ + b@ + c@,
{
    let mut s = String::from_str(a);
    s.append(b);
    s.append(c);
    s
}

/// The model lines of the welcome banner.
pub fn model_status_lines(active: &str, active_installed: bool, installed: &Vec<String>) -> (r: Vec<String>)
    ensures
        string_seq(r@) == model_status_spec(active@, active_installed, string_seq(installed@)),
{
    let mut out: Vec<String> = Vec::new();
    if active_installed {
        out.push(concat3("  active:    ", active, " (installed)"));
    } else if installed.len() == 0 {
        out.push(concat3("  active:    ", active, " (not installed)"));
        out.push(String::from_str("  installed: none"));
    } else {
        out.push(concat3("  active:    ", active, " (not installed — pick one below)"));
        let joined = join_names(installed);
        out.push(concat3("  installed: ", joined.as_str(), ""));
        assert(""@.len() == 0) by {
            reveal_strlit("");
        }
        assert(out@[1]@ =~= "  installed: "@ + comma_joined(string_seq(installed@)));
    }
    let ghost head = string_seq(out@);
    if installed.len() > 0 && !active_installed {
        out.push(concat3("  tip:       grepplus models use ", active, ""));
        assert(""@.len() == 0) by {
            reveal_strlit("");
        }
        assert(string_seq(out@) =~= head.push("  tip:       grepplus models use "@ + active@));
    }
    assert(string_seq(out@) =~= model_status_spec(active@, active_installed, string_seq(installed@)));
    out
}

/// The hint that points at `models install`, naming the default model and
/// its size when the catalog has one.
pub open spec fn install_hint_spec(catalog: Catalog) -> Seq<char> {
    if catalog.models@.len() == 0 {
        "Run `grepplus models install` to browse recommended models."@
    } else {
        let d = catalog.models@[0];
        if d.size_mb > 0 {
            "Run `grepplus models install` to browse recommended models (~"@ + decimal(
                d.size_mb as nat,
            ) + " MB default: "@ + d.id@ + ")."@
        } else {
            "Run `grepplus models install` to browse recommended models (default: "@ + d.id@
                + ")."@
        }
    }
}

/// The hint that points at `models install`.
pub fn install_hint(catalog: &Catalog) -> (r: String)
    ensures
        r@ == install_hint_spec(*catalog),
{
    match catalog.default_id() {
        None => String::from_str("Run `grepplus models install` to browse recommended models."),
        Some(default) => {
            let size = catalog.models[0].size_mb;
            if size > 0 {
                let mut s = String::from_str(
                    "Run `grepplus models install` to browse recommended models (~",
                );
                let n = u64_to_decimal(size as u64);
                s.append(n.as_str());
                s.append(" MB default: ");
                s.append(default);
                s.append(").");
                s
            } else {
                let mut s = String::from_str(
                    "Run `grepplus models install` to browse recommended models (default: ",
                );
                s.append(default);
                s.append(").");
                s
            }
        },
    }
}

// ---------------------------------------------------------------------
// Listing installed variants.

/// `a` lists before `b`: by family, then by install id.
pub open spec fn variant_lt(a: InstalledVariant, b: InstalledVariant) -> bool {
    seq_lt(a.base_id@, b.base_id@) || (a.base_id@ == b.base_id@ && seq_lt(a.id@, b.id@))
}

/// No variant lists before an earlier one.
pub open spec fn variants_sorted(s: Seq<InstalledVariant>) -> bool {
    forall|i: int, j: int| 0 <= i < j < s.len() ==> !variant_lt(#[trigger] s[j], #[trigger] s[i])
}

proof fn lemma_variant_lt_transitive(a: InstalledVariant, b: InstalledVariant, c: InstalledVariant)
    requires
        variant_lt(a, b),
        variant_lt(b, c),
    ensures
        variant_lt(a, c),
{
    if seq_lt(a.base_id@, b.base_id@) && seq_lt(b.base_id@, c.base_id@) {
        lemma_lt_transitive(a.base_id@, b.base_id@, c.base_id@);
    } else if seq_lt(a.id@, b.id@) && seq_lt(b.id@, c.id@) && a.base_id@ == b.base_id@
        && b.base_id@ == c.base_id@ {
        lemma_lt_transitive(a.id@, b.id@, c.id@);
    }
}

/// The sort key of a variant: family, then install id.
pub open spec fn variant_key(v: InstalledVariant) -> (Seq<char>, Seq<char>) {
    (v.base_id@, v.id@)
}

/// The variants of `s` whose sort key is `k`, in their order in `s`.
pub open spec fn with_key(s: Seq<InstalledVariant>, k: (Seq<char>, Seq<char>)) -> Seq<
    InstalledVariant,
>
    decreases s.len(),
{
    if s.len() == 0 {
        Seq::empty()
    } else if variant_key(s.last()) == k {
        with_key(s.drop_last(), k).push(s.last())
    } else {
        with_key(s.drop_last(), k)
    }
}

proof fn lemma_with_key_add(a: Seq<InstalledVariant>, b: Seq<InstalledVariant>, k: (
    Seq<char>,
    Seq<char>,
))
    ensures
        with_key(a + b, k) == with_key(a, k) + with_key(b, k),
    decreases b.len(),
{
    if b.len() == 0 {
        assert(a + b =~= a);
        assert(with_key(a, k) + with_key(b, k) =~= with_key(a, k));
    } else {
        assert((a + b).drop_last() =~= a + b.drop_last());
        assert((a + b).last() == b.last());
        lemma_with_key_add(a, b.drop_last(), k);
        if variant_key(b.last()) == k {
            assert(with_key(a, k) + with_key(b.drop_last(), k).push(b.last()) =~= (with_key(a, k)
                + with_key(b.drop_last(), k)).push(b.last()));
        }
    }
}

proof fn lemma_with_key_none(b: Seq<InstalledVariant>, k: (Seq<char>, Seq<char>))
    requires
        forall|j: int| 0 <= j < b.len() ==> variant_key(#[trigger] b[j]) != k,
    ensures
        with_key(b, k) == Seq::<InstalledVariant>::empty(),
    decreases b.len(),
{
    if b.len() > 0 {
        assert(variant_key(b[b.len() - 1]) != k);
        lemma_with_key_none(b.drop_last(), k);
    }
}

/// Inserting `x` at `p`, with no variant of `x`'s key at or after `p`,
/// appends `x` to its key's run and leaves the other keys' runs alone.
proof fn lemma_with_key_insert(
    before: Seq<InstalledVariant>,
    p: int,
    x: InstalledVariant,
    k: (Seq<char>, Seq<char>),
)
    requires
        0 <= p <= before.len(),
        forall|j: int| p <= j < before.len() ==> variant_key(#[trigger] before[j]) != variant_key(x),
    ensures
        with_key(before.insert(p, x), k) == if variant_key(x) == k {
            with_key(before, k).push(x)
        } else {
            with_key(before, k)
        },
{
    let head = before.take(p);
    let tail = before.skip(p);
    let one = seq![x];
    assert(before.insert(p, x) =~= head + one + tail);
    assert(before =~= head + tail);
    lemma_with_key_add(head + one, tail, k);
    lemma_with_key_add(head, one, k);
    lemma_with_key_add(head, tail, k);
    assert(one.drop_last() =~= Seq::<InstalledVariant>::empty());
    assert(one.last() == x);
    assert(with_key(one.drop_last(), k) =~= Seq::<InstalledVariant>::empty());
    assert(with_key(one, k) =~= if variant_key(x) == k {
        Seq::<InstalledVariant>::empty().push(x)
    } else {
        Seq::<InstalledVariant>::empty()
    });
    if variant_key(x) == k {
        assert forall|j: int| 0 <= j < tail.len() implies variant_key(#[trigger] tail[j]) != k by {
            assert(tail[j] == before[p + j]);
        }
        lemma_with_key_none(tail, k);
        assert(with_key(head, k) + with_key(one, k) =~= with_key(head, k).push(x));
        assert(with_key(head, k).push(x) + with_key(tail, k) =~= with_key(head, k).push(x));
        assert(with_key(head, k) + with_key(tail, k) =~= with_key(head, k));
    } else {
        assert(with_key(one, k) =~= Seq::<InstalledVariant>::empty());
        assert(with_key(head, k) + with_key(one, k) =~= with_key(head, k));
    }
}

fn variant_before(a: &InstalledVariant, b: &InstalledVariant) -> (r: bool)
    ensures
        r == variant_lt(*a, *b),
{
    let ab = chars_of(a.base_id.as_str());
    let bb = chars_of(b.base_id.as_str());
    if chars_lt(&ab, &bb) {
        return true;
    }
    if !crate::text::chars_eq(&ab, &bb) {
        return false;
    }
    let ai = chars_of(a.id.as_str());
    let bi = chars_of(b.id.as_str());
    chars_lt(&ai, &bi)
}

/// The variants ordered by family, then install id (stable: equal keys
/// keep their order), as the model list shows them.
pub fn sort_variants(v: Vec<InstalledVariant>) -> (r: Vec<InstalledVariant>)
    ensures
        variants_sorted(r@),
        r@.to_multiset() == v@.to_multiset(),
        forall|k: (Seq<char>, Seq<char>)| #[trigger] with_key(r@, k) == with_key(v@, k),
{
    broadcast use vstd::seq_lib::group_to_multiset_ensures;

    let ghost orig = v@;
    let mut rest = v;
    let mut out: Vec<InstalledVariant> = Vec::new();
    let mut taken: usize = 0;
    assert(orig.len() == rest.len());
    while rest.len() > 0
        invariant
            taken + rest@.len() == orig.len(),
            orig.len() <= usize::MAX,
            rest@ == orig.skip(taken as int),
            variants_sorted(out@),
            out@.to_multiset() == orig.take(taken as int).to_multiset(),
            forall|k: (Seq<char>, Seq<char>)| #[trigger] with_key(out@, k) == with_key(
                orig.take(taken as int),
                k,
            ),
        decreases rest@.len(),
    {
        let x = rest.remove(0);
        assert(x == orig[taken as int]);
        let mut p: usize = 0;
        let mut found = false;
        while p < out.len() && !found
            invariant
                p <= out.len(),
                forall|j: int| 0 <= j < p ==> !variant_lt(x, #[trigger] out@[j]),
                found ==> p < out.len() && variant_lt(x, out@[p as int]),
            decreases out.len() - p, if found { 0nat } else { 1nat },
        {
            if variant_before(&x, &out[p]) {
                found = true;
            } else {
                p += 1;
            }
        }
        let ghost before = out@;
        proof {
            assert forall|j: int| p <= j < before.len() implies !variant_lt(
                #[trigger] before[j],
                x,
            ) by {
                if variant_lt(before[j], x) {
                    assert(found);
                    if j > p {
                        assert(!variant_lt(before[j], before[p as int]));
                    }
                    lemma_variant_lt_transitive(before[j], x, before[p as int]);
                    lemma_lt_irreflexive(before[p as int].base_id@);
                    lemma_lt_irreflexive(before[p as int].id@);
                }
            }
        }
        proof {
            assert forall|j: int| p <= j < before.len() implies variant_key(#[trigger] before[j])
                != variant_key(x) by {
                if variant_key(before[j]) == variant_key(x) {
                    assert(found);
                    if j > p {
                        assert(!variant_lt(before[j], before[p as int]));
                    } else {
                        lemma_lt_irreflexive(before[p as int].base_id@);
                        lemma_lt_irreflexive(before[p as int].id@);
                    }
                }
            }
        }
        out.insert(p, x);
        proof {
            let after = out@;
            assert(orig.take(taken + 1).drop_last() =~= orig.take(taken as int));
            assert(orig.take(taken + 1).last() == x);
            assert forall|k: (Seq<char>, Seq<char>)| #[trigger] with_key(after, k) == with_key(
                orig.take(taken + 1),
                k,
            ) by {
                lemma_with_key_insert(before, p as int, x, k);
            }
            assert(after == before.insert(p as int, x));
            assert forall|i: int, j: int| 0 <= i < j < after.len() implies !variant_lt(
                #[trigger] after[j],
                #[trigger] after[i],
            ) by {
                if j < p {
                    assert(after[i] == before[i] && after[j] == before[j]);
                } else if j == p {
                    assert(after[j] == x && after[i] == before[i]);
                } else if i < p {
                    assert(after[j] == before[j - 1] && after[i] == before[i]);
                    if variant_lt(before[j - 1], before[i]) {
                        assert(!variant_lt(before[j - 1], before[i]));
                    }
                } else if i == p {
                    assert(after[i] == x && after[j] == before[j - 1]);
                } else {
                    assert(after[j] == before[j - 1] && after[i] == before[i - 1]);
                }
            }
            assert(orig.take(taken + 1) =~= orig.take(taken as int).push(x));
            vstd::seq_lib::to_multiset_insert(before, p as int, x);
            vstd::seq_lib::to_multiset_build(orig.take(taken as int), x);
        }
        taken += 1;
        assert(rest@ =~= orig.skip(taken as int));
    }
    assert(orig.take(orig.len() as int) =~= orig);
    out
}

/// An install whose local id is already present is kept as it is, unless
/// a forced reinstall was asked for.
pub fn keeps_install(installed: bool, force: bool) -> (r: bool)
    ensures
        r == (installed && !force),
{
    installed && !force
}

/// Size column of the model list: `~N MB`, or blanks when unknown.
pub open spec fn size_text(size_mb: u32) -> Seq<char> {
    if size_mb > 0 {
        "~"@ + decimal(size_mb as nat) + " MB"@
    } else {
        "       "@
    }
}

/// One line of the plain model list: quant, id and size in aligned
/// columns, and `[active]` on the active install.
pub open spec fn variant_line_spec(v: InstalledVariant, active: Seq<char>) -> Seq<char> {
    "    "@ + pad_right(v.quant@, 16) + " "@ + pad_right(v.id@, 26) + " "@ + pad_left(
        size_text(v.size_mb),
        8,
    ) + (if v.id@ == active {
        " [active]"@
    } else {
        Seq::empty()
    })
}

/// One line of the plain (non-terminal) model list.
pub fn installed_variant_line(v: &InstalledVariant, active: &str) -> (r: String)
    ensures
        r@ == variant_line_spec(*v, active@),
{
    let size = if v.size_mb > 0 {
        let mut t = String::from_str("~");
        let n = u64_to_decimal(v.size_mb as u64);
        t.append(n.as_str());
        t.append(" MB");
        t
    } else {
        String::from_str("       ")
    };
    let mut s = String::from_str("    ");
    push_padded_right(&mut s, v.quant.as_str(), 16);
    s.append(" ");
    push_padded_right(&mut s, v.id.as_str(), 26);
    s.append(" ");
    push_padded_left(&mut s, size.as_str(), 8);
    if crate::text::str_eq(v.id.as_str(), active) {
        s.append(" [active]");
    }
    assert(s@ =~= variant_line_spec(*v, active@));
    s
}

// ---------------------------------------------------------------------
// The model picker.

/// What picking an entry of the model picker does.
#[derive(Debug)]
pub enum ModelPickAction {
    /// Install (if needed) and activate this catalog model.
    Catalog(String),
    /// Activate an installed family that is not in the catalog.
    OtherFamily(String),
    /// Browse the hub for another model.
    HuggingFace,
    /// Go on without a model.
    Skip,
}

/// One entry of the model picker.
#[derive(Debug)]
pub struct ModelChoice {
    pub action: ModelPickAction,
    pub label: String,
}

/// Width of the id column of the picker.
pub const ID_WIDTH: usize = 26;

/// Some catalog entry has id `id`.
pub open spec fn in_catalog(models: Seq<CatalogEntry>, id: Seq<char>) -> bool {
    exists|i: int| 0 <= i < models.len() && (#[trigger] models[i]).id@ == id
}

/// The installed variants of family `b`, in order.
pub open spec fn family_of(v: Seq<InstalledVariant>, b: Seq<char>) -> Seq<InstalledVariant>
    decreases v.len(),
{
    if v.len() == 0 {
        Seq::empty()
    } else if v.last().base_id@ == b {
        family_of(v.drop_last(), b).push(v.last())
    } else {
        family_of(v.drop_last(), b)
    }
}

/// The largest size among `g` (zero for none).
pub open spec fn max_size(g: Seq<InstalledVariant>) -> u32
    decreases g.len(),
{
    if g.len() == 0 {
        0
    } else if g.last().size_mb > max_size(g.drop_last()) {
        g.last().size_mb
    } else {
        max_size(g.drop_last())
    }
}

/// `bases` lists, in ascending order and once each, the families of the
/// installed variants that are not catalog models.
pub open spec fn other_family_bases(
    bases: Seq<Seq<char>>,
    installed: Seq<InstalledVariant>,
    models: Seq<CatalogEntry>,
) -> bool {
    &&& strictly_sorted(bases)
    &&& forall|x: Seq<char>|
        #![trigger bases.contains(x)]
        bases.contains(x) <==> ((exists|j: int|
            0 <= j < installed.len() && (#[trigger] installed[j]).base_id@ == x) && !in_catalog(
            models,
            x,
        ))
}

/// Picker label of catalog entry `i`: id, size, description, the default
/// tag on the first model's id, and how many of its variants are installed.
pub open spec fn catalog_choice_label(
    models: Seq<CatalogEntry>,
    i: int,
    installed: Seq<InstalledVariant>,
) -> Seq<char> {
    let m = models[i];
    let n = count_base(installed, m.id@);
    pad_right(m.id@, 26) + " from ~"@ + pad_left(decimal(m.size_mb as nat), 3) + " MB  "@
        + m.description@ + (if m.id@ == models[0].id@ {
        " [default]"@
    } else {
        Seq::empty()
    }) + (if n > 0 {
        " ("@ + decimal(n) + " installed)"@
    } else {
        Seq::empty()
    })
}

/// Picker label of installed family `b`: its largest size, the first
/// variant's repository, and how many variants are installed.
pub open spec fn family_choice_label(b: Seq<char>, installed: Seq<InstalledVariant>) -> Seq<char> {
    let g = family_of(installed, b);
    pad_right(b, 26) + " from ~"@ + pad_left(decimal(max_size(g) as nat), 3) + " MB  "@ + g[0].repo@
        + (if g.len() > 1 {
        " ("@ + decimal(g.len()) + " installed)"@
    } else {
        " [installed]"@
    })
}

/// The family ids of a run of other-family choices.
pub open spec fn choice_families(s: Seq<ModelChoice>) -> Seq<Seq<char>> {
    s.map_values(
        |c: ModelChoice|
            match c.action {
                ModelPickAction::OtherFamily(b) => b@,
                _ => Seq::empty(),
            },
    )
}

fn in_catalog_exec(catalog: &Catalog, id: &str) -> (r: bool)
    ensures
        r == in_catalog(catalog.models@, id@),
{
    let mut i: usize = 0;
    while i < catalog.models.len()
        invariant
            i <= catalog.models.len(),
            forall|k: int| 0 <= k < i ==> (#[trigger] catalog.models@[k]).id@ != id@,
        decreases catalog.models.len() - i,
    {
        if crate::text::str_eq(catalog.models[i].id.as_str(), id) {
            return true;
        }
        i += 1;
    }
    false
}

fn push_decimal(s: &mut String, n: u64)
    ensures
        final(s)@ == old(s)@ + decimal(n as nat),
{
    let t = u64_to_decimal(n);
    s.append(t.as_str());
}

fn catalog_choice(catalog: &Catalog, i: usize, installed: &Vec<InstalledVariant>) -> (c: ModelChoice)
    requires
        i < catalog.models.len(),
    ensures
        c.action matches ModelPickAction::Catalog(id) && id@ == catalog.models@[i as int].id@,
        c.label@ == catalog_choice_label(catalog.models@, i as int, installed@),
{
    let m = &catalog.models[i];
    let n = count_variants_for_base(m.id.as_str(), installed.as_slice());
    let mut s = String::new();
    push_padded_right(&mut s, m.id.as_str(), ID_WIDTH);
    s.append(" from ~");
    let size = u64_to_decimal(m.size_mb as u64);
    push_padded_left(&mut s, size.as_str(), 3);
    s.append(" MB  ");
    s.append(m.description.as_str());
    if m.id == catalog.models[0].id {
        s.append(" [default]");
    }
    let ghost mid = s@;
    if n > 0 {
        s.append(" (");
        push_decimal(&mut s, n as u64);
        s.append(" installed)");
    }
    assert(s@ =~= catalog_choice_label(catalog.models@, i as int, installed@));
    ModelChoice { action: ModelPickAction::Catalog(m.id.clone()), label: s }
}

fn family_choice(base: &String, installed: &Vec<InstalledVariant>) -> (c: ModelChoice)
    requires
        exists|j: int| 0 <= j < installed.len() && (#[trigger] installed@[j]).base_id@ == base@,
    ensures
        c.action matches ModelPickAction::OtherFamily(b) && b@ == base@,
        c.label@ == family_choice_label(base@, installed@),
{
    let mut n: usize = 0;
    let mut size: u32 = 0;
    let mut repo = String::new();
    let mut i: usize = 0;
    while i < installed.len()
        invariant
            i <= installed.len(),
            n <= i,
            n == family_of(installed@.take(i as int), base@).len(),
            size == max_size(family_of(installed@.take(i as int), base@)),
            n > 0 ==> repo@ == family_of(installed@.take(i as int), base@)[0].repo@,
        decreases installed.len() - i,
    {
        let ghost fam = family_of(installed@.take(i as int), base@);
        assert(installed@.take(i + 1).drop_last() =~= installed@.take(i as int));
        assert(installed@.take(i + 1).last() == installed@[i as int]);
        if installed[i].base_id == *base {
            if n == 0 {
                repo = installed[i].repo.clone();
            }
            assert(fam.push(installed@[i as int])[0] == (if fam.len() > 0 {
                fam[0]
            } else {
                installed@[i as int]
            }));
            assert(fam.push(installed@[i as int]).drop_last() =~= fam);
            if installed[i].size_mb > size {
                size = installed[i].size_mb;
            }
            n += 1;
        }
        i += 1;
    }
    assert(installed@.take(installed.len() as int) =~= installed@);
    proof {
        lemma_family_nonempty(installed@, base@);
    }
    let mut s = String::new();
    push_padded_right(&mut s, base.as_str(), ID_WIDTH);
    s.append(" from ~");
    let sz = u64_to_decimal(size as u64);
    push_padded_left(&mut s, sz.as_str(), 3);
    s.append(" MB  ");
    s.append(repo.as_str());
    if n > 1 {
        s.append(" (");
        push_decimal(&mut s, n as u64);
        s.append(" installed)");
    } else {
        s.append(" [installed]");
    }
    assert(s@ =~= family_choice_label(base@, installed@));
    ModelChoice { action: ModelPickAction::OtherFamily(base.clone()), label: s }
}

proof fn lemma_family_nonempty(v: Seq<InstalledVariant>, b: Seq<char>)
    requires
        exists|j: int| 0 <= j < v.len() && (#[trigger] v[j]).base_id@ == b,
    ensures
        family_of(v, b).len() > 0,
    decreases v.len(),
{
    if v.last().base_id@ != b {
        let j = choose|j: int| 0 <= j < v.len() && (#[trigger] v[j]).base_id@ == b;
        assert(v.drop_last()[j] == v[j]);
        lemma_family_nonempty(v.drop_last(), b);
    }
}

/// The entries of the model picker: every catalog model, then every other
/// installed family in ascending order, then browsing the hub and
/// skipping.
pub fn model_choices(catalog: &Catalog, installed: &Vec<InstalledVariant>) -> (r: Vec<ModelChoice>)
    ensures
        r.len() >= catalog.models.len() + 2,
        forall|i: int|
            0 <= i < catalog.models.len() ==> ((#[trigger] r@[i]).action matches ModelPickAction::Catalog(
                id,
            ) && id@ == catalog.models@[i].id@) && r@[i].label@ == catalog_choice_label(
                catalog.models@,
                i,
                installed@,
            ),
        other_family_bases(
            choice_families(r@.subrange(catalog.models.len() as int, r.len() - 2)),
            installed@,
            catalog.models@,
        ),
        forall|k: int|
            catalog.models.len() <= k < r.len() - 2 ==> ((#[trigger] r@[k]).action matches ModelPickAction::OtherFamily(
                b,
            ) && r@[k].label@ == family_choice_label(b@, installed@)),
        r@[r.len() - 2].action is HuggingFace,
        r@[r.len() - 2].label@ == "Find more on Hugging Face…"@,
        r@[r.len() - 1].action is Skip,
        r@[r.len() - 1].label@ == "Skip for now"@,
{
    let n = catalog.models.len();
    let mut out: Vec<ModelChoice> = Vec::new();
    let mut i: usize = 0;
    while i < n
        invariant
            n == catalog.models.len(),
            i <= n,
            out.len() == i,
            forall|k: int|
                0 <= k < i ==> ((#[trigger] out@[k]).action matches ModelPickAction::Catalog(id)
                    && id@ == catalog.models@[k].id@) && out@[k].label@ == catalog_choice_label(
                    catalog.models@,
                    k,
                    installed@,
                ),
        decreases n - i,
    {
        out.push(catalog_choice(catalog, i, installed));
        i += 1;
    }
    let mut bases: Vec<String> = Vec::new();
    let mut j: usize = 0;
    while j < installed.len()
        invariant
            j <= installed.len(),
            strictly_sorted(views(bases@)),
            forall|x: Seq<char>|
                #![trigger views(bases@).contains(x)]
                views(bases@).contains(x) <==> ((exists|q: int|
                    0 <= q < j && (#[trigger] installed@[q]).base_id@ == x) && !in_catalog(
                    catalog.models@,
                    x,
                )),
        decreases installed.len() - j,
    {
        let ghost before = views(bases@);
        let b = &installed[j].base_id;
        if !in_catalog_exec(catalog, b.as_str()) {
            insert_sorted(&mut bases, b.clone());
        }
        proof {
            assert forall|x: Seq<char>| #![trigger views(bases@).contains(x)]
                views(bases@).contains(x) <==> ((exists|q: int|
                    0 <= q < j + 1 && (#[trigger] installed@[q]).base_id@ == x) && !in_catalog(
                    catalog.models@,
                    x,
                )) by {
                if (exists|q: int| 0 <= q < j + 1 && (#[trigger] installed@[q]).base_id@ == x) {
                    let q = choose|q: int| 0 <= q < j + 1 && (#[trigger] installed@[q]).base_id@ == x;
                    if q < j {
                        assert(exists|q2: int| 0 <= q2 < j && (#[trigger] installed@[q2]).base_id@ == x);
                    }
                }
                if (exists|q: int| 0 <= q < j && (#[trigger] installed@[q]).base_id@ == x) {
                    let q = choose|q: int| 0 <= q < j && (#[trigger] installed@[q]).base_id@ == x;
                    assert(0 <= q < j + 1 && installed@[q].base_id@ == x);
                }
                if x == installed@[j as int].base_id@ {
                    assert(0 <= j < j + 1 && installed@[j as int].base_id@ == x);
                }
            }
        }
        j += 1;
    }
    let ghost bv = views(bases@);
    let mut k: usize = 0;
    while k < bases.len()
        invariant
            n == catalog.models.len(),
            k <= bases.len(),
            bv == views(bases@),
            out.len() == n + k,
            forall|q: int|
                0 <= q < n ==> ((#[trigger] out@[q]).action matches ModelPickAction::Catalog(id)
                    && id@ == catalog.models@[q].id@) && out@[q].label@ == catalog_choice_label(
                    catalog.models@,
                    q,
                    installed@,
                ),
            choice_families(out@.subrange(n as int, out.len() as int)) == bv.take(k as int),
            forall|q: int|
                n <= q < out.len() ==> ((#[trigger] out@[q]).action matches ModelPickAction::OtherFamily(
                    b,
                ) && out@[q].label@ == family_choice_label(b@, installed@)),
            forall|x: Seq<char>|
                #![trigger bv.contains(x)]
                bv.contains(x) <==> ((exists|q: int|
                    0 <= q < installed.len() && (#[trigger] installed@[q]).base_id@ == x)
                    && !in_catalog(catalog.models@, x)),
        decreases bases.len() - k,
    {
        assert(bv[k as int] == bases@[k as int]@);
        assert(bv.contains(bv[k as int]));
        let c = family_choice(&bases[k], installed);
        let ghost before = out@;
        out.push(c);
        proof {
            assert(out@.subrange(n as int, out.len() as int) =~= before.subrange(
                n as int,
                before.len() as int,
            ).push(c));
            assert(bv.take(k + 1) =~= bv.take(k as int).push(bv[k as int]));
            assert(choice_families(out@.subrange(n as int, out.len() as int)) =~= choice_families(
                before.subrange(n as int, before.len() as int),
            ).push(bases@[k as int]@));
        }
        k += 1;
    }
    assert(bv.take(bases.len() as int) =~= bv);
    let ghost mid = out@;
    out.push(
        ModelChoice {
            action: ModelPickAction::HuggingFace,
            label: String::from_str("Find more on Hugging Face…"),
        },
    );
    out.push(ModelChoice { action: ModelPickAction::Skip, label: String::from_str("Skip for now") });
    assert(out@.subrange(n as int, out.len() - 2) =~= mid.subrange(n as int, mid.len() as int));
    out
}

/// The id a picker entry names, if any.
pub open spec fn action_id(a: ModelPickAction) -> Option<Seq<char>> {
    match a {
        ModelPickAction::Catalog(id) => Some(id@),
        ModelPickAction::OtherFamily(id) => Some(id@),
        _ => None,
    }
}

/// Index of the first entry naming `name`.
pub open spec fn first_named(choices: Seq<ModelChoice>, name: Seq<char>) -> Option<int>
    decreases choices.len(),
{
    if choices.len() == 0 {
        None
    } else {
        match first_named(choices.drop_last(), name) {
            Some(i) => Some(i),
            None => if action_id(choices.last().action) == Some(name) {
                Some(choices.len() - 1)
            } else {
                None
            },
        }
    }
}

proof fn lemma_first_named_stable(choices: Seq<ModelChoice>, name: Seq<char>, m: int)
    requires
        0 < m <= choices.len(),
        first_named(choices.take(m), name) is Some,
    ensures
        first_named(choices, name) == first_named(choices.take(m), name),
    decreases choices.len() - m,
{
    if m < choices.len() {
        assert(choices.take(m + 1).drop_last() =~= choices.take(m));
        lemma_first_named_stable(choices, name, m + 1);
    } else {
        assert(choices.take(m) =~= choices);
    }
}

/// The entry a typed answer selects: the first on an empty answer, the
/// numbered one (counting from one; zero counts as one) for a number, else
/// the entry naming that model id.
pub open spec fn selection_spec(choices: Seq<ModelChoice>, input: Seq<char>) -> Option<int> {
    let t = trim(input);
    if t.len() == 0 {
        Some(0)
    } else {
        match parse_usize_spec(t) {
            Some(n) => {
                let idx: int = if n == 0 {
                    0
                } else {
                    n - 1
                };
                if idx < choices.len() {
                    Some(idx)
                } else {
                    None
                }
            },
            None => first_named(choices, t),
        }
    }
}

/// The entry selected by an answer typed at the plain picker prompt.
pub fn pick_selection(choices: &Vec<ModelChoice>, input: &str) -> (r: Result<usize, GpError>)
    requires
        choices.len() > 0,
    ensures
        match selection_spec(choices@, input@) {
            Some(i) => r == Ok::<usize, GpError>(i as usize),
            None => r matches Err(GpError::Config(m)) && m@ == "invalid selection: "@ + trim(input@),
        },
{
    let t = trim_str(input);
    if t.len() == 0 {
        return Ok(0);
    }
    match parse_usize(&t) {
        Some(n) => {
            let idx = if n == 0 {
                0
            } else {
                n - 1
            };
            if idx < choices.len() {
                return Ok(idx);
            }
        },
        None => {
            let ghost cs = choices@;
            let mut i: usize = 0;
            while i < choices.len()
                invariant
                    i <= choices.len(),
                    cs == choices@,
                    t@ == trim(input@),
                    t@.len() > 0,
                    parse_usize_spec(t@) is None,
                    first_named(cs.take(i as int), t@) is None,
                decreases choices.len() - i,
            {
                assert(cs.take(i + 1).drop_last() =~= cs.take(i as int));
                assert(cs.take(i + 1).last() == choices@[i as int]);
                let named = match &choices[i].action {
                    ModelPickAction::Catalog(id) => crate::text::chars_eq(&chars_of(id.as_str()), &t),
                    ModelPickAction::OtherFamily(id) => crate::text::chars_eq(&chars_of(id.as_str()), &t),
                    _ => false,
                };
                if named {
                    proof {
                        lemma_first_named_stable(cs, t@, i + 1);
                    }
                    return Ok(i);
                }
                i += 1;
            }
            assert(cs.take(choices.len() as int) =~= cs);
        },
    }
    let mut m = String::from_str("invalid selection: ");
    let ts = crate::text::string_from_chars(&t);
    m.append(ts.as_str());
    Err(GpError::Config(m))
}

/// What activating an installed family does next.
#[derive(Debug)]
pub enum FamilyStep {
    /// Activate this install.
    Activate(String),
    /// Let the user choose among these installs.
    Choose(Vec<String>),
}

/// Activating family `base`: its only install directly, a choice among
/// several on a terminal; an error when none is installed or when several
/// are and no terminal can ask.
pub fn other_family_step(base: &str, installed: &Vec<InstalledVariant>, tty: bool) -> (r: Result<
    FamilyStep,
    GpError,
>)
    ensures
        family_of(installed@, base@).len() == 0 ==> (r matches Err(GpError::Config(m)) && m@
            == "no installed variants for "@ + base@),
        family_of(installed@, base@).len() == 1 ==> (r matches Ok(FamilyStep::Activate(id)) && id@
            == family_of(installed@, base@)[0].id@),
        family_of(installed@, base@).len() > 1 && !tty ==> (r matches Err(GpError::Config(m)) && m@
            == "pass a variant id, e.g. `grepplus models use "@ + family_of(installed@, base@)[0].id@
            + "`"@),
        family_of(installed@, base@).len() > 1 && tty ==> (r matches Ok(FamilyStep::Choose(ids))
            && ids@.map_values(|s: String| s@) == family_of(installed@, base@).map_values(
            |v: InstalledVariant| v.id@,
        )),
{
    let mut ids: Vec<String> = Vec::new();
    let mut i: usize = 0;
    while i < installed.len()
        invariant
            i <= installed.len(),
            ids@.map_values(|s: String| s@) == family_of(installed@.take(i as int), base@).map_values(
                |v: InstalledVariant| v.id@,
            ),
        decreases installed.len() - i,
    {
        let ghost before = ids@.map_values(|s: String| s@);
        assert(installed@.take(i + 1).drop_last() =~= installed@.take(i as int));
        assert(installed@.take(i + 1).last() == installed@[i as int]);
        if crate::text::str_eq(installed[i].base_id.as_str(), base) {
            ids.push(installed[i].id.clone());
            assert(ids@.map_values(|s: String| s@) =~= before.push(installed@[i as int].id@));
            assert(family_of(installed@.take(i + 1), base@).map_values(|v: InstalledVariant| v.id@)
                =~= family_of(installed@.take(i as int), base@).map_values(
                |v: InstalledVariant| v.id@,
            ).push(installed@[i as int].id@));
        }
        i += 1;
    }
    assert(installed@.take(installed.len() as int) =~= installed@);
    let ghost fam = family_of(installed@, base@);
    assert(ids@.len() == fam.len());
    if ids.len() == 0 {
        let mut m = String::from_str("no installed variants for ");
        m.append(base);
        return Err(GpError::Config(m));
    }
    assert(ids@.map_values(|s: String| s@)[0] == ids@[0]@);
    assert(fam.map_values(|v: InstalledVariant| v.id@)[0] == fam[0].id@);
    assert(ids@[0]@ == fam[0].id@);
    if ids.len() == 1 {
        let id = ids.remove(0);
        return Ok(FamilyStep::Activate(id));
    }
    if !tty {
        let mut m = String::from_str("pass a variant id, e.g. `grepplus models use ");
        m.append(ids[0].as_str());
        m.append("`");
        return Err(GpError::Config(m));
    }
    Ok(FamilyStep::Choose(ids))
}

/// What `models use` without an id does.
#[derive(Debug)]
pub enum UseStep {
    /// Activate this install.
    Use(String),
    /// Let the user choose among the installs.
    Choose,
}

/// `models use` without an id: the only install directly, a choice on a
/// terminal; an error when nothing is installed or no terminal can ask.
pub fn use_pick_step(variants: &Vec<InstalledVariant>, tty: bool) -> (r: Result<UseStep, GpError>)
    ensures
        variants.len() == 0 ==> (r matches Err(GpError::Config(m)) && m@
            == "no models installed — run `grepplus models install`"@),
        variants.len() == 1 ==> (r matches Ok(UseStep::Use(id)) && id@ == variants@[0].id@),
        variants.len() > 1 && !tty ==> (r matches Err(GpError::Config(m)) && m@
            == "pass a model id (e.g. `grepplus models use harrier-oss-v1-0.6b-model_fp16`)"@),
        variants.len() > 1 && tty ==> r matches Ok(UseStep::Choose),
{
    if variants.len() == 0 {
        return Err(GpError::Config(String::from_str("no models installed — run `grepplus models install`")));
    }
    if variants.len() == 1 {
        return Ok(UseStep::Use(variants[0].id.clone()));
    }
    if !tty {
        return Err(
            GpError::Config(
                String::from_str("pass a model id (e.g. `grepplus models use harrier-oss-v1-0.6b-model_fp16`)"),
            ),
        );
    }
    Ok(UseStep::Choose)
}

/// `format!("{:?}", s)`: the quoted, escaped Debug text of a string (a
/// function of the string alone).
pub uninterp spec fn str_debug(s: Seq<char>) -> Seq<char>;

/// The Debug text of `s`, as `format!("{:?}", s)` writes it.
#[verifier::external_body]
fn debug_text(s: &str) -> (r: String)
    ensures
        r@ == str_debug(s@),
{
    format!("{:?}", s)
}

/// A pasted hub repository is `org/name`: it holds a `/`, not at either end.
pub open spec fn valid_repo(repo: Seq<char>) -> bool {
    contains_seq(repo, seq!['/']) && repo[0] != '/' && repo.last() != '/'
}

/// Reads a pasted hub repository: `None` to go back to the list on an
/// empty answer, the trimmed repository when it is `org/name`.
pub fn check_hf_repo(input: &str) -> (r: Result<Option<String>, GpError>)
    ensures
        trim(input@).len() == 0 ==> r matches Ok(None),
        trim(input@).len() > 0 && valid_repo(trim(input@)) ==> (r matches Ok(Some(repo)) && repo@
            == trim(input@)),
        trim(input@).len() > 0 && !valid_repo(trim(input@)) ==> (r matches Err(GpError::Config(m))
            && m@ == "invalid repo "@ + str_debug(trim(input@))
            + " — use org/name, e.g. intfloat/e5-small-v2"@),
{
    let t = trim_str(input);
    if t.len() == 0 {
        return Ok(None);
    }
    let mut slash: Vec<char> = Vec::new();
    slash.push('/');
    let repo = crate::text::string_from_chars(&t);
    if !chars_contain(&t, &slash) || t[0] == '/' || t[t.len() - 1] == '/' {
        let mut m = String::from_str("invalid repo ");
        let d = debug_text(repo.as_str());
        m.append(d.as_str());
        m.append(" — use org/name, e.g. intfloat/e5-small-v2");
        return Err(GpError::Config(m));
    }
    Ok(Some(repo))
}

/// A hub repository that looks like an ONNX export (and not a GGUF one),
/// by its lowercase id.
pub open spec fn onnx_mirror(id: Seq<char>) -> bool {
    contains_seq(str_to_lowercase(id), "onnx"@) && !contains_seq(str_to_lowercase(id), "gguf"@)
}

/// The ONNX-looking repositories of `found`, in order.
pub open spec fn onnx_mirror_list(found: Seq<Seq<char>>) -> Seq<Seq<char>>
    decreases found.len(),
{
    if found.len() == 0 {
        Seq::empty()
    } else if onnx_mirror(found.last()) {
        onnx_mirror_list(found.drop_last()).push(found.last())
    } else {
        onnx_mirror_list(found.drop_last())
    }
}

/// Where to pull a repository without ONNX weights from: a catalog model is
/// stale and fails; otherwise the ONNX exports among the mirrors found,
/// failing when there are none.
pub fn onnx_mirrors(repo: &str, from_catalog: bool, found: &Vec<String>) -> (r: Result<
    Vec<String>,
    GpError,
>)
    ensures
        from_catalog ==> (r matches Err(GpError::Model(m)) && m@ == repo@
            + " has no ONNX weights (catalog entry may be stale)"@),
        !from_catalog && onnx_mirror_list(string_seq(found@)).len() == 0 ==> (r matches Err(
            GpError::Model(m),
        ) && m@ == repo@
            + " has no ONNX weights — grep+ needs an ONNX export (safetensors/GGUF alone are not supported)"@),
        !from_catalog && onnx_mirror_list(string_seq(found@)).len() > 0 ==> (r matches Ok(v)
            && string_seq(v@) == onnx_mirror_list(string_seq(found@))),
{
    if from_catalog {
        let mut m = String::from_str(repo);
        m.append(" has no ONNX weights (catalog entry may be stale)");
        return Err(GpError::Model(m));
    }
    let ghost fs = string_seq(found@);
    let onnx = chars_of("onnx");
    let gguf = chars_of("gguf");
    let mut out: Vec<String> = Vec::new();
    let mut i: usize = 0;
    while i < found.len()
        invariant
            i <= found.len(),
            fs == string_seq(found@),
            onnx@ == "onnx"@,
            gguf@ == "gguf"@,
            string_seq(out@) == onnx_mirror_list(fs.take(i as int)),
        decreases found.len() - i,
    {
        assert(fs.take(i + 1).drop_last() =~= fs.take(i as int));
        assert(fs.take(i + 1).last() == found@[i as int]@);
        let lower = crate::text::to_lowercase(found[i].as_str());
        let lc = chars_of(lower.as_str());
        if chars_contain(&lc, &onnx) && !chars_contain(&lc, &gguf) {
            let ghost before = string_seq(out@);
            out.push(found[i].clone());
            assert(string_seq(out@) =~= before.push(found@[i as int]@));
        }
        i += 1;
    }
    assert(fs.take(found.len() as int) =~= fs);
    if out.len() == 0 {
        let mut m = String::from_str(repo);
        m.append(
            " has no ONNX weights — grep+ needs an ONNX export (safetensors/GGUF alone are not supported)",
        );
        return Err(GpError::Model(m));
    }
    Ok(out)
}

} // verus!
