//! Where assets and their metadata are kept: the checks a store makes on
//! its directories, where a new asset's file goes, what removing one
//! touches, and the names metadata files get.

use vstd::prelude::*;
use crate::annex::annex_pairs;
use crate::assets::{Asset, AssetView};
use crate::collection::{Assets, has_checksum};
use crate::config::{
    Config, InfoFormat, OperationMode, info_extension, info_format_extension,
};
use crate::error::Error;
use crate::ident::{AssetId, Blake3Hasher, Blake3Sum, blake3_digest, is_asset_id};
use crate::json::Json;
use crate::paths::{
    FsPath, law_join_strip_prefix, parse_comps, render, spec_add_extension, spec_extension,
    spec_file_name, spec_file_stem, spec_is_absolute, spec_join, spec_parent, spec_starts_with,
    spec_strip_prefix, spec_with_extension, valid_comps, views,
};
use crate::text::{concat, owned, push_char};
use sugar_path::SugarPath;

verus! {

/// The message for a data directory outside the project.
pub open spec fn outside_project_message(data: Seq<Seq<char>>, project: Seq<Seq<char>>) -> Seq<
    char,
> {
    "Storage directory '"@ + render(data) + "' is not inside project root '"@ + render(project)
        + "'"@
}

/// The message for a data directory the user cannot write to.
pub open spec fn not_writable_message(data: Seq<Seq<char>>) -> Seq<char> {
    "Storage directory '"@ + render(data) + "' is not writable by the current user"@
}

/// The message for a destination file that is already there.
pub open spec fn data_file_exists_message(p: Seq<Seq<char>>) -> Seq<char> {
    "Data file '"@ + render(p) + "' already exists"@
}

/// `e` is a filesystem error with message `m`.
pub open spec fn is_filesystem_error(e: Error, m: Seq<char>) -> bool {
    e matches Error::Filesystem { message } && message@ == m
}

fn filesystem_error(a: &str, p: &FsPath, b: &str) -> (r: Error)
    ensures
        is_filesystem_error(r, a@ + render(p@) + b@),
{
    let t = p.to_text();
    let x = concat(a, t.as_str());
    let message = concat(x.as_str(), b);
    Error::Filesystem { message }
}

/// Checks that the data directory lies inside the project directory.
pub fn data_is_in_project(data_dir: &FsPath, project_dir: &FsPath) -> (r: Result<(), Error>)
    ensures
        r is Ok <==> spec_starts_with(data_dir@, project_dir@),
        r matches Err(e) ==> is_filesystem_error(
            e,
            outside_project_message(data_dir@, project_dir@),
        ),
{
    if data_dir.starts_with(project_dir) {
        Ok(())
    } else {
        let t = data_dir.to_text();
        let u = project_dir.to_text();
        let a = concat("Storage directory '", t.as_str());
        let b = concat(a.as_str(), "' is not inside project root '");
        let c = concat(b.as_str(), u.as_str());
        let message = concat(c.as_str(), "'");
        Err(Error::Filesystem { message })
    }
}

/// Checks that the data directory is writable, given whether its
/// permissions mark it read-only.
pub fn data_is_writable(data_dir: &FsPath, readonly: bool) -> (r: Result<(), Error>)
    ensures
        r is Ok <==> !readonly,
        r matches Err(e) ==> is_filesystem_error(e, not_writable_message(data_dir@)),
{
    if readonly {
        Err(filesystem_error("Storage directory '", data_dir, "' is not writable by the current user"))
    } else {
        Ok(())
    }
}

/// Whether `path` lies inside the project directory.
pub fn is_in_project(path: &FsPath, project_dir: &FsPath) -> (r: bool)
    ensures
        r == spec_starts_with(path@, project_dir@),
{
    path.starts_with(project_dir)
}

/// `path` relative to `prefix` when it lies under it, else `path` itself.
pub open spec fn relative_to_prefix(path: Seq<Seq<char>>, prefix: Seq<Seq<char>>) -> Seq<Seq<char>> {
    match spec_strip_prefix(path, prefix) {
        Some(q) => q,
        None => path,
    }
}

/// `path` relative to `prefix` when it lies under it, else `path` itself.
pub fn path_relative_to_prefix(path: &FsPath, prefix: &FsPath) -> (r: FsPath)
    ensures
        r@ == relative_to_prefix(path@, prefix@),
{
    match path.strip_prefix(prefix) {
        Some(q) => q,
        None => path.copy(),
    }
}

/// A file offered for tracking: where it is, its name, and its checksum.
#[derive(Debug)]
pub struct LocalFile {
    pub path: FsPath,
    pub filename: FsPath,
    pub blake3: Blake3Sum,
}

impl LocalFile {
    /// The file at the canonical path `path`, whose content has checksum
    /// `blake3`; its name is the last component of the path (empty when
    /// there is none).
    pub fn from_parts(path: FsPath, blake3: Blake3Sum) -> (r: LocalFile)
        ensures
            r.path@ == path@,
            r.filename@ == match spec_file_name(path@) {
                Some(n) => parse_comps(n),
                None => Seq::<Seq<char>>::empty(),
            },
            r.blake3@ == blake3@,
    {
        let filename = match path.file_name() {
            Some(n) => FsPath::parse(n.as_str()),
            None => FsPath::empty(),
        };
        LocalFile { path, filename, blake3 }
    }

    /// The BLAKE3 checksum of a file's content.
    pub fn compute_blake3(content: &[u8]) -> (r: Blake3Sum)
        ensures
            r@ == blake3_digest(content@),
    {
        let mut hasher = Blake3Hasher::new();
        hasher.update(content);
        assert(hasher.fed() =~= content@);
        hasher.finalize()
    }
}

/// Where a store keeps asset files, and how it brings them in.
#[derive(Debug)]
pub struct PlainBlob {
    pub project_dir: FsPath,
    pub data_dir: FsPath,
    pub copy: bool,
    pub rename: bool,
}

/// A store whose files and metadata git-annex keeps.
#[derive(Debug)]
pub struct AnnexedBlob {
    pub project_dir: FsPath,
    pub data_dir: FsPath,
    pub copy: bool,
    pub rename: bool,
}

/// Metadata files kept beside (or apart from) the asset files.
#[derive(Debug)]
pub struct SidecarInfo {
    pub project_dir: FsPath,
    pub data_dir: FsPath,
    pub format: InfoFormat,
    pub hidden: bool,
}

/// A store that holds nothing, used when none is configured.
#[derive(Debug)]
pub struct DummyStorage {
    pub config: Config,
}

impl DummyStorage {
    pub fn new(config: Config) -> (r: DummyStorage)
        ensures
            r.config == config,
    {
        DummyStorage { config }
    }
}

/// `e` is the error for a store that has no configuration.
pub open spec fn is_missing_storage(e: Error, driver: Seq<char>) -> bool {
    e matches Error::MissingStorageConfig { driver: d } && d@ == driver
}

impl PlainBlob {
    /// The plain store of a configuration, given the canonical project and
    /// data directories and whether the data directory is read-only. Fails
    /// when the configuration has no filesystem section, when the data
    /// directory lies outside the project, or when it is read-only.
    pub fn init(config: &Config, project_dir: FsPath, data_dir: FsPath, data_readonly: bool) -> (r:
        Result<PlainBlob, Error>)
        ensures
            match config.filesystem {
                None => r matches Err(e) && is_missing_storage(e, "filesystem"@),
                Some(f) => if !spec_starts_with(data_dir@, project_dir@) {
                    r matches Err(e) && is_filesystem_error(
                        e,
                        outside_project_message(data_dir@, project_dir@),
                    )
                } else if data_readonly {
                    r matches Err(e) && is_filesystem_error(e, not_writable_message(data_dir@))
                } else {
                    r matches Ok(b) && b.project_dir@ == project_dir@ && b.data_dir@ == data_dir@
                        && b.copy == f.copy && b.rename == f.rename
                },
            },
    {
        let storage_config = match &config.filesystem {
            Some(f) => f,
            None => {
                return Err(Error::MissingStorageConfig { driver: owned("filesystem") });
            },
        };
        data_is_in_project(&data_dir, &project_dir)?;
        data_is_writable(&data_dir, data_readonly)?;
        Ok(PlainBlob {
            project_dir,
            data_dir,
            copy: storage_config.copy,
            rename: storage_config.rename,
        })
    }
}

impl AnnexedBlob {
    /// The git-annex store of a configuration, given the canonical project
    /// and data directories and whether the data directory is read-only.
    pub fn init(config: &Config, project_dir: FsPath, data_dir: FsPath, data_readonly: bool) -> (r:
        Result<AnnexedBlob, Error>)
        ensures
            match config.git_annex {
                None => r matches Err(e) && is_missing_storage(e, "git-annex"@),
                Some(g) => if !spec_starts_with(data_dir@, project_dir@) {
                    r matches Err(e) && is_filesystem_error(
                        e,
                        outside_project_message(data_dir@, project_dir@),
                    )
                } else if data_readonly {
                    r matches Err(e) && is_filesystem_error(e, not_writable_message(data_dir@))
                } else {
                    r matches Ok(b) && b.project_dir@ == project_dir@ && b.data_dir@ == data_dir@
                        && b.copy == g.copy && b.rename == g.rename
                },
            },
    {
        let storage_config = match &config.git_annex {
            Some(g) => g,
            None => {
                return Err(Error::MissingStorageConfig { driver: owned("git-annex") });
            },
        };
        data_is_in_project(&data_dir, &project_dir)?;
        data_is_writable(&data_dir, data_readonly)?;
        Ok(AnnexedBlob {
            project_dir,
            data_dir,
            copy: storage_config.copy,
            rename: storage_config.rename,
        })
    }
}

impl SidecarInfo {
    /// The sidecar metadata store of a configuration, given the canonical
    /// project and data directories.
    pub fn new(config: &Config, project_dir: FsPath, data_dir: FsPath) -> (r: Result<
        SidecarInfo,
        Error,
    >)
        ensures
            match config.sidecar {
                None => r matches Err(e) && (e matches Error::MissingInfoConfig { driver } && driver@
                    == "sidecar"@),
                Some(c) => r matches Ok(s) && s.project_dir@ == project_dir@ && s.data_dir@
                    == data_dir@ && s.format == c.format && s.hidden == c.hidden,
            },
    {
        match &config.sidecar {
            Some(c) => Ok(SidecarInfo { project_dir, data_dir, format: c.format, hidden: c.hidden }),
            None => Err(Error::MissingInfoConfig { driver: owned("sidecar") }),
        }
    }
}


// ---------------------------------------------------------------------------
// Bringing a file in

/// The name a copied file gets before its extension: the asset's identifier
/// when renaming, else the stem of the source file (empty when none).
pub open spec fn dest_base(rename: bool, id: Seq<char>, source: Seq<Seq<char>>) -> Seq<Seq<char>> {
    if rename {
        parse_comps(id)
    } else {
        match spec_file_stem(source) {
            Some(s) => parse_comps(s),
            None => seq![],
        }
    }
}

/// The extension of the source file, empty when it has none.
pub open spec fn source_extension(source: Seq<Seq<char>>) -> Seq<char> {
    match spec_extension(source) {
        Some(e) => e,
        None => seq![],
    }
}

/// Where a new asset's file lies: copied into the data directory under
/// `dest_base` with the source's extension, or left where it is.
pub open spec fn placed_path(
    copy: bool,
    rename: bool,
    data_dir: Seq<Seq<char>>,
    id: Seq<char>,
    source: Seq<Seq<char>>,
) -> Seq<Seq<char>> {
    if copy {
        spec_add_extension(spec_join(data_dir, dest_base(rename, id, source)), source_extension(source))
    } else {
        source
    }
}

/// The checked closure answered `a` when asked about path `p`.
pub open spec fn exists_answer<F: Fn(&FsPath) -> Result<bool, Error>>(
    f: F,
    p: Seq<Seq<char>>,
    a: Result<bool, Error>,
) -> bool {
    exists|c: &FsPath| c@ == p && #[trigger] f.ensures((c,), a)
}

/// What bringing a file in decided: the new asset, where its file lies, and
/// what remains to be done (nothing when only checking).
#[derive(Debug)]
pub struct Ingested {
    pub asset: Asset,
    pub asset_path_abs: FsPath,
    /// Copy this file to `asset_path_abs`.
    pub copy_from: Option<FsPath>,
    /// Paths to stage in version tracking.
    pub stage: Vec<FsPath>,
    /// Write the asset's metadata to the metadata store.
    pub write: bool,
    /// Record only the asset's identifier in git-annex metadata.
    pub write_min: bool,
}

/// `g` is what bringing in `source` under these settings gives, for the
/// fresh identifier the asset got.
pub open spec fn ingested_as(
    g: Ingested,
    project_dir: Seq<Seq<char>>,
    data_dir: Seq<Seq<char>>,
    copy: bool,
    rename: bool,
    minimal: bool,
    mode: OperationMode,
    source: LocalFile,
) -> bool {
    let id = g.asset@.id;
    let abs = placed_path(copy, rename, data_dir, id, source.path@);
    &&& is_asset_id(id)
    &&& g.asset_path_abs@ == abs
    &&& g.asset@ == AssetView {
        id,
        blake3: Some(source.blake3@),
        asset_path: Some(relative_to_prefix(abs, project_dir)),
        transaction: None,
        ocr: None,
        source_fname: Some(source.path@),
        extra: Seq::<(Seq<char>, Json)>::empty(),
    }
    &&& if mode == OperationMode::JustCheck {
        g.copy_from is None && g.stage@.len() == 0 && !g.write && !g.write_min
    } else {
        &&& (if copy {
            g.copy_from matches Some(c) && c@ == source.path@
        } else {
            g.copy_from is None
        })
        &&& g.stage@.len() == 1 && g.stage@[0]@ == abs
        &&& g.write == !minimal
        &&& g.write_min == minimal
    }
}

/// The outcome of bringing `source` in: nothing when (unless only running)
/// an asset with the same checksum is listed; else the new asset, after
/// checking, when not renaming and not only running, that nothing lies at
/// the destination yet.
pub open spec fn ingest_outcome<F: Fn(&FsPath) -> Result<bool, Error>>(
    r: Result<Option<Ingested>, Error>,
    project_dir: Seq<Seq<char>>,
    data_dir: Seq<Seq<char>>,
    copy: bool,
    rename: bool,
    minimal: bool,
    mode: OperationMode,
    source: LocalFile,
    listed: Seq<AssetView>,
    try_exists: F,
) -> bool {
    let checks = mode != OperationMode::JustRun;
    let must_be_free = checks && !rename;
    let free_dest = placed_path(copy, false, data_dir, seq![], source.path@);
    if checks && has_checksum(listed, source.blake3@) {
        r matches Ok(None)
    } else {
        match r {
            Ok(None) => false,
            Ok(Some(g)) => ingested_as(g, project_dir, data_dir, copy, rename, minimal, mode, source) && (
            must_be_free ==> exists_answer(try_exists, free_dest, Ok(false))),
            Err(e) => must_be_free && (exists_answer(try_exists, free_dest, Err(e)) || (
            exists_answer(try_exists, free_dest, Ok(true)) && is_filesystem_error(
                e,
                data_file_exists_message(free_dest),
            ))),
        }
    }
}

proof fn lemma_placed_free(copy: bool, data_dir: Seq<Seq<char>>, id: Seq<char>, source: Seq<Seq<char>>)
    ensures
        placed_path(copy, false, data_dir, id, source) == placed_path(copy, false, data_dir, seq![], source),
{
}

/// Brings `source` in (see `ingest_outcome`). `listed` is what the metadata
/// store lists (consulted unless only running); `try_exists` says whether a
/// path exists.
fn plan_ingest<F: Fn(&FsPath) -> Result<bool, Error>>(
    project_dir: &FsPath,
    data_dir: &FsPath,
    copy: bool,
    rename: bool,
    minimal: bool,
    mode: OperationMode,
    source: &LocalFile,
    listed: &Assets,
    try_exists: F,
) -> (r: Result<Option<Ingested>, Error>)
    requires
        forall|c: &FsPath| #[trigger] try_exists.requires((c,)),
    ensures
        ingest_outcome(r, project_dir@, data_dir@, copy, rename, minimal, mode, *source, listed@, try_exists),
{
    if mode != OperationMode::JustRun {
        if listed.any_with_checksum(&source.blake3) {
            return Ok(None);
        }
    }
    let mut asset = match Asset::new(None, Some(&source.path), Some(source.blake3)) {
        Ok(a) => a,
        Err(e) => {
            return Err(e);
        },
    };
    let ext = match source.path.extension() {
        Some(e) => e,
        None => String::new(),
    };
    let dest_base = if rename {
        FsPath::parse(asset.id().as_str())
    } else {
        match source.path.file_stem() {
            Some(s) => FsPath::parse(s.as_str()),
            None => FsPath::empty(),
        }
    };
    let asset_path_abs = if copy {
        data_dir.join(&dest_base).add_extension(ext.as_str())
    } else {
        source.path.copy()
    };
    let asset_path = path_relative_to_prefix(&asset_path_abs, project_dir);
    asset.set_asset_path(Some(&asset_path));
    proof {
        lemma_placed_free(copy, data_dir@, asset@.id, source.path@);
    }
    if mode != OperationMode::JustRun && !rename {
        let taken = try_exists(&asset_path_abs);
        match taken {
            Ok(true) => {
                return Err(filesystem_error("Data file '", &asset_path_abs, "' already exists"));
            },
            Ok(false) => {},
            Err(e) => {
                return Err(e);
            },
        }
    }
    let mut stage: Vec<FsPath> = Vec::new();
    let mut copy_from: Option<FsPath> = None;
    let mut write = false;
    let mut write_min = false;
    if mode != OperationMode::JustCheck {
        if copy {
            copy_from = Some(source.path.copy());
        }
        stage.push(asset_path_abs.copy());
        write = !minimal;
        write_min = minimal;
    }
    Ok(Some(Ingested { asset, asset_path_abs, copy_from, stage, write, write_min }))
}

impl PlainBlob {
    /// Brings `source` in (see `ingest_outcome`): `listed` is what the
    /// metadata store lists, `try_exists` whether a path exists.
    pub fn ingest<F: Fn(&FsPath) -> Result<bool, Error>>(
        &self,
        mode: OperationMode,
        source: &LocalFile,
        listed: &Assets,
        try_exists: F,
    ) -> (r: Result<Option<Ingested>, Error>)
        requires
            forall|c: &FsPath| #[trigger] try_exists.requires((c,)),
        ensures
            ingest_outcome(
                r,
                self.project_dir@,
                self.data_dir@,
                self.copy,
                self.rename,
                false,
                mode,
                *source,
                listed@,
                try_exists,
            ),
    {
        plan_ingest(
            &self.project_dir,
            &self.data_dir,
            self.copy,
            self.rename,
            false,
            mode,
            source,
            listed,
            try_exists,
        )
    }
}

impl AnnexedBlob {
    /// Brings `source` in (see `ingest_outcome`): `listed` is what git-annex
    /// lists, `try_exists` whether a path exists. When the metadata store is
    /// not git-annex itself, only the identifier is recorded in git-annex.
    pub fn ingest<F: Fn(&FsPath) -> Result<bool, Error>>(
        &self,
        mode: OperationMode,
        source: &LocalFile,
        listed: &Assets,
        info_is_annex: bool,
        try_exists: F,
    ) -> (r: Result<Option<Ingested>, Error>)
        requires
            forall|c: &FsPath| #[trigger] try_exists.requires((c,)),
        ensures
            ingest_outcome(
                r,
                self.project_dir@,
                self.data_dir@,
                self.copy,
                self.rename,
                !info_is_annex,
                mode,
                *source,
                listed@,
                try_exists,
            ),
    {
        plan_ingest(
            &self.project_dir,
            &self.data_dir,
            self.copy,
            self.rename,
            !info_is_annex,
            mode,
            source,
            listed,
            try_exists,
        )
    }
}


// ---------------------------------------------------------------------------
// Taking an asset out

/// What removing an asset touches: a file to delete (and stage), and
/// whether to erase its metadata.
#[derive(Debug)]
pub struct Egest {
    pub remove: Option<FsPath>,
    pub erase_info: bool,
}

/// `present` answered `b` when asked about path `p`.
pub open spec fn path_answer<F: Fn(&FsPath) -> bool>(present: F, p: Seq<Seq<char>>, b: bool) -> bool {
    exists|c: &FsPath| c@ == p && #[trigger] present.ensures((c,), b)
}

impl PlainBlob {
    /// What removing `asset` touches: its file, when it exists and lies in
    /// the project (a file outside is left alone); its metadata always.
    pub fn egest<F: Fn(&FsPath) -> bool>(&self, asset: &Asset, present: F) -> (r: Egest)
        requires
            forall|c: &FsPath| #[trigger] present.requires((c,)),
        ensures
            r.erase_info,
            match asset@.asset_path {
                None => r.remove is None,
                Some(p) => {
                    let full = spec_join(self.project_dir@, p);
                    ||| r.remove matches Some(q) && q@ == full && path_answer(present, full, true)
                        && spec_starts_with(full, self.project_dir@)
                    ||| r.remove is None && (path_answer(present, full, false) || (path_answer(
                        present,
                        full,
                        true,
                    ) && !spec_starts_with(full, self.project_dir@)))
                },
            },
    {
        let remove = match asset.asset_path(&self.project_dir) {
            Some(p) => {
                if present(&p) {
                    if p.starts_with(&self.project_dir) {
                        Some(p)
                    } else {
                        None
                    }
                } else {
                    None
                }
            },
            None => None,
        };
        Egest { remove, erase_info: true }
    }
}

impl AnnexedBlob {
    /// What removing `asset` touches: its file and its metadata, when the
    /// file exists; nothing otherwise.
    pub fn egest<F: Fn(&FsPath) -> bool>(&self, asset: &Asset, present: F) -> (r: Egest)
        requires
            forall|c: &FsPath| #[trigger] present.requires((c,)),
        ensures
            r.erase_info == r.remove is Some,
            match asset@.asset_path {
                None => r.remove is None,
                Some(p) => {
                    let full = spec_join(self.project_dir@, p);
                    ||| r.remove matches Some(q) && q@ == full && path_answer(present, full, true)
                    ||| r.remove is None && path_answer(present, full, false)
                },
            },
    {
        let remove = match asset.asset_path(&self.project_dir) {
            Some(p) => {
                if present(&p) {
                    Some(p)
                } else {
                    None
                }
            },
            None => None,
        };
        let erase_info = remove.is_some();
        Egest { remove, erase_info }
    }
}

// ---------------------------------------------------------------------------
// Sidecar metadata files

/// The name of an asset file's metadata file before its extension is set:
/// the asset file's name, with a leading `.` when hidden.
pub open spec fn sidecar_base(name: Seq<char>, hidden: bool) -> Seq<char> {
    if hidden {
        seq!['.'] + name
    } else {
        name
    }
}

/// The metadata file of the asset file at `path`: beside it, named after
/// it, with the format's extension in place of its own.
pub open spec fn sidecar_path(path: Seq<Seq<char>>, hidden: bool, format: InfoFormat) -> Seq<
    Seq<char>,
> {
    spec_with_extension(
        spec_join(
            spec_parent(path).unwrap(),
            parse_comps(sidecar_base(spec_file_name(path).unwrap(), hidden)),
        ),
        info_format_extension(format),
    )
}

/// The glob pattern that finds the metadata files in the data directory:
/// hidden files, or files not starting with `.`, with the format's
/// extension.
pub open spec fn sidecar_pattern(data_dir: Seq<Seq<char>>, hidden: bool, format: InfoFormat) -> Seq<
    char,
> {
    render(data_dir) + (if hidden {
        "/.*."@
    } else {
        "/[!.]*."@
    }) + info_format_extension(format)
}

/// A path relative to `base`, as `sugar_path` computes it.
pub uninterp spec fn relative_text(target: Seq<char>, base: Seq<char>) -> Seq<char>;

/// `target` written relative to `base`, both absolute.
/// Trusted: `sugar_path::SugarPath::relative`. For two absolute paths its
/// source computes the result from the two texts alone (no current
/// directory is consulted, so it cannot panic); the result is the name above.
#[verifier::external_body]
fn relative_to(target: &str, base: &str) -> (r: String)
    requires
        target@.len() > 0 && target@[0] == '/',
        base@.len() > 0 && base@[0] == '/',
    ensures
        r@ == relative_text(target@, base@),
{
    std::path::Path::new(target).relative(base).to_string_lossy().into_owned()
}

proof fn lemma_absolute_render(p: Seq<Seq<char>>)
    requires
        spec_is_absolute(p),
    ensures
        render(p).len() > 0 && render(p)[0] == '/',
{
}

impl SidecarInfo {
    /// The metadata file of `asset` (see `sidecar_path`), whose file lies
    /// at its asset path taken from the project directory.
    pub fn metadata_path(&self, asset: &Asset) -> (r: FsPath)
        requires
            asset@.asset_path is Some,
            spec_file_name(spec_join(self.project_dir@, asset@.asset_path.unwrap())) is Some,
            spec_parent(spec_join(self.project_dir@, asset@.asset_path.unwrap())) is Some,
        ensures
            r@ == sidecar_path(
                spec_join(self.project_dir@, asset@.asset_path.unwrap()),
                self.hidden,
                self.format,
            ),
    {
        let path = match asset.asset_path(&self.project_dir) {
            Some(p) => p,
            None => FsPath::empty(),
        };
        let name = match path.file_name() {
            Some(n) => n,
            None => String::new(),
        };
        let base_name = if self.hidden {
            concat(".", name.as_str())
        } else {
            name
        };
        proof {
            reveal_strlit(".");
        }
        let parent = match path.parent() {
            Some(p) => p,
            None => FsPath::empty(),
        };
        let ext = info_extension(self.format);
        proof {
            reveal_strlit("json");
            reveal_strlit("toml");
            reveal_strlit("yaml");
            reveal_strlit("hjson");
            reveal_strlit("xml");
        }
        assert(path@ == spec_join(self.project_dir@, asset@.asset_path.unwrap()));
        assert(name@ == spec_file_name(path@).unwrap());
        assert(base_name@ == sidecar_base(name@, self.hidden));
        assert(parent@ == spec_parent(path@).unwrap());
        let b = FsPath::parse(base_name.as_str());
        let j = parent.join(&b);
        let r = j.with_extension(ext);
        assert(r@ == spec_with_extension(j@, ext@));
        r
    }

    /// The glob pattern that finds the metadata files (see `sidecar_pattern`).
    pub fn list_pattern(&self) -> (r: String)
        ensures
            r@ == sidecar_pattern(self.data_dir@, self.hidden, self.format),
    {
        let dir = self.data_dir.to_text();
        let a = if self.hidden {
            concat(dir.as_str(), "/.*.")
        } else {
            concat(dir.as_str(), "/[!.]*.")
        };
        concat(a.as_str(), info_extension(self.format))
    }

    /// Where a listed asset's file is reported to lie: relative to the
    /// current directory when both lie in the project, else relative to the
    /// project (when inside it) or as it is.
    pub fn listed_path(&self, asset_path: &FsPath, cwd: &FsPath) -> (r: FsPath)
        requires
            spec_is_absolute(self.project_dir@),
        ensures
            if spec_starts_with(asset_path@, self.project_dir@) && spec_starts_with(
                cwd@,
                self.project_dir@,
            ) {
                r@ == parse_comps(
                    relative_text(
                        render(spec_join(self.project_dir@, asset_path@)),
                        render(cwd@),
                    ),
                )
            } else {
                r@ == relative_to_prefix(asset_path@, self.project_dir@)
            },
    {
        if asset_path.starts_with(&self.project_dir) && cwd.starts_with(&self.project_dir) {
            let full = self.project_dir.join(asset_path);
            proof {
                assert(full@[0] == self.project_dir@[0]);
                lemma_absolute_render(full@);
                assert(cwd@[0] == self.project_dir@[0]);
                lemma_absolute_render(cwd@);
            }
            let t = full.to_text();
            let b = cwd.to_text();
            let rel = relative_to(t.as_str(), b.as_str());
            FsPath::parse(rel.as_str())
        } else {
            path_relative_to_prefix(asset_path, &self.project_dir)
        }
    }
}


// ---------------------------------------------------------------------------
// git-annex commands

/// `-s` before each pair.
pub open spec fn set_args(pairs: Seq<Seq<char>>) -> Seq<Seq<char>>
    decreases pairs.len(),
{
    if pairs.len() == 0 {
        seq![]
    } else {
        set_args(pairs.drop_last()) + seq!["-s"@, pairs.last()]
    }
}

/// The arguments of `git-annex` that write an asset's metadata to its file
/// at `path`: all fields, replacing what was there, or only the identifier.
pub open spec fn metadata_write_args(path: Seq<char>, a: AssetView, min: bool) -> Seq<Seq<char>> {
    seq!["metadata"@, path] + (if min {
        seq![]
    } else {
        seq!["--remove-all"@]
    }) + set_args(annex_pairs(a, min))
}

/// The arguments of `git-annex` that list the files carrying an identifier.
pub open spec fn metadata_list_args() -> Seq<Seq<char>> {
    seq!["metadata"@, "--json"@, "--metadata"@, "acceptarium.id=*"@]
}

/// The arguments of `git-annex` that find the file with identifier `id`.
pub open spec fn metadata_load_args(id: Seq<char>) -> Seq<Seq<char>> {
    seq!["metadata"@, "--json"@, "--metadata"@, "acceptarium.id="@ + id]
}

/// The message of a failed `git-annex` run.
pub open spec fn annex_failure_message(stdout: Seq<char>, stderr: Seq<char>) -> Seq<char> {
    "git-annex failed: "@ + stdout + " "@ + stderr
}

fn push_owned(v: &mut Vec<String>, t: String)
    ensures
        views(final(v)@) == views(old(v)@).push(t@),
{
    let ghost tv = t@;
    v.push(t);
    assert(views(v@) =~= views(old(v)@).push(tv));
}

fn push_text(v: &mut Vec<String>, t: &str)
    ensures
        views(final(v)@) == views(old(v)@).push(t@),
{
    v.push(owned(t));
    assert(views(v@) =~= views(old(v)@).push(t@));
}

impl AnnexedBlob {
    /// The `git-annex` arguments that write `asset`'s metadata (see
    /// `metadata_write_args`); fails when the asset has no path.
    pub fn write_args(&self, asset: &Asset, min: bool) -> (r: Result<Vec<String>, Error>)
        ensures
            match asset@.asset_path {
                None => r matches Err(Error::ExternalCommand { message }) && message@
                    == "Asset has no asset path"@,
                Some(p) => r matches Ok(v) && views(v@) == metadata_write_args(
                    render(spec_join(self.project_dir@, p)),
                    asset@,
                    min,
                ),
            },
    {
        let kvpairs = asset.to_annex_metadata(min);
        let asset_path = match asset.asset_path(&self.project_dir) {
            Some(p) => p,
            None => {
                return Err(Error::ExternalCommand { message: owned("Asset has no asset path") });
            },
        };
        let mut args: Vec<String> = Vec::new();
        push_text(&mut args, "metadata");
        push_owned(&mut args, asset_path.to_text());
        if !min {
            push_text(&mut args, "--remove-all");
        }
        let ghost head = views(args@);
        proof {
            reveal_strlit("metadata");
            reveal_strlit("--remove-all");
            assert(head =~= seq!["metadata"@, render(asset_path@)] + (if min {
                seq![]
            } else {
                seq!["--remove-all"@]
            }));
        }
        let n = kvpairs.len();
        let mut i: usize = 0;
        assert(views(kvpairs@).take(0) =~= Seq::<Seq<char>>::empty());
        while i < n
            invariant
                n == kvpairs@.len(),
                i <= n,
                views(args@) == head + set_args(views(kvpairs@).take(i as int)),
            decreases n - i,
        {
            push_text(&mut args, "-s");
            push_text(&mut args, kvpairs[i].as_str());
            proof {
                let t = views(kvpairs@).take(i + 1);
                assert(t.drop_last() =~= views(kvpairs@).take(i as int));
                assert(t.last() == kvpairs@[i as int]@);
                assert(views(args@) =~= head + set_args(t));
            }
            i += 1;
        }
        assert(views(kvpairs@).take(n as int) =~= views(kvpairs@));
        Ok(args)
    }

    /// The `git-annex` arguments that list the files carrying an identifier.
    pub fn list_args(&self) -> (r: Vec<String>)
        ensures
            views(r@) == metadata_list_args(),
    {
        let mut args: Vec<String> = Vec::new();
        push_text(&mut args, "metadata");
        push_text(&mut args, "--json");
        push_text(&mut args, "--metadata");
        push_text(&mut args, "acceptarium.id=*");
        assert(views(args@) =~= metadata_list_args());
        args
    }

    /// The `git-annex` arguments that find the file with identifier `id`.
    pub fn load_args(&self, id: &AssetId) -> (r: Vec<String>)
        ensures
            views(r@) == metadata_load_args(id@),
    {
        let mut args: Vec<String> = Vec::new();
        push_text(&mut args, "metadata");
        push_text(&mut args, "--json");
        push_text(&mut args, "--metadata");
        push_owned(&mut args, concat("acceptarium.id=", id.as_str()));
        assert(views(args@) =~= metadata_load_args(id@));
        args
    }
}

/// The output of a `git-annex` run: its standard output when it succeeded,
/// else an error holding both outputs.
pub fn annex_outcome(success: bool, stdout: String, stderr: &str) -> (r: Result<String, Error>)
    ensures
        success ==> (r matches Ok(o) && o@ == stdout@),
        !success ==> (r matches Err(e) && is_filesystem_error(
            e,
            annex_failure_message(stdout@, stderr@),
        )),
{
    if success {
        Ok(stdout)
    } else {
        let a = concat("git-annex failed: ", stdout.as_str());
        let b = concat(a.as_str(), " ");
        Err(Error::Filesystem { message: concat(b.as_str(), stderr) })
    }
}

// ---------------------------------------------------------------------------
// Lines of command output

/// White space, as Unicode's `White_Space` property lists it.
pub open spec fn is_white(c: char) -> bool {
    ||| c == '\t'
    ||| c == '\n'
    ||| c == '\u{b}'
    ||| c == '\u{c}'
    ||| c == '\r'
    ||| c == ' '
    ||| c == '\u{85}'
    ||| c == '\u{a0}'
    ||| c == '\u{1680}'
    ||| ('\u{2000}' <= c && c <= '\u{200a}')
    ||| c == '\u{2028}'
    ||| c == '\u{2029}'
    ||| c == '\u{202f}'
    ||| c == '\u{205f}'
    ||| c == '\u{3000}'
}

/// The number of white characters at the start of `s`.
pub open spec fn lead(s: Seq<char>) -> nat
    decreases s.len(),
{
    if s.len() > 0 && is_white(s[0]) {
        1 + lead(s.drop_first())
    } else {
        0
    }
}

/// The number of white characters at the end of `s`.
pub open spec fn trail(s: Seq<char>) -> nat
    decreases s.len(),
{
    if s.len() > 0 && is_white(s.last()) {
        1 + trail(s.drop_last())
    } else {
        0
    }
}

/// `s` without white space at either end, as `str::trim` gives it.
pub open spec fn trimmed(s: Seq<char>) -> Seq<char> {
    if lead(s) >= s.len() {
        seq![]
    } else {
        s.subrange(lead(s) as int, s.len() - trail(s))
    }
}

/// The pieces of `s` between newlines (one more than there are newlines).
pub open spec fn split_lines(s: Seq<char>) -> Seq<Seq<char>>
    decreases s.len(),
{
    if s.len() == 0 {
        seq![seq![]]
    } else {
        let rest = split_lines(s.drop_last());
        if s.last() == '\n' {
            rest.push(seq![])
        } else {
            rest.update(rest.len() - 1, rest.last().push(s.last()))
        }
    }
}

/// The pieces, trimmed, without the empty ones.
pub open spec fn nonempty_trimmed(ps: Seq<Seq<char>>) -> Seq<Seq<char>>
    decreases ps.len(),
{
    if ps.len() == 0 {
        seq![]
    } else {
        let r = nonempty_trimmed(ps.drop_last());
        let t = trimmed(ps.last());
        if t.len() > 0 {
            r.push(t)
        } else {
            r
        }
    }
}

/// The lines of `git-annex` output that carry something: each trimmed, the
/// blank ones skipped.
pub open spec fn output_lines(s: Seq<char>) -> Seq<Seq<char>> {
    nonempty_trimmed(split_lines(s))
}

proof fn lemma_split_lines_len(s: Seq<char>)
    ensures
        split_lines(s).len() >= 1,
    decreases s.len(),
{
    if s.len() > 0 {
        lemma_split_lines_len(s.drop_last());
    }
}

proof fn lemma_lead_skip(s: Seq<char>, i: int)
    requires
        0 <= i <= s.len(),
        forall|j: int| 0 <= j < i ==> is_white(#[trigger] s[j]),
    ensures
        lead(s) == i + lead(s.subrange(i, s.len() as int)),
    decreases i,
{
    if i > 0 {
        let t = s.drop_first();
        assert forall|j: int| 0 <= j < i - 1 implies is_white(#[trigger] t[j]) by {
            assert(t[j] == s[j + 1]);
        }
        lemma_lead_skip(t, i - 1);
        assert(t.subrange(i - 1, t.len() as int) =~= s.subrange(i, s.len() as int));
    } else {
        assert(s.subrange(0, s.len() as int) =~= s);
    }
}

proof fn lemma_trail_take(s: Seq<char>, k: int)
    requires
        0 <= k <= s.len(),
        forall|j: int| k <= j < s.len() ==> is_white(#[trigger] s[j]),
    ensures
        trail(s) == (s.len() - k) + trail(s.subrange(0, k)),
    decreases s.len() - k,
{
    if k < s.len() {
        let t = s.drop_last();
        assert forall|j: int| k <= j < t.len() implies is_white(#[trigger] t[j]) by {
            assert(t[j] == s[j]);
        }
        lemma_trail_take(t, k);
        assert(t.subrange(0, k) =~= s.subrange(0, k));
    } else {
        assert(s.subrange(0, k) =~= s);
    }
}

/// Whether `c` is white space.
fn white(c: char) -> (r: bool)
    ensures
        r == is_white(c),
{
    c == '\t' || c == '\n' || c == '\u{b}' || c == '\u{c}' || c == '\r' || c == ' ' || c == '\u{85}'
        || c == '\u{a0}' || c == '\u{1680}' || ('\u{2000}' <= c && c <= '\u{200a}') || c
        == '\u{2028}' || c == '\u{2029}' || c == '\u{202f}' || c == '\u{205f}' || c == '\u{3000}'
}

/// `s` without white space at either end.
pub fn trim_text(s: &str) -> (r: String)
    ensures
        r@ == trimmed(s@),
{
    let n = s.unicode_len();
    let mut a: usize = 0;
    while a < n && white(s.get_char(a))
        invariant
            n == s@.len(),
            a <= n,
            forall|j: int| 0 <= j < a ==> is_white(#[trigger] s@[j]),
        decreases n - a,
    {
        a += 1;
    }
    proof {
        lemma_lead_skip(s@, a as int);
        if a < n {
            assert(s@.subrange(a as int, n as int)[0] == s@[a as int]);
        }
    }
    if a >= n {
        return String::new();
    }
    let mut b: usize = n;
    while b > a && white(s.get_char(b - 1))
        invariant
            n == s@.len(),
            a < n,
            a <= b <= n,
            !is_white(s@[a as int]),
            forall|j: int| b <= j < n ==> is_white(#[trigger] s@[j]),
        decreases b,
    {
        b -= 1;
    }
    proof {
        lemma_trail_take(s@, b as int);
        assert(b > a);
        assert(s@.subrange(0, b as int).last() == s@[b - 1]);
    }
    owned(s.substring_char(a, b))
}

proof fn lemma_split_step(s: Seq<char>, i: int, cur: Seq<char>, done: Seq<Seq<char>>)
    requires
        0 <= i < s.len(),
        split_lines(s.take(i)) == done.push(cur),
    ensures
        s[i] == '\n' ==> split_lines(s.take(i + 1)) == done.push(cur).push(seq![]),
        s[i] != '\n' ==> split_lines(s.take(i + 1)) == done.push(cur.push(s[i])),
{
    let t = s.take(i + 1);
    assert(t.drop_last() =~= s.take(i));
    assert(t.last() == s[i]);
    if s[i] != '\n' {
        assert(done.push(cur).update(done.len() as int, cur.push(s[i])) =~= done.push(cur.push(s[i])));
    }
}

/// The lines of `git-annex` output that carry something (see `output_lines`).
pub fn annex_output_lines(output: &str) -> (r: Vec<String>)
    ensures
        views(r@) == output_lines(output@),
{
    let n = output.unicode_len();
    let mut out: Vec<String> = Vec::new();
    let mut cur = String::new();
    let ghost mut done: Seq<Seq<char>> = seq![];
    let mut i: usize = 0;
    assert(output@.take(0) =~= Seq::<char>::empty());
    assert(split_lines(Seq::<char>::empty()) =~= seq![Seq::<char>::empty()]);
    assert(cur@ =~= Seq::<char>::empty());
    while i < n
        invariant
            n == output@.len(),
            i <= n,
            split_lines(output@.take(i as int)) == done.push(cur@),
            views(out@) == nonempty_trimmed(done),
        decreases n - i,
    {
        let c = output.get_char(i);
        proof {
            lemma_split_step(output@, i as int, cur@, done);
        }
        if c == '\n' {
            let t = trim_text(cur.as_str());
            let ghost d2 = done.push(cur@);
            assert(d2.drop_last() =~= done);
            if t.unicode_len() > 0 {
                out.push(t);
                assert(views(out@) =~= nonempty_trimmed(d2));
            } else {
                assert(views(out@) =~= nonempty_trimmed(d2));
            }
            proof {
                done = d2;
            }
            cur = String::new();
            assert(cur@ =~= Seq::<char>::empty());
        } else {
            push_char(&mut cur, c);
        }
        i += 1;
    }
    let t = trim_text(cur.as_str());
    let ghost d2 = done.push(cur@);
    assert(d2.drop_last() =~= done);
    if t.unicode_len() > 0 {
        out.push(t);
    }
    assert(views(out@) =~= nonempty_trimmed(d2));
    assert(output@.take(n as int) =~= output@);
    out
}


/// The first line of `s` as `str::lines` gives it: up to the first newline,
/// without it and without a carriage return before it; empty for empty `s`.
pub open spec fn first_line(s: Seq<char>) -> Seq<char> {
    let p = split_lines(s)[0];
    if p.len() < s.len() && p.len() > 0 && p.last() == '\r' {
        p.drop_last()
    } else {
        p
    }
}

/// Whether `str::lines` gives a second line: text follows the first newline.
pub open spec fn has_second_line(s: Seq<char>) -> bool {
    split_lines(s)[0].len() + 1 < s.len()
}

proof fn lemma_first_piece(s: Seq<char>, i: int)
    requires
        0 <= i <= s.len(),
        forall|j: int| 0 <= j < i ==> s[j] != '\n',
    ensures
        split_lines(s.take(i)) == seq![s.take(i)],
    decreases i,
{
    if i > 0 {
        lemma_first_piece(s, i - 1);
        let t = s.take(i);
        assert(t.drop_last() =~= s.take(i - 1));
        assert(t.last() == s[i - 1]);
        assert(s.take(i - 1).push(s[i - 1]) =~= t);
    } else {
        assert(s.take(0) =~= Seq::<char>::empty());
    }
}

proof fn lemma_first_piece_stays(s: Seq<char>, i: int, k: int)
    requires
        0 <= i < k <= s.len(),
        s[i] == '\n',
        split_lines(s.take(i)) == seq![s.take(i)],
    ensures
        split_lines(s.take(k))[0] == s.take(i),
        split_lines(s.take(k)).len() >= 2,
    decreases k - i,
{
    let t = s.take(k);
    assert(t.drop_last() =~= s.take(k - 1));
    if k == i + 1 {
        assert(t.last() == '\n');
    } else {
        lemma_first_piece_stays(s, i, k - 1);
    }
}

/// The first line of `git-annex` output, and whether another follows.
pub fn first_output_line(output: &str) -> (r: (String, bool))
    ensures
        r.0@ == first_line(output@),
        r.1 == has_second_line(output@),
{
    let n = output.unicode_len();
    let mut i: usize = 0;
    while i < n && output.get_char(i) != '\n'
        invariant
            n == output@.len(),
            i <= n,
            forall|j: int| 0 <= j < i ==> output@[j] != '\n',
        decreases n - i,
    {
        i += 1;
    }
    proof {
        lemma_first_piece(output@, i as int);
        if i < n {
            lemma_first_piece_stays(output@, i as int, n as int);
        }
        assert(output@.take(n as int) =~= output@);
    }
    let second = i < n && n - i > 1;
    if i < n && i > 0 && output.get_char(i - 1) == '\r' {
        (owned(output.substring_char(0, i - 1)), second)
    } else {
        (owned(output.substring_char(0, i)), second)
    }
}


/// The path recorded for an asset, resolved from the project directory,
/// is where its file lies: the file lies inside the project (the path was
/// recorded relative to it), or its path is absolute (recorded as it is).
pub proof fn law_recorded_path_resolves(abs: Seq<Seq<char>>, project: Seq<Seq<char>>)
    requires
        valid_comps(abs),
        valid_comps(project),
        spec_starts_with(abs, project) || spec_is_absolute(abs),
    ensures
        spec_join(project, relative_to_prefix(abs, project)) == abs,
{
    if spec_starts_with(abs, project) {
        law_join_strip_prefix(abs, project);
    }
}

} // verus!
