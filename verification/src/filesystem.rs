//! The filesystem store that keeps each asset's metadata in a TOML file of
//! the data directory and may track both in Git.

use vstd::prelude::*;
use crate::assets::{Asset, AssetView};
use crate::collection::{Assets, has_checksum};
use crate::config::{Config, OperationMode};
use crate::error::Error;
use crate::ident::{Blake3Sum, decode_hex, is_asset_id, is_hex_digest, lower_hex};
use crate::json::Json;
use crate::paths::{
    FsPath, parse_comps, render, spec_file_name, spec_is_absolute, spec_join, spec_starts_with,
    spec_with_extension,
};
use crate::storage::{
    data_file_exists_message, data_is_in_project, data_is_writable, exists_answer,
    is_filesystem_error, is_in_project, is_missing_storage, law_recorded_path_resolves,
    not_writable_message, outside_project_message, path_answer, path_relative_to_prefix,
    placed_path, relative_to_prefix, LocalFile,
};
use crate::text::{concat, owned, str_eq};

verus! {

/// A store that keeps asset files and TOML metadata files in a data
/// directory, optionally staging and committing them in Git.
#[derive(Debug)]
pub struct FilesystemStorage {
    pub project_dir: FsPath,
    pub data_dir: FsPath,
    pub glob_pattern: String,
    pub copy: bool,
    pub rename: bool,
    pub track: bool,
    pub commit: bool,
}

/// The message for a metadata file that is already there.
pub open spec fn metadata_exists_message(p: Seq<Seq<char>>) -> Seq<char> {
    "Metadata file '"@ + render(p) + "' already exists"@
}

/// The metadata file of an asset: in the data directory, named after the
/// asset's identifier (when files are copied) or after its file, with the
/// extension `toml`.
pub open spec fn toml_path(
    data_dir: Seq<Seq<char>>,
    copy: bool,
    id: Seq<char>,
    resolved: Seq<Seq<char>>,
) -> Seq<Seq<char>> {
    let base = if copy {
        parse_comps(id)
    } else {
        parse_comps(spec_file_name(resolved).unwrap())
    };
    spec_with_extension(spec_join(data_dir, base), "toml"@)
}

/// Why adding `source` was refused after its checksum passed: asking
/// whether its destination exists failed or said yes, or, the destination
/// being free, asking whether the metadata file (named for some fresh
/// identifier) exists failed or said yes.
pub open spec fn add_refusal<F: Fn(&FsPath) -> Result<bool, Error>>(
    try_exists: F,
    data_dir: Seq<Seq<char>>,
    copy: bool,
    source: Seq<Seq<char>>,
    e: Error,
) -> bool {
    let dest = placed_path(copy, false, data_dir, seq![], source);
    ||| exists_answer(try_exists, dest, Err(e))
    ||| exists_answer(try_exists, dest, Ok(true)) && is_filesystem_error(
        e,
        data_file_exists_message(dest),
    )
    ||| exists_answer(try_exists, dest, Ok(false)) && exists|id: Seq<char>|
        is_asset_id(id) && {
            let m = toml_path(data_dir, copy, id, dest);
            ||| exists_answer(try_exists, m, Err(e))
            ||| exists_answer(try_exists, m, Ok(true)) && is_filesystem_error(
                e,
                metadata_exists_message(m),
            )
        }
}

/// What adding a file decided: the new asset and where its file and
/// metadata lie, and what remains to be done (nothing when only checking).
#[derive(Debug)]
pub struct FsAdded {
    pub asset: Asset,
    pub asset_path_abs: FsPath,
    pub metadata_path: FsPath,
    /// Copy this file to `asset_path_abs`.
    pub copy_from: Option<FsPath>,
    /// Write the metadata file.
    pub write: bool,
    /// Paths to stage in Git.
    pub stage: Vec<FsPath>,
    /// Commit with this subject.
    pub commit: Option<String>,
}

/// What removing an asset touches.
#[derive(Debug)]
pub struct FsRemoval {
    pub remove_asset: Option<FsPath>,
    pub remove_metadata: Option<FsPath>,
    pub stage: Vec<FsPath>,
    pub commit: Option<String>,
}

/// The views of a list of paths.
pub open spec fn fs_views(v: Seq<FsPath>) -> Seq<Seq<Seq<char>>> {
    v.map_values(|p: FsPath| p@)
}

impl FilesystemStorage {
    /// The store of a configuration, given the canonical project and data
    /// directories and whether the data directory is read-only.
    pub fn init(config: &Config, project_dir: FsPath, data_dir: FsPath, data_readonly: bool) -> (r:
        Result<FilesystemStorage, Error>)
        ensures
            match config.filesystem {
                None => r matches Err(e) && is_missing_storage(e, "filesystem"@),
                Some(f) => if !spec_starts_with(data_dir@, project_dir@) {
                    r matches Err(e) && is_filesystem_error(
                        e,
                        outside_project_message(data_dir@, project_dir@),
                    )
                } else if data_readonly {
                    r matches Err(e) && is_filesystem_error(e, not_writable_message(data_dir@))
                } else {
                    r matches Ok(s) && s.project_dir@ == project_dir@ && s.data_dir@ == data_dir@
                        && s.glob_pattern@ == f.glob@ && s.copy == f.copy && s.rename == f.rename
                        && s.track == f.track && s.commit == f.commit
                },
            },
    {
        let storage_config = match &config.filesystem {
            Some(f) => f,
            None => {
                return Err(Error::MissingStorageConfig { driver: owned("filesystem") });
            },
        };
        data_is_in_project(&data_dir, &project_dir)?;
        data_is_writable(&data_dir, data_readonly)?;
        Ok(FilesystemStorage {
            project_dir,
            data_dir,
            glob_pattern: storage_config.glob.clone(),
            copy: storage_config.copy,
            rename: storage_config.rename,
            track: storage_config.track,
            commit: storage_config.commit,
        })
    }

    /// The metadata file of `asset` (see `toml_path`).
    pub fn metadata_path(&self, asset: &Asset) -> (r: FsPath)
        requires
            !self.copy ==> asset@.asset_path is Some && spec_file_name(
                spec_join(self.project_dir@, asset@.asset_path.unwrap()),
            ) is Some,
        ensures
            r@ == toml_path(
                self.data_dir@,
                self.copy,
                asset@.id,
                spec_join(self.project_dir@, asset@.asset_path.unwrap()),
            ),
    {
        let base = if self.copy {
            FsPath::parse(asset.id().as_str())
        } else {
            let path = match asset.asset_path(&self.project_dir) {
                Some(p) => p,
                None => FsPath::empty(),
            };
            let name = match path.file_name() {
                Some(n) => n,
                None => String::new(),
            };
            FsPath::parse(name.as_str())
        };
        proof {
            reveal_strlit("toml");
        }
        self.data_dir.join(&base).with_extension("toml")
    }

    /// Adds `source`: refused when (unless only running) a listed asset has
    /// the same checksum, or (unless only running or renaming) its
    /// destination or metadata file exists already (as `try_exists` says);
    /// else the new asset with what remains to be done.
    pub fn add<F: Fn(&FsPath) -> Result<bool, Error>>(
        &self,
        mode: OperationMode,
        source: &LocalFile,
        listed: &Assets,
        try_exists: F,
    ) -> (r: Result<FsAdded, Error>)
        requires
            forall|c: &FsPath| #[trigger] try_exists.requires((c,)),
            spec_is_absolute(source.path@),
            spec_file_name(source.path@) is Some,
        ensures
            mode != OperationMode::JustRun && has_checksum(listed@, source.blake3@) ==> (r matches Err(
                e,
            ) && (e matches Error::AssetHashExists { id } && exists|i: int|
                0 <= i < listed@.len() && (#[trigger] listed@[i]).blake3 == Some(source.blake3@)
                    && listed@[i].id == id@)),
            r matches Ok(g) ==> {
                let id = g.asset@.id;
                let abs = placed_path(self.copy, self.rename, self.data_dir@, id, source.path@);
                &&& !(mode != OperationMode::JustRun && has_checksum(listed@, source.blake3@))
                &&& is_asset_id(id)
                &&& g.asset_path_abs@ == abs
                &&& g.asset@ == AssetView {
                    id,
                    blake3: Some(source.blake3@),
                    asset_path: Some(relative_to_prefix(abs, self.project_dir@)),
                    transaction: None,
                    ocr: None,
                    source_fname: Some(source.path@),
                    extra: Seq::<(Seq<char>, Json)>::empty(),
                }
                &&& g.metadata_path@ == toml_path(self.data_dir@, self.copy, id, abs)
                &&& (mode != OperationMode::JustRun && !self.rename) ==> exists_answer(
                    try_exists,
                    abs,
                    Ok(false),
                ) && exists_answer(try_exists, g.metadata_path@, Ok(false))
                &&& if mode == OperationMode::JustCheck {
                    g.copy_from is None && !g.write && g.stage@.len() == 0 && g.commit is None
                } else {
                    &&& (if self.copy {
                        g.copy_from matches Some(c) && c@ == source.path@
                    } else {
                        g.copy_from is None
                    })
                    &&& g.write
                    &&& (if self.track {
                        fs_views(g.stage@) == seq![g.metadata_path@] + (if self.copy
                            || spec_starts_with(abs, self.project_dir@) {
                            seq![abs]
                        } else {
                            seq![]
                        })
                    } else {
                        g.stage@.len() == 0
                    })
                    &&& (if self.track && self.commit {
                        g.commit matches Some(m) && m@ == "Track new asset(s)"@
                    } else {
                        g.commit is None
                    })
                }
            },
            r matches Err(e) ==> (mode != OperationMode::JustRun && has_checksum(
                listed@,
                source.blake3@,
            )) || (mode != OperationMode::JustRun && !self.rename && add_refusal(
                try_exists,
                self.data_dir@,
                self.copy,
                source.path@,
                e,
            )),
    {
        if mode != OperationMode::JustRun {
            match listed.first_with_checksum(&source.blake3) {
                Some(id) => {
                    return Err(Error::AssetHashExists { id: id.to_text() });
                },
                None => {},
            }
        }
        let mut asset = match Asset::new(None, Some(&source.path), Some(source.blake3)) {
            Ok(a) => a,
            Err(e) => {
                return Err(e);
            },
        };
        let ext = match source.path.extension() {
            Some(e) => e,
            None => String::new(),
        };
        let dest_base = if self.rename {
            FsPath::parse(asset.id().as_str())
        } else {
            match source.path.file_stem() {
                Some(s) => FsPath::parse(s.as_str()),
                None => FsPath::empty(),
            }
        };
        let asset_path_abs = if self.copy {
            self.data_dir.join(&dest_base).add_extension(ext.as_str())
        } else {
            source.path.copy()
        };
        let asset_path = path_relative_to_prefix(&asset_path_abs, &self.project_dir);
        asset.set_asset_path(Some(&asset_path));
        proof {
            use_type_invariant(&asset_path_abs);
            use_type_invariant(&self.project_dir);
            if !self.copy {
                law_recorded_path_resolves(asset_path_abs@, self.project_dir@);
            }
        }
        let metadata_path = self.metadata_path(&asset);
        if mode != OperationMode::JustRun && !self.rename {
            match try_exists(&asset_path_abs) {
                Ok(true) => {
                    let t = asset_path_abs.to_text();
                    let a = concat("Data file '", t.as_str());
                    return Err(Error::Filesystem { message: concat(a.as_str(), "' already exists") });
                },
                Ok(false) => {},
                Err(e) => {
                    return Err(e);
                },
            }
            match try_exists(&metadata_path) {
                Ok(true) => {
                    let t = metadata_path.to_text();
                    let a = concat("Metadata file '", t.as_str());
                    return Err(Error::Filesystem { message: concat(a.as_str(), "' already exists") });
                },
                Ok(false) => {},
                Err(e) => {
                    return Err(e);
                },
            }
        }
        let mut copy_from: Option<FsPath> = None;
        let mut write = false;
        let mut stage: Vec<FsPath> = Vec::new();
        let mut commit: Option<String> = None;
        if mode != OperationMode::JustCheck {
            if self.copy {
                copy_from = Some(source.path.copy());
            }
            write = true;
            if self.track {
                stage.push(metadata_path.copy());
                if self.copy || is_in_project(&asset_path_abs, &self.project_dir) {
                    stage.push(asset_path_abs.copy());
                }
                if self.commit {
                    commit = Some(owned("Track new asset(s)"));
                }
                proof {
                    if self.copy || spec_starts_with(asset_path_abs@, self.project_dir@) {
                        assert(fs_views(stage@) =~= seq![metadata_path@, asset_path_abs@]);
                    } else {
                        assert(fs_views(stage@) =~= seq![metadata_path@]);
                    }
                }
            }
        }
        Ok(FsAdded { asset, asset_path_abs, metadata_path, copy_from, write, stage, commit })
    }

    /// What removing `asset` touches: its file when it exists and lies in
    /// the project, its metadata file when that exists (each staged when
    /// tracking), and a commit when tracking and committing.
    pub fn remove<F: Fn(&FsPath) -> bool>(&self, asset: &Asset, present: F) -> (r: FsRemoval)
        requires
            forall|c: &FsPath| #[trigger] present.requires((c,)),
            !self.copy ==> asset@.asset_path is Some && spec_file_name(
                spec_join(self.project_dir@, asset@.asset_path.unwrap()),
            ) is Some,
        ensures
            match asset@.asset_path {
                None => r.remove_asset is None,
                Some(p) => {
                    let full = spec_join(self.project_dir@, p);
                    ||| r.remove_asset matches Some(q) && q@ == full && path_answer(present, full, true)
                        && spec_starts_with(full, self.project_dir@)
                    ||| r.remove_asset is None && (path_answer(present, full, false) || (path_answer(
                        present,
                        full,
                        true,
                    ) && !spec_starts_with(full, self.project_dir@)))
                },
            },
            ({
                let m = toml_path(
                    self.data_dir@,
                    self.copy,
                    asset@.id,
                    spec_join(self.project_dir@, asset@.asset_path.unwrap()),
                );
                ||| r.remove_metadata matches Some(q) && q@ == m && path_answer(present, m, true)
                ||| r.remove_metadata is None && path_answer(present, m, false)
            }),
            self.track ==> fs_views(r.stage@) == (match r.remove_asset {
                Some(q) => seq![q@],
                None => seq![],
            }) + (match r.remove_metadata {
                Some(q) => seq![q@],
                None => seq![],
            }),
            !self.track ==> r.stage@.len() == 0,
            (self.track && self.commit) ==> (r.commit matches Some(m) && m@ == "Remove asset(s)"@),
            !(self.track && self.commit) ==> r.commit is None,
    {
        let mut stage: Vec<FsPath> = Vec::new();
        let remove_asset = match asset.asset_path(&self.project_dir) {
            Some(p) => {
                if present(&p) && p.starts_with(&self.project_dir) {
                    Some(p)
                } else {
                    None
                }
            },
            None => None,
        };
        let metadata_path = self.metadata_path(asset);
        let remove_metadata = if present(&metadata_path) {
            Some(metadata_path)
        } else {
            None
        };
        if self.track {
            match &remove_asset {
                Some(p) => stage.push(p.copy()),
                None => {},
            }
            match &remove_metadata {
                Some(p) => stage.push(p.copy()),
                None => {},
            }
            proof {
                assert(fs_views(stage@) =~= (match remove_asset {
                    Some(q) => seq![q@],
                    None => seq![],
                }) + (match remove_metadata {
                    Some(q) => seq![q@],
                    None => seq![],
                }));
            }
        }
        let commit = if self.track && self.commit {
            Some(owned("Remove asset(s)"))
        } else {
            None
        };
        FsRemoval { remove_asset, remove_metadata, stage, commit }
    }

    /// The text of a field of a listed asset: its identifier, its path
    /// (from the project directory), its source file name or its checksum;
    /// empty for an absent value; other keys are refused.
    pub fn get(&self, asset: &Asset, key: &str) -> (r: Result<String, Error>)
        ensures
            key@ == "id"@ ==> (r matches Ok(t) && t@ == asset@.id),
            key@ == "asset_path"@ ==> (r matches Ok(t) && t@ == match asset@.asset_path {
                Some(p) => render(spec_join(self.project_dir@, p)),
                None => Seq::<char>::empty(),
            }),
            key@ == "source_fname"@ ==> (r matches Ok(t) && t@ == match asset@.source_fname {
                Some(p) => render(p),
                None => Seq::<char>::empty(),
            }),
            key@ == "blake3"@ ==> (r matches Ok(t) && t@ == match asset@.blake3 {
                Some(b) => lower_hex(b),
                None => Seq::<char>::empty(),
            }),
            !(key@ == "id"@ || key@ == "asset_path"@ || key@ == "source_fname"@ || key@
                == "blake3"@) ==> (r matches Err(e) && (e matches Error::UnknownMetaKey { key: k }
                && k@ == key@)),
    {
        proof {
            reveal_strlit("id");
            reveal_strlit("asset_path");
            reveal_strlit("source_fname");
            reveal_strlit("blake3");
        }
        assert("id"@.len() == 2 && "asset_path"@.len() == 10 && "source_fname"@.len() == 12
            && "blake3"@.len() == 6);
        if str_eq(key, "id") {
            Ok(asset.id().to_text())
        } else if str_eq(key, "asset_path") {
            Ok(
                match asset.asset_path(&self.project_dir) {
                    Some(p) => p.to_text(),
                    None => String::new(),
                },
            )
        } else if str_eq(key, "source_fname") {
            Ok(
                match asset.source_fname() {
                    Some(p) => p.to_text(),
                    None => String::new(),
                },
            )
        } else if str_eq(key, "blake3") {
            Ok(
                match asset.blake3() {
                    Some(h) => h.to_hex(),
                    None => String::new(),
                },
            )
        } else {
            Err(Error::UnknownMetaKey { key: owned(key) })
        }
    }

    /// Sets a field of a loaded asset from text: its path, its source file
    /// name or its checksum (which must be hexadecimal text); other keys
    /// are refused and the asset left as it was.
    pub fn set(&self, asset: &mut Asset, key: &str, value: &str) -> (r: Result<(), Error>)
        requires
            key@ == "blake3"@ ==> is_hex_digest(value@),
        ensures
            key@ == "asset_path"@ ==> r is Ok && final(asset)@ == (AssetView {
                asset_path: Some(parse_comps(value@)),
                ..old(asset)@
            }),
            key@ == "source_fname"@ ==> r is Ok && final(asset)@ == (AssetView {
                source_fname: Some(parse_comps(value@)),
                ..old(asset)@
            }),
            key@ == "blake3"@ ==> r is Ok && final(asset)@ == (AssetView {
                blake3: Some(decode_hex(value@)),
                ..old(asset)@
            }),
            !(key@ == "asset_path"@ || key@ == "source_fname"@ || key@ == "blake3"@) ==> (r matches Err(
                e,
            ) && (e matches Error::UnknownMetaKey { key: k } && k@ == key@) && final(asset)@ == old(
                asset,
            )@),
    {
        proof {
            reveal_strlit("asset_path");
            reveal_strlit("source_fname");
            reveal_strlit("blake3");
        }
        assert("asset_path"@.len() == 10 && "source_fname"@.len() == 12 && "blake3"@.len() == 6);
        if str_eq(key, "asset_path") {
            asset.set_asset_path(Some(&FsPath::parse(value)));
            Ok(())
        } else if str_eq(key, "source_fname") {
            asset.set_source_fname(Some(&FsPath::parse(value)));
            Ok(())
        } else if str_eq(key, "blake3") {
            match Blake3Sum::from_hex(value) {
                Ok(h) => {
                    asset.set_blake3(Some(h));
                    Ok(())
                },
                Err(e) => Err(e),
            }
        } else {
            Err(Error::UnknownMetaKey { key: owned(key) })
        }
    }

    /// Whether work may start, given whether the user allows a dirty tree
    /// and what checking the staging area gave: only a tracked store
    /// checks, and a dirty tree is then allowed when asked for.
    pub fn is_clean(&self, dirty: bool, staging: Result<(), Error>) -> (r: Result<(), Error>)
        ensures
            !self.track ==> r is Ok,
            self.track && dirty && staging is Err ==> r is Ok,
            self.track && !(dirty && staging is Err) ==> r == staging,
    {
        if self.track {
            if dirty && staging.is_err() {
                return Ok(());
            }
            return staging;
        }
        Ok(())
    }
}


/// What saving an asset's metadata touches.
#[derive(Debug)]
pub struct FsSave {
    pub metadata_path: FsPath,
    pub stage: Vec<FsPath>,
    pub commit: Option<String>,
}

impl FilesystemStorage {
    /// The glob pattern that finds the metadata files: the configured
    /// pattern inside the data directory.
    pub fn list_pattern(&self) -> (r: String)
        ensures
            r@ == render(spec_join(self.data_dir@, parse_comps(self.glob_pattern@))),
    {
        self.data_dir.join(&FsPath::parse(self.glob_pattern.as_str())).to_text()
    }

    /// Where `asset`'s metadata is saved, staged when tracking, committed
    /// when also committing.
    pub fn save(&self, asset: &Asset) -> (r: FsSave)
        requires
            !self.copy ==> asset@.asset_path is Some && spec_file_name(
                spec_join(self.project_dir@, asset@.asset_path.unwrap()),
            ) is Some,
        ensures
            r.metadata_path@ == toml_path(
                self.data_dir@,
                self.copy,
                asset@.id,
                spec_join(self.project_dir@, asset@.asset_path.unwrap()),
            ),
            self.track ==> fs_views(r.stage@) == seq![r.metadata_path@],
            !self.track ==> r.stage@.len() == 0,
            (self.track && self.commit) ==> (r.commit matches Some(m) && m@
                == "Update existing asset(s)"@),
            !(self.track && self.commit) ==> r.commit is None,
    {
        let metadata_path = self.metadata_path(asset);
        let mut stage: Vec<FsPath> = Vec::new();
        if self.track {
            stage.push(metadata_path.copy());
            assert(fs_views(stage@) =~= seq![metadata_path@]);
        }
        let commit = if self.track && self.commit {
            Some(owned("Update existing asset(s)"))
        } else {
            None
        };
        FsSave { metadata_path, stage, commit }
    }
}

} // verus!
