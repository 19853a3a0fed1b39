//! Reading the settled settings of a run (after defaults, the configuration
//! file, the environment and the command line have been layered) into a
//! `Config`: every name is looked up, and the first unknown one is refused.

use vstd::prelude::*;
use crate::config::{
    BlobHandler, Config, Extractor, FilesystemConfig, GitAnnexConfig, GitConfig, InfoFormat,
    InfoHandler, LLMConfig, LogLevel, Processor, SidecarConfig, StorageDriver, VersionHandler,
    VisionConfig, ascii_lower, ascii_lower_char, blob_handler_name, extractor_name,
    info_format_extension, info_handler_name, level_name, processor_name, storage_driver_name,
    unknown_level_message, version_handler_name,
};
use crate::error::Error;
use crate::paths::FsPath;
use crate::text::{concat, str_eq};

verus! {

/// Settings of metadata files kept beside the asset files, as settled:
/// the format still a name.
#[derive(Debug)]
pub struct SidecarSettings {
    pub directory: FsPath,
    pub format: Option<String>,
    pub hidden: bool,
}

/// The settings of a run once all layers are merged, names still as text.
#[derive(Debug)]
pub struct SettledSettings {
    pub project: FsPath,
    pub verbosity: String,
    pub dry_run: bool,
    pub dirty: bool,
    pub overwrite: bool,
    pub config_file: Option<FsPath>,
    pub processor: String,
    pub extractor: String,
    pub storage: Option<String>,
    pub blob_storage: Option<String>,
    pub info_storage: Option<String>,
    pub tracker: Option<String>,
    pub filesystem: Option<FilesystemConfig>,
    pub git_annex: Option<GitAnnexConfig>,
    pub sidecar: Option<SidecarSettings>,
    pub git: Option<GitConfig>,
    pub vision: Option<VisionConfig>,
    pub llm: Option<LLMConfig>,
}

/// The message for a name that matches no variant.
pub open spec fn unknown_message(t: Seq<char>) -> Seq<char> {
    "unknown variant `"@ + t + "`"@
}

pub open spec fn level_named(t: Seq<char>) -> bool {
    exists|l: LogLevel| #[trigger] level_name(l) == ascii_lower(t)
}

pub open spec fn processor_named(t: Seq<char>) -> bool {
    exists|p: Processor| #[trigger] processor_name(p) == t
}

pub open spec fn extractor_named(t: Seq<char>) -> bool {
    exists|e: Extractor| #[trigger] extractor_name(e) == t
}

pub open spec fn storage_named(t: Seq<char>) -> bool {
    exists|d: StorageDriver| #[trigger] storage_driver_name(d) == t
}

pub open spec fn blob_named(t: Seq<char>) -> bool {
    exists|h: BlobHandler| #[trigger] blob_handler_name(h) == t
}

pub open spec fn info_named(t: Seq<char>) -> bool {
    exists|h: InfoHandler| #[trigger] info_handler_name(h) == t
}

pub open spec fn version_named(t: Seq<char>) -> bool {
    exists|h: VersionHandler| #[trigger] version_handler_name(h) == t
}

pub open spec fn format_named(t: Seq<char>) -> bool {
    exists|f: InfoFormat| #[trigger] info_format_extension(f) == t
}

/// The refusal of an optional name: none when absent or known.
pub open spec fn optional_refusal(o: Option<String>, known: bool) -> Option<Seq<char>> {
    match o {
        Some(t) => if known {
            None
        } else {
            Some(unknown_message(t@))
        },
        None => None,
    }
}

/// The message of the first name in `s` that is unknown, in the order
/// verbosity, processor, extractor, storage driver, blob store, metadata
/// store, tracker, sidecar format; none when all are known.
pub open spec fn settle_error(s: SettledSettings) -> Option<Seq<char>> {
    let storage = optional_refusal(s.storage, s.storage matches Some(t) && storage_named(t@));
    let blob = optional_refusal(s.blob_storage, s.blob_storage matches Some(t) && blob_named(t@));
    let info = optional_refusal(s.info_storage, s.info_storage matches Some(t) && info_named(t@));
    let tracker = optional_refusal(s.tracker, s.tracker matches Some(t) && version_named(t@));
    let format = match s.sidecar {
        Some(x) => optional_refusal(x.format, x.format matches Some(t) && format_named(t@)),
        None => None,
    };
    if !level_named(s.verbosity@) {
        Some(unknown_level_message(s.verbosity@))
    } else if !processor_named(s.processor@) {
        Some(unknown_message(s.processor@))
    } else if !extractor_named(s.extractor@) {
        Some(unknown_message(s.extractor@))
    } else if storage is Some {
        storage
    } else if blob is Some {
        blob
    } else if info is Some {
        info
    } else if tracker is Some {
        tracker
    } else {
        format
    }
}

/// The settings hold nothing but the values every run starts from (see
/// `base_settings`): verbosity `warn`, no dry run, no overwrite, the manual
/// processor and extractor, and no store or tracker named.
pub open spec fn only_base_settings(s: SettledSettings) -> bool {
    &&& s.verbosity@ == "warn"@
    &&& !s.dry_run
    &&& !s.overwrite
    &&& s.processor@ == "manual"@
    &&& s.extractor@ == "manual"@
    &&& s.storage is None
    &&& s.blob_storage is None
    &&& s.info_storage is None
    &&& s.tracker is None
    &&& s.sidecar is None
}

/// What a settled setting of an optional name reads as.
pub open spec fn named_as<T>(o: Option<String>, r: Option<T>, name: spec_fn(T) -> Seq<char>) -> bool {
    match o {
        None => r is None,
        Some(t) => r matches Some(v) && name(v) == t@,
    }
}

fn unknown(t: &str) -> (e: Error)
    ensures
        e matches Error::Config { message } && message@ == unknown_message(t@),
{
    let a = concat("unknown variant `", t);
    Error::Config { message: concat(a.as_str(), "`") }
}

impl BlobHandler {
    /// The blob store with the given configuration name.
    pub fn from_name(s: &str) -> (r: Option<BlobHandler>)
        ensures
            match r {
                Some(h) => blob_handler_name(h) == s@,
                None => forall|h: BlobHandler| blob_handler_name(h) != s@,
            },
    {
        proof {
            reveal_strlit("filesystem");
            reveal_strlit("git-annex");
        }
        if str_eq(s, "filesystem") {
            Some(BlobHandler::Filesystem)
        } else if str_eq(s, "git-annex") {
            Some(BlobHandler::GitAnnex)
        } else {
            None
        }
    }
}

impl InfoHandler {
    /// The metadata store with the given configuration name.
    pub fn from_name(s: &str) -> (r: Option<InfoHandler>)
        ensures
            match r {
                Some(h) => info_handler_name(h) == s@,
                None => forall|h: InfoHandler| info_handler_name(h) != s@,
            },
    {
        proof {
            reveal_strlit("sidecar");
            reveal_strlit("metadata");
        }
        if str_eq(s, "sidecar") {
            Some(InfoHandler::Sidecar)
        } else if str_eq(s, "metadata") {
            Some(InfoHandler::Metadata)
        } else {
            None
        }
    }
}

impl VersionHandler {
    /// The tracker with the given configuration name.
    pub fn from_name(s: &str) -> (r: Option<VersionHandler>)
        ensures
            match r {
                Some(h) => version_handler_name(h) == s@,
                None => forall|h: VersionHandler| version_handler_name(h) != s@,
            },
    {
        proof {
            reveal_strlit("git");
            reveal_strlit("manual");
        }
        if str_eq(s, "git") {
            Some(VersionHandler::Git)
        } else if str_eq(s, "manual") {
            Some(VersionHandler::Manual)
        } else {
            None
        }
    }
}

impl InfoFormat {
    /// The metadata format whose file extension is `s`.
    pub fn from_name(s: &str) -> (r: Option<InfoFormat>)
        ensures
            match r {
                Some(f) => info_format_extension(f) == s@,
                None => forall|f: InfoFormat| info_format_extension(f) != s@,
            },
    {
        proof {
            reveal_strlit("json");
            reveal_strlit("toml");
            reveal_strlit("yaml");
            reveal_strlit("hjson");
            reveal_strlit("xml");
        }
        if str_eq(s, "json") {
            Some(InfoFormat::JSON)
        } else if str_eq(s, "toml") {
            Some(InfoFormat::TOML)
        } else if str_eq(s, "yaml") {
            Some(InfoFormat::YAML)
        } else if str_eq(s, "hjson") {
            Some(InfoFormat::HJSON)
        } else if str_eq(s, "xml") {
            Some(InfoFormat::XML)
        } else {
            None
        }
    }
}

/// The names of the starting values are those of `Warn` and `Manual`.
proof fn lemma_base_names(l: LogLevel, p: Processor, e: Extractor)
    ensures
        ascii_lower("warn"@) == "warn"@,
        level_name(l) == "warn"@ ==> l == LogLevel::Warn,
        processor_name(p) == "manual"@ ==> p == Processor::Manual,
        extractor_name(e) == "manual"@ ==> e == Extractor::Manual,
        level_name(LogLevel::Warn) == "warn"@,
        processor_name(Processor::Manual) == "manual"@,
        extractor_name(Extractor::Manual) == "manual"@,
{
    reveal_strlit("warn");
    reveal_strlit("manual");
    reveal_strlit("off");
    reveal_strlit("error");
    reveal_strlit("info");
    reveal_strlit("debug");
    reveal_strlit("trace");
    reveal_strlit("o-c-r");
    reveal_strlit("vision");
    reveal_strlit("l-l-m");
    reveal_strlit("regex");
    let w = "warn"@;
    assert(ascii_lower(w) =~= w) by {
        assert forall|i: int| 0 <= i < w.len() implies ascii_lower_char(#[trigger] w[i]) == w[i] by {
            assert(!('A' <= w[i] && w[i] <= 'Z'));
        }
    }
    if level_name(l) == w && l != LogLevel::Warn {
        assert(level_name(l).len() != w.len() || level_name(l)[0] != w[0]);
    }
    if processor_name(p) == "manual"@ && p != Processor::Manual {
        assert(processor_name(p)[0] != "manual"@[0]);
    }
    if extractor_name(e) == "manual"@ && e != Extractor::Manual {
        assert(extractor_name(e)[0] != "manual"@[0]);
    }
}

impl Config {
    /// The configuration that settled settings describe. Every name is
    /// looked up; the first unknown one (see `settle_error`) is refused
    /// with its message. A sidecar naming no format keeps TOML. Settings
    /// holding only the starting values give `Warn`, no dry run, no
    /// overwrite and the manual processor and extractor.
    pub fn from_settled(s: SettledSettings) -> (r: Result<Config, Error>)
        ensures
            r is Ok <==> settle_error(s) is None,
            r matches Err(e) ==> (e matches Error::Config { message } && settle_error(s) == Some(
                message@,
            )),
            r matches Ok(c) ==> {
                &&& c.project == s.project
                &&& level_name(c.verbosity) == ascii_lower(s.verbosity@)
                &&& c.dry_run == s.dry_run
                &&& c.dirty == s.dirty
                &&& c.overwrite == s.overwrite
                &&& c.config_file == s.config_file
                &&& processor_name(c.processor) == s.processor@
                &&& extractor_name(c.extractor) == s.extractor@
                &&& named_as(s.storage, c.storage, |d: StorageDriver| storage_driver_name(d))
                &&& named_as(s.blob_storage, c.blob_storage, |h: BlobHandler| blob_handler_name(h))
                &&& named_as(s.info_storage, c.info_storage, |h: InfoHandler| info_handler_name(h))
                &&& named_as(s.tracker, c.tracker, |h: VersionHandler| version_handler_name(h))
                &&& c.filesystem == s.filesystem
                &&& c.git_annex == s.git_annex
                &&& c.git == s.git
                &&& c.vision == s.vision
                &&& c.llm == s.llm
                &&& match s.sidecar {
                    None => c.sidecar is None,
                    Some(x) => c.sidecar matches Some(y) && y.directory == x.directory && y.hidden
                        == x.hidden && match x.format {
                        None => y.format == InfoFormat::TOML,
                        Some(f) => info_format_extension(y.format) == f@,
                    },
                }
            },
            only_base_settings(s) ==> (r matches Ok(c) && c.verbosity == LogLevel::Warn
                && !c.dry_run && !c.overwrite && c.processor == Processor::Manual && c.extractor
                == Extractor::Manual),
    {
        let ghost s0 = s;
        proof {
            lemma_base_names(LogLevel::Warn, Processor::Manual, Extractor::Manual);
        }
        let SettledSettings {
            project,
            verbosity,
            dry_run,
            dirty,
            overwrite,
            config_file,
            processor,
            extractor,
            storage,
            blob_storage,
            info_storage,
            tracker,
            filesystem,
            git_annex,
            sidecar,
            git,
            vision,
            llm,
        } = s;
        let level = match LogLevel::parse(verbosity.as_str()) {
            Ok(l) => l,
            Err(e) => {
                return Err(e);
            },
        };
        proof {
            lemma_base_names(level, Processor::Manual, Extractor::Manual);
        }
        let processor_v = match Processor::from_name(processor.as_str()) {
            Some(p) => p,
            None => {
                return Err(unknown(processor.as_str()));
            },
        };
        let extractor_v = match Extractor::from_name(extractor.as_str()) {
            Some(x) => x,
            None => {
                return Err(unknown(extractor.as_str()));
            },
        };
        proof {
            lemma_base_names(level, processor_v, extractor_v);
        }
        let storage_v = match &storage {
            Some(t) => match StorageDriver::from_name(t.as_str()) {
                Some(d) => Some(d),
                None => {
                    return Err(unknown(t.as_str()));
                },
            },
            None => None,
        };
        let blob_v = match &blob_storage {
            Some(t) => match BlobHandler::from_name(t.as_str()) {
                Some(h) => Some(h),
                None => {
                    return Err(unknown(t.as_str()));
                },
            },
            None => None,
        };
        let info_v = match &info_storage {
            Some(t) => match InfoHandler::from_name(t.as_str()) {
                Some(h) => Some(h),
                None => {
                    return Err(unknown(t.as_str()));
                },
            },
            None => None,
        };
        let tracker_v = match &tracker {
            Some(t) => match VersionHandler::from_name(t.as_str()) {
                Some(h) => Some(h),
                None => {
                    return Err(unknown(t.as_str()));
                },
            },
            None => None,
        };
        let sidecar_v = match sidecar {
            Some(x) => {
                let format = match &x.format {
                    Some(f) => match InfoFormat::from_name(f.as_str()) {
                        Some(v) => v,
                        None => {
                            return Err(unknown(f.as_str()));
                        },
                    },
                    None => InfoFormat::TOML,
                };
                Some(SidecarConfig { directory: x.directory, format, hidden: x.hidden })
            },
            None => None,
        };
        Ok(
            Config {
                project,
                verbosity: level,
                dry_run,
                dirty,
                overwrite,
                config_file,
                processor: processor_v,
                extractor: extractor_v,
                storage: storage_v,
                blob_storage: blob_v,
                info_storage: info_v,
                tracker: tracker_v,
                filesystem,
                git_annex,
                sidecar: sidecar_v,
                git,
                vision,
                llm,
            },
        )
    }
}

} // verus!
