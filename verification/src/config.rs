//! Configuration: the drivers, processors and formats a project chooses
//! from, the settings of each, and how the settings are passed on to child
//! processes through their environment.

use vstd::prelude::*;
use crate::error::Error;
use crate::json::{
    Json, JsonValue, json_text, json_to_text, jv, jv_entries, lemma_jv_entries, lemma_jv_entries_ext,
};
use crate::paths::{FsPath, parse_comps, render, spec_join, spec_parent};
use crate::text::{concat, owned, push_char, str_eq};
use convert_case::Casing;

verus! {

/// Where asset files are kept.
#[derive(Clone, Copy, Debug, PartialEq, Eq, Structural)]
pub enum StorageDriver {
    Filesystem,
    GitAnnex,
}

/// How text is read from a scanned receipt.
#[derive(Clone, Copy, Debug, PartialEq, Eq, Structural)]
pub enum Processor {
    Manual,
    OCR,
    Vision,
}

/// How a transaction is read from processed text.
#[derive(Clone, Copy, Debug, PartialEq, Eq, Structural)]
pub enum Extractor {
    Manual,
    LLM,
    Regex,
    Vision,
}

/// The plain-text accounting formats a transaction can be written in.
#[derive(Clone, Copy, Debug, PartialEq, Eq, Structural)]
pub enum LedgerFormat {
    HLedger,
    LedgerCli,
    BeanCount,
    CSV,
    JSON,
}

/// The serialization formats for asset metadata.
#[derive(Clone, Copy, Debug, PartialEq, Eq, Structural)]
pub enum InfoFormat {
    JSON,
    TOML,
    YAML,
    HJSON,
    XML,
}

/// Which store keeps asset files.
#[derive(Clone, Copy, Debug, PartialEq, Eq, Structural)]
pub enum BlobHandler {
    Filesystem,
    GitAnnex,
}

/// Which store keeps asset metadata.
#[derive(Clone, Copy, Debug, PartialEq, Eq, Structural)]
pub enum InfoHandler {
    Sidecar,
    Metadata,
}

/// Which version tracker records changes.
#[derive(Clone, Copy, Debug, PartialEq, Eq, Structural)]
pub enum VersionHandler {
    Git,
    Manual,
}

/// How much the program logs.
#[derive(Clone, Copy, Debug, PartialEq, Eq, Structural)]
pub enum LogLevel {
    Off,
    Error,
    Warn,
    Info,
    Debug,
    Trace,
}

/// Whether an operation only checks, only acts, or does both.
#[derive(Clone, Copy, Debug, PartialEq, Eq, Structural)]
pub enum OperationMode {
    JustCheck,
    JustRun,
    CheckAndRun,
}

impl Default for StorageDriver {
    fn default() -> (r: StorageDriver)
        ensures
            r == StorageDriver::Filesystem,
    {
        StorageDriver::Filesystem
    }
}

impl Default for Processor {
    fn default() -> (r: Processor)
        ensures
            r == Processor::Manual,
    {
        Processor::Manual
    }
}

impl Default for Extractor {
    fn default() -> (r: Extractor)
        ensures
            r == Extractor::Manual,
    {
        Extractor::Manual
    }
}

impl Default for LedgerFormat {
    fn default() -> (r: LedgerFormat)
        ensures
            r == LedgerFormat::HLedger,
    {
        LedgerFormat::HLedger
    }
}

impl Default for OperationMode {
    fn default() -> (r: OperationMode)
        ensures
            r == OperationMode::CheckAndRun,
    {
        OperationMode::CheckAndRun
    }
}

/// The name a storage driver has in configuration files.
pub open spec fn storage_driver_name(d: StorageDriver) -> Seq<char> {
    match d {
        StorageDriver::Filesystem => "filesystem"@,
        StorageDriver::GitAnnex => "git-annex"@,
    }
}

/// The name a processor has in configuration files: each capital after the
/// first is preceded by a hyphen and all is lowercased.
pub open spec fn processor_name(p: Processor) -> Seq<char> {
    match p {
        Processor::Manual => "manual"@,
        Processor::OCR => "o-c-r"@,
        Processor::Vision => "vision"@,
    }
}

/// The name a processor has on the command line.
pub open spec fn processor_cli_name(p: Processor) -> Seq<char> {
    match p {
        Processor::Manual => "manual"@,
        Processor::OCR => "ocr"@,
        Processor::Vision => "vision"@,
    }
}

/// The name an extractor has in configuration files.
pub open spec fn extractor_name(e: Extractor) -> Seq<char> {
    match e {
        Extractor::Manual => "manual"@,
        Extractor::LLM => "l-l-m"@,
        Extractor::Regex => "regex"@,
        Extractor::Vision => "vision"@,
    }
}

/// The name an extractor has on the command line.
pub open spec fn extractor_cli_name(e: Extractor) -> Seq<char> {
    match e {
        Extractor::Manual => "manual"@,
        Extractor::LLM => "llm"@,
        Extractor::Regex => "regex"@,
        Extractor::Vision => "vision"@,
    }
}

/// The name a ledger format has in configuration files.
pub open spec fn ledger_format_name(f: LedgerFormat) -> Seq<char> {
    match f {
        LedgerFormat::HLedger => "hledger"@,
        LedgerFormat::LedgerCli => "ledger-cli"@,
        LedgerFormat::BeanCount => "beancount"@,
        LedgerFormat::CSV => "csv"@,
        LedgerFormat::JSON => "json"@,
    }
}

/// The file extension of a metadata format.
pub open spec fn info_format_extension(f: InfoFormat) -> Seq<char> {
    match f {
        InfoFormat::JSON => "json"@,
        InfoFormat::TOML => "toml"@,
        InfoFormat::YAML => "yaml"@,
        InfoFormat::HJSON => "hjson"@,
        InfoFormat::XML => "xml"@,
    }
}

/// The name a blob store has in configuration files.
pub open spec fn blob_handler_name(h: BlobHandler) -> Seq<char> {
    match h {
        BlobHandler::Filesystem => "filesystem"@,
        BlobHandler::GitAnnex => "git-annex"@,
    }
}

/// The name a metadata store has in configuration files.
pub open spec fn info_handler_name(h: InfoHandler) -> Seq<char> {
    match h {
        InfoHandler::Sidecar => "sidecar"@,
        InfoHandler::Metadata => "metadata"@,
    }
}

/// The name a version tracker has in configuration files.
pub open spec fn version_handler_name(h: VersionHandler) -> Seq<char> {
    match h {
        VersionHandler::Git => "git"@,
        VersionHandler::Manual => "manual"@,
    }
}

/// The lowercase name of a log level.
pub open spec fn level_name(l: LogLevel) -> Seq<char> {
    match l {
        LogLevel::Off => "off"@,
        LogLevel::Error => "error"@,
        LogLevel::Warn => "warn"@,
        LogLevel::Info => "info"@,
        LogLevel::Debug => "debug"@,
        LogLevel::Trace => "trace"@,
    }
}

/// The name a log level is written with when a configuration is exported.
pub open spec fn level_export_name(l: LogLevel) -> Seq<char> {
    match l {
        LogLevel::Off => "OFF"@,
        LogLevel::Error => "ERROR"@,
        LogLevel::Warn => "WARN"@,
        LogLevel::Info => "INFO"@,
        LogLevel::Debug => "DEBUG"@,
        LogLevel::Trace => "TRACE"@,
    }
}

/// A character with ASCII capitals made small.
pub open spec fn ascii_lower_char(c: char) -> char {
    if 'A' <= c && c <= 'Z' {
        ((c as u32) + 32) as char
    } else {
        c
    }
}

/// A text with ASCII capitals made small.
pub open spec fn ascii_lower(s: Seq<char>) -> Seq<char> {
    s.map_values(|c: char| ascii_lower_char(c))
}

/// The message given for a log level that is none of the known names.
pub open spec fn unknown_level_message(s: Seq<char>) -> Seq<char> {
    "unknown variant `"@ + s + "`, expected one of `error`, `warn`, `info`, `debug`, `trace`, `off`"@
}

impl StorageDriver {
    /// The name in configuration files.
    pub fn name(self) -> (r: &'static str)
        ensures
            r@ == storage_driver_name(self),
    {
        match self {
            StorageDriver::Filesystem => "filesystem",
            StorageDriver::GitAnnex => "git-annex",
        }
    }

    /// The driver with the given configuration name.
    pub fn from_name(s: &str) -> (r: Option<StorageDriver>)
        ensures
            match r {
                Some(d) => storage_driver_name(d) == s@,
                None => forall|d: StorageDriver| storage_driver_name(d) != s@,
            },
    {
        proof {
            reveal_strlit("filesystem");
            reveal_strlit("git-annex");
        }
        if str_eq(s, "filesystem") {
            Some(StorageDriver::Filesystem)
        } else if str_eq(s, "git-annex") {
            Some(StorageDriver::GitAnnex)
        } else {
            None
        }
    }
}

impl Processor {
    /// The name in configuration files.
    pub fn name(self) -> (r: &'static str)
        ensures
            r@ == processor_name(self),
    {
        match self {
            Processor::Manual => "manual",
            Processor::OCR => "o-c-r",
            Processor::Vision => "vision",
        }
    }

    /// The name on the command line.
    pub fn cli_name(self) -> (r: &'static str)
        ensures
            r@ == processor_cli_name(self),
    {
        match self {
            Processor::Manual => "manual",
            Processor::OCR => "ocr",
            Processor::Vision => "vision",
        }
    }

    /// The processor with the given configuration name.
    pub fn from_name(s: &str) -> (r: Option<Processor>)
        ensures
            match r {
                Some(p) => processor_name(p) == s@,
                None => forall|p: Processor| processor_name(p) != s@,
            },
    {
        proof {
            reveal_strlit("manual");
            reveal_strlit("o-c-r");
            reveal_strlit("vision");
        }
        if str_eq(s, "manual") {
            Some(Processor::Manual)
        } else if str_eq(s, "o-c-r") {
            Some(Processor::OCR)
        } else if str_eq(s, "vision") {
            Some(Processor::Vision)
        } else {
            None
        }
    }
}

impl Extractor {
    /// The name in configuration files.
    pub fn name(self) -> (r: &'static str)
        ensures
            r@ == extractor_name(self),
    {
        match self {
            Extractor::Manual => "manual",
            Extractor::LLM => "l-l-m",
            Extractor::Regex => "regex",
            Extractor::Vision => "vision",
        }
    }

    /// The name on the command line.
    pub fn cli_name(self) -> (r: &'static str)
        ensures
            r@ == extractor_cli_name(self),
    {
        match self {
            Extractor::Manual => "manual",
            Extractor::LLM => "llm",
            Extractor::Regex => "regex",
            Extractor::Vision => "vision",
        }
    }

    /// The extractor with the given configuration name.
    pub fn from_name(s: &str) -> (r: Option<Extractor>)
        ensures
            match r {
                Some(e) => extractor_name(e) == s@,
                None => forall|e: Extractor| extractor_name(e) != s@,
            },
    {
        proof {
            reveal_strlit("manual");
            reveal_strlit("l-l-m");
            reveal_strlit("regex");
            reveal_strlit("vision");
        }
        if str_eq(s, "manual") {
            Some(Extractor::Manual)
        } else if str_eq(s, "l-l-m") {
            Some(Extractor::LLM)
        } else if str_eq(s, "regex") {
            Some(Extractor::Regex)
        } else if str_eq(s, "vision") {
            Some(Extractor::Vision)
        } else {
            None
        }
    }
}

impl LedgerFormat {
    /// The name in configuration files.
    pub fn name(self) -> (r: &'static str)
        ensures
            r@ == ledger_format_name(self),
    {
        match self {
            LedgerFormat::HLedger => "hledger",
            LedgerFormat::LedgerCli => "ledger-cli",
            LedgerFormat::BeanCount => "beancount",
            LedgerFormat::CSV => "csv",
            LedgerFormat::JSON => "json",
        }
    }
}

impl LogLevel {
    /// The lowercase name.
    pub fn name(self) -> (r: &'static str)
        ensures
            r@ == level_name(self),
    {
        match self {
            LogLevel::Off => "off",
            LogLevel::Error => "error",
            LogLevel::Warn => "warn",
            LogLevel::Info => "info",
            LogLevel::Debug => "debug",
            LogLevel::Trace => "trace",
        }
    }

    /// The name used when a configuration is exported.
    pub fn export_name(self) -> (r: &'static str)
        ensures
            r@ == level_export_name(self),
    {
        match self {
            LogLevel::Off => "OFF",
            LogLevel::Error => "ERROR",
            LogLevel::Warn => "WARN",
            LogLevel::Info => "INFO",
            LogLevel::Debug => "DEBUG",
            LogLevel::Trace => "TRACE",
        }
    }

    /// Reads a log level, ignoring the case of its letters. (For these names
    /// lowercasing all of Unicode and lowercasing ASCII letters agree.)
    pub fn parse(s: &str) -> (r: Result<LogLevel, Error>)
        ensures
            match r {
                Ok(l) => level_name(l) == ascii_lower(s@),
                Err(e) => (e matches Error::Config { message } && message@
                    == unknown_level_message(s@)) && forall|l: LogLevel| level_name(l)
                    != ascii_lower(s@),
            },
    {
        let lower = ascii_lowercase(s);
        let t = lower.as_str();
        proof {
            reveal_strlit("off");
            reveal_strlit("error");
            reveal_strlit("warn");
            reveal_strlit("info");
            reveal_strlit("debug");
            reveal_strlit("trace");
        }
        if str_eq(t, "error") {
            Ok(LogLevel::Error)
        } else if str_eq(t, "warn") {
            Ok(LogLevel::Warn)
        } else if str_eq(t, "info") {
            Ok(LogLevel::Info)
        } else if str_eq(t, "debug") {
            Ok(LogLevel::Debug)
        } else if str_eq(t, "trace") {
            Ok(LogLevel::Trace)
        } else if str_eq(t, "off") {
            Ok(LogLevel::Off)
        } else {
            let a = concat("unknown variant `", s);
            let message = concat(
                a.as_str(),
                "`, expected one of `error`, `warn`, `info`, `debug`, `trace`, `off`",
            );
            Err(Error::Config { message })
        }
    }
}

/// The character with an ASCII capital made small.
/// Trusted: `char::to_ascii_lowercase`, documented to map `A` to `Z` onto `a`
/// to `z` and to leave every other character as it is.
#[verifier::external_body]
fn lower_of(c: char) -> (r: char)
    ensures
        r == ascii_lower_char(c),
{
    c.to_ascii_lowercase()
}

/// `s` with ASCII capitals made small.
pub fn ascii_lowercase(s: &str) -> (r: String)
    ensures
        r@ == ascii_lower(s@),
{
    let mut out = String::new();
    let n = s.unicode_len();
    let mut i: usize = 0;
    while i < n
        invariant
            n == s@.len(),
            i <= n,
            out@ == ascii_lower(s@.take(i as int)),
        decreases n - i,
    {
        let c = s.get_char(i);
        let d = lower_of(c);
        push_char(&mut out, d);
        assert(ascii_lower(s@.take(i + 1)) =~= ascii_lower(s@.take(i as int)).push(d));
        i += 1;
    }
    assert(s@.take(n as int) =~= s@);
    out
}


/// Settings of the plain filesystem store.
#[derive(Debug)]
pub struct FilesystemConfig {
    pub directory: FsPath,
    pub glob: String,
    pub commit: bool,
    pub copy: bool,
    pub rename: bool,
    pub track: bool,
}

/// Settings of the git-annex store.
#[derive(Debug)]
pub struct GitAnnexConfig {
    pub directory: FsPath,
    pub copy: bool,
    pub rename: bool,
}

/// Settings of metadata files kept beside the asset files.
#[derive(Debug)]
pub struct SidecarConfig {
    pub directory: FsPath,
    pub format: InfoFormat,
    pub hidden: bool,
}

/// Settings of the Git tracker.
#[derive(Debug)]
pub struct GitConfig {
    pub stage: bool,
    pub commit: bool,
}

/// Settings of the vision model.
#[derive(Debug)]
pub struct VisionConfig {
    pub model: String,
}

/// Settings of the language model.
#[derive(Debug)]
pub struct LLMConfig {
    pub model: String,
}

/// The complete configuration of a run.
#[derive(Debug)]
pub struct Config {
    pub project: FsPath,
    pub verbosity: LogLevel,
    pub dry_run: bool,
    pub dirty: bool,
    pub overwrite: bool,
    pub config_file: Option<FsPath>,
    pub processor: Processor,
    pub extractor: Extractor,
    pub storage: Option<StorageDriver>,
    pub blob_storage: Option<BlobHandler>,
    pub info_storage: Option<InfoHandler>,
    pub tracker: Option<VersionHandler>,
    pub filesystem: Option<FilesystemConfig>,
    pub git_annex: Option<GitAnnexConfig>,
    pub sidecar: Option<SidecarConfig>,
    pub git: Option<GitConfig>,
    pub vision: Option<VisionConfig>,
    pub llm: Option<LLMConfig>,
}

/// The data directory used when a store names none.
pub fn default_directory() -> (r: FsPath)
    ensures
        r@ == parse_comps("./acceptarium"@),
{
    FsPath::parse("./acceptarium")
}

/// The pattern metadata files are found by when a store names none.
pub fn default_glob() -> (r: String)
    ensures
        r@ == "*.toml"@,
{
    owned("*.toml")
}

/// The log level used when none is configured.
pub fn default_verbosity() -> (r: LogLevel)
    ensures
        r == LogLevel::Warn,
{
    LogLevel::Warn
}

/// The vision model used when none is configured.
pub fn default_vision_model() -> (r: String)
    ensures
        r@ == "qwen3.5:9b"@,
{
    owned("qwen3.5:9b")
}

/// The language model used when none is configured.
pub fn default_llm_model() -> (r: String)
    ensures
        r@ == "qwen3.5:9b"@,
{
    owned("qwen3.5:9b")
}

impl Default for FilesystemConfig {
    /// Every setting empty or off.
    fn default() -> (r: FilesystemConfig)
        ensures
            r.directory@ == Seq::<Seq<char>>::empty(),
            r.glob@ == Seq::<char>::empty(),
            !r.commit && !r.copy && !r.rename && !r.track,
    {
        FilesystemConfig {
            directory: FsPath::empty(),
            glob: String::new(),
            commit: false,
            copy: false,
            rename: false,
            track: false,
        }
    }
}

impl Default for GitAnnexConfig {
    /// Every setting empty or off.
    fn default() -> (r: GitAnnexConfig)
        ensures
            r.directory@ == Seq::<Seq<char>>::empty(),
            !r.copy && !r.rename,
    {
        GitAnnexConfig { directory: FsPath::empty(), copy: false, rename: false }
    }
}

impl Default for VisionConfig {
    /// No model named.
    fn default() -> (r: VisionConfig)
        ensures
            r.model@ == Seq::<char>::empty(),
    {
        VisionConfig { model: String::new() }
    }
}

impl Default for LLMConfig {
    /// No model named.
    fn default() -> (r: LLMConfig)
        ensures
            r.model@ == Seq::<char>::empty(),
    {
        LLMConfig { model: String::new() }
    }
}

// ---------------------------------------------------------------------------
// Export as JSON

/// A path as JSON: its text.
pub open spec fn path_json(p: FsPath) -> Json {
    Json::Str(render(p@))
}

pub open spec fn filesystem_json(f: FilesystemConfig) -> Json {
    Json::Object(
        seq![
            ("commit"@, Json::Bool(f.commit)),
            ("copy"@, Json::Bool(f.copy)),
            ("directory"@, path_json(f.directory)),
            ("glob"@, Json::Str(f.glob@)),
            ("rename"@, Json::Bool(f.rename)),
            ("track"@, Json::Bool(f.track)),
        ],
    )
}

pub open spec fn git_annex_json(g: GitAnnexConfig) -> Json {
    Json::Object(
        seq![
            ("copy"@, Json::Bool(g.copy)),
            ("directory"@, path_json(g.directory)),
            ("rename"@, Json::Bool(g.rename)),
        ],
    )
}

pub open spec fn sidecar_json(c: SidecarConfig) -> Json {
    Json::Object(
        seq![
            ("directory"@, path_json(c.directory)),
            ("format"@, Json::Str(info_format_extension(c.format))),
            ("hidden"@, Json::Bool(c.hidden)),
        ],
    )
}

pub open spec fn git_json(g: GitConfig) -> Json {
    Json::Object(seq![("commit"@, Json::Bool(g.commit)), ("stage"@, Json::Bool(g.stage))])
}

pub open spec fn model_json(m: Seq<char>) -> Json {
    Json::Object(seq![("model"@, Json::Str(m))])
}

/// The JSON a configuration is exported as: one entry per setting, keys in
/// sorted order, absent settings as null.
pub open spec fn config_json(c: Config) -> Json {
    Json::Object(config_entries_a(c) + config_entries_b(c))
}

/// The first half of the exported settings, up to the language model.
pub open spec fn config_entries_a(c: Config) -> Seq<(Seq<char>, Json)> {
        seq![
            ("blob_storage"@, match c.blob_storage {
                Some(h) => Json::Str(blob_handler_name(h)),
                None => Json::Null,
            }),
            ("config_file"@, match c.config_file {
                Some(p) => path_json(p),
                None => Json::Null,
            }),
            ("dirty"@, Json::Bool(c.dirty)),
            ("dry_run"@, Json::Bool(c.dry_run)),
            ("extractor"@, Json::Str(extractor_name(c.extractor))),
            ("filesystem"@, match c.filesystem {
                Some(f) => filesystem_json(f),
                None => Json::Null,
            }),
            ("git"@, match c.git {
                Some(g) => git_json(g),
                None => Json::Null,
            }),
            ("git_annex"@, match c.git_annex {
                Some(g) => git_annex_json(g),
                None => Json::Null,
            }),
            ("info_storage"@, match c.info_storage {
                Some(h) => Json::Str(info_handler_name(h)),
                None => Json::Null,
            }),
            ("llm"@, match c.llm {
                Some(m) => model_json(m.model@),
                None => Json::Null,
            }),
        ]
}

/// The second half of the exported settings.
pub open spec fn config_entries_b(c: Config) -> Seq<(Seq<char>, Json)> {
        seq![
            ("overwrite"@, Json::Bool(c.overwrite)),
            ("processor"@, Json::Str(processor_name(c.processor))),
            ("project"@, path_json(c.project)),
            ("sidecar"@, match c.sidecar {
                Some(s) => sidecar_json(s),
                None => Json::Null,
            }),
            ("storage"@, match c.storage {
                Some(d) => Json::Str(storage_driver_name(d)),
                None => Json::Null,
            }),
            ("tracker"@, match c.tracker {
                Some(h) => Json::Str(version_handler_name(h)),
                None => Json::Null,
            }),
            ("verbosity"@, Json::Str(level_export_name(c.verbosity))),
            ("vision"@, match c.vision {
                Some(m) => model_json(m.model@),
                None => Json::Null,
            }),
        ]
}

fn entry(k: &str, v: JsonValue) -> (r: (String, JsonValue))
    ensures
        r.0@ == k@,
        r.1 == v,
{
    (owned(k), v)
}

fn str_json(s: &str) -> (r: JsonValue)
    ensures
        jv(r) == Json::Str(s@),
{
    JsonValue::String(owned(s))
}

fn path_value(p: &FsPath) -> (r: JsonValue)
    ensures
        jv(r) == path_json(*p),
{
    JsonValue::String(p.to_text())
}

fn object_of(o: Vec<(String, JsonValue)>, Ghost(want): Ghost<Seq<(Seq<char>, Json)>>) -> (r: JsonValue)
    requires
        o@.len() == want.len(),
        forall|i: int| 0 <= i < o@.len() ==> (#[trigger] o@[i]).0@ == want[i].0 && jv(o@[i].1) == want[i].1,
    ensures
        jv(r) == Json::Object(want),
{
    proof {
        lemma_jv_entries_ext(o@, want);
    }
    JsonValue::Object(o)
}

impl FilesystemConfig {
    pub fn to_json_value(&self) -> (r: JsonValue)
        ensures
            jv(r) == filesystem_json(*self),
    {
        let mut o: Vec<(String, JsonValue)> = Vec::new();
        o.push(entry("commit", JsonValue::Bool(self.commit)));
        o.push(entry("copy", JsonValue::Bool(self.copy)));
        o.push(entry("directory", path_value(&self.directory)));
        o.push(entry("glob", str_json(self.glob.as_str())));
        o.push(entry("rename", JsonValue::Bool(self.rename)));
        o.push(entry("track", JsonValue::Bool(self.track)));
        proof {
            reveal_strlit("commit");
            reveal_strlit("copy");
            reveal_strlit("directory");
            reveal_strlit("glob");
            reveal_strlit("rename");
            reveal_strlit("track");
        }
        let ghost want = match filesystem_json(*self) {
            Json::Object(w) => w,
            _ => seq![],
        };
        object_of(o, Ghost(want))
    }
}


impl GitAnnexConfig {
    pub fn to_json_value(&self) -> (r: JsonValue)
        ensures
            jv(r) == git_annex_json(*self),
    {
        let mut o: Vec<(String, JsonValue)> = Vec::new();
        o.push(entry("copy", JsonValue::Bool(self.copy)));
        o.push(entry("directory", path_value(&self.directory)));
        o.push(entry("rename", JsonValue::Bool(self.rename)));
        let ghost want = match git_annex_json(*self) {
            Json::Object(w) => w,
            _ => seq![],
        };
        object_of(o, Ghost(want))
    }
}

impl SidecarConfig {
    pub fn to_json_value(&self) -> (r: JsonValue)
        ensures
            jv(r) == sidecar_json(*self),
    {
        let mut o: Vec<(String, JsonValue)> = Vec::new();
        o.push(entry("directory", path_value(&self.directory)));
        o.push(entry("format", str_json(info_extension(self.format))));
        o.push(entry("hidden", JsonValue::Bool(self.hidden)));
        let ghost want = match sidecar_json(*self) {
            Json::Object(w) => w,
            _ => seq![],
        };
        object_of(o, Ghost(want))
    }
}

impl GitConfig {
    pub fn to_json_value(&self) -> (r: JsonValue)
        ensures
            jv(r) == git_json(*self),
    {
        let mut o: Vec<(String, JsonValue)> = Vec::new();
        o.push(entry("commit", JsonValue::Bool(self.commit)));
        o.push(entry("stage", JsonValue::Bool(self.stage)));
        let ghost want = match git_json(*self) {
            Json::Object(w) => w,
            _ => seq![],
        };
        object_of(o, Ghost(want))
    }
}

fn model_value(m: &String) -> (r: JsonValue)
    ensures
        jv(r) == model_json(m@),
{
    let mut o: Vec<(String, JsonValue)> = Vec::new();
    o.push(entry("model", str_json(m.as_str())));
    let ghost want = match model_json(m@) {
        Json::Object(w) => w,
        _ => seq![],
    };
    object_of(o, Ghost(want))
}

/// The file extension of a metadata format.
pub fn info_extension(format: InfoFormat) -> (r: &'static str)
    ensures
        r@ == info_format_extension(format),
{
    match format {
        InfoFormat::JSON => "json",
        InfoFormat::TOML => "toml",
        InfoFormat::YAML => "yaml",
        InfoFormat::HJSON => "hjson",
        InfoFormat::XML => "xml",
    }
}

impl BlobHandler {
    pub fn name(self) -> (r: &'static str)
        ensures
            r@ == blob_handler_name(self),
    {
        match self {
            BlobHandler::Filesystem => "filesystem",
            BlobHandler::GitAnnex => "git-annex",
        }
    }
}

impl InfoHandler {
    pub fn name(self) -> (r: &'static str)
        ensures
            r@ == info_handler_name(self),
    {
        match self {
            InfoHandler::Sidecar => "sidecar",
            InfoHandler::Metadata => "metadata",
        }
    }
}

impl VersionHandler {
    pub fn name(self) -> (r: &'static str)
        ensures
            r@ == version_handler_name(self),
    {
        match self {
            VersionHandler::Git => "git",
            VersionHandler::Manual => "manual",
        }
    }
}

fn opt_name(o: Option<&'static str>) -> (r: JsonValue)
    ensures
        jv(r) == match o {
            Some(n) => Json::Str(n@),
            None => Json::Null,
        },
{
    match o {
        Some(n) => str_json(n),
        None => JsonValue::Null,
    }
}

impl Config {
    fn entries_a(&self) -> (r: Vec<(String, JsonValue)>)
        ensures
            jv_entries(r@) == config_entries_a(*self),
    {
        let blob = opt_name(match self.blob_storage {
            Some(h) => Some(h.name()),
            None => None,
        });
        let config_file = match &self.config_file {
            Some(p) => path_value(p),
            None => JsonValue::Null,
        };
        let filesystem = match &self.filesystem {
            Some(f) => f.to_json_value(),
            None => JsonValue::Null,
        };
        let git = match &self.git {
            Some(g) => g.to_json_value(),
            None => JsonValue::Null,
        };
        let git_annex = match &self.git_annex {
            Some(g) => g.to_json_value(),
            None => JsonValue::Null,
        };
        let info = opt_name(match self.info_storage {
            Some(h) => Some(h.name()),
            None => None,
        });
        let llm = match &self.llm {
            Some(m) => model_value(&m.model),
            None => JsonValue::Null,
        };
        let o: Vec<(String, JsonValue)> = vec![
            entry("blob_storage", blob),
            entry("config_file", config_file),
            entry("dirty", JsonValue::Bool(self.dirty)),
            entry("dry_run", JsonValue::Bool(self.dry_run)),
            entry("extractor", str_json(self.extractor.name())),
            entry("filesystem", filesystem),
            entry("git", git),
            entry("git_annex", git_annex),
            entry("info_storage", info),
            entry("llm", llm),
        ];
        proof {
            lemma_jv_entries_ext(o@, config_entries_a(*self));
        }
        o
    }

    fn entries_b(&self) -> (r: Vec<(String, JsonValue)>)
        ensures
            jv_entries(r@) == config_entries_b(*self),
    {
        let sidecar = match &self.sidecar {
            Some(c) => c.to_json_value(),
            None => JsonValue::Null,
        };
        let storage = opt_name(match self.storage {
            Some(d) => Some(d.name()),
            None => None,
        });
        let tracker = opt_name(match self.tracker {
            Some(h) => Some(h.name()),
            None => None,
        });
        let vision = match &self.vision {
            Some(m) => model_value(&m.model),
            None => JsonValue::Null,
        };
        let o: Vec<(String, JsonValue)> = vec![
            entry("overwrite", JsonValue::Bool(self.overwrite)),
            entry("processor", str_json(self.processor.name())),
            entry("project", path_value(&self.project)),
            entry("sidecar", sidecar),
            entry("storage", storage),
            entry("tracker", tracker),
            entry("verbosity", str_json(self.verbosity.export_name())),
            entry("vision", vision),
        ];
        proof {
            lemma_jv_entries_ext(o@, config_entries_b(*self));
        }
        o
    }

    /// The configuration as JSON (see `config_json`).
    pub fn to_json_value(&self) -> (r: JsonValue)
        ensures
            jv(r) == config_json(*self),
    {
        let mut a = self.entries_a();
        let mut b = self.entries_b();
        let ghost va = a@;
        let ghost vb = b@;
        a.append(&mut b);
        proof {
            lemma_jv_entries(va);
            lemma_jv_entries(vb);
            assert forall|i: int| 0 <= i < a@.len() implies (#[trigger] a@[i]).0@ == (
            config_entries_a(*self) + config_entries_b(*self))[i].0 && jv(a@[i].1) == (
            config_entries_a(*self) + config_entries_b(*self))[i].1 by {
                if i < va.len() {
                    assert(a@[i] == va[i]);
                } else {
                    assert(a@[i] == vb[i - va.len()]);
                }
            }
            lemma_jv_entries_ext(a@, config_entries_a(*self) + config_entries_b(*self));
        }
        JsonValue::Object(a)
    }
}


// ---------------------------------------------------------------------------
// Export to the environment

/// A key written in UPPERFLATCASE, as the `convert_case` crate computes it.
pub uninterp spec fn upper_flat_case(s: Seq<char>) -> Seq<char>;

/// The key in UPPERFLATCASE.
/// Trusted: `convert_case::Casing::to_case` with `Case::UpperFlat`, a
/// function of the text alone (it splits the text into words and writes them
/// in capitals with nothing between); its result is the name above.
#[verifier::external_body]
fn upper_flat(s: &str) -> (r: String)
    ensures
        r@ == upper_flat_case(s@),
{
    s.to_case(convert_case::Case::UpperFlat)
}

/// The text a leaf value is exported as: a string as it is, anything else
/// as its JSON text.
pub open spec fn scalar_text(v: Json) -> Seq<char> {
    match v {
        Json::Str(s) => s,
        _ => json_text(v),
    }
}

/// The variables a value is exported as under the name `prefix`: an object
/// gives those of its entries in order, each under the prefix, `_` and its
/// key in UPPERFLATCASE; null gives none; any other value one variable, unless
/// its text is empty or `null`.
pub open spec fn flat_env(v: Json, prefix: Seq<char>) -> Seq<(Seq<char>, Seq<char>)>
    decreases v,
{
    match v {
        Json::Object(es) => flat_entries(es, prefix),
        Json::Null => seq![],
        _ => {
            let s = scalar_text(v);
            if s.len() == 0 || s == "null"@ {
                seq![]
            } else {
                seq![(prefix, s)]
            }
        },
    }
}

/// The variables the entries of an object are exported as.
pub open spec fn flat_entries(es: Seq<(Seq<char>, Json)>, prefix: Seq<char>) -> Seq<
    (Seq<char>, Seq<char>),
>
    decreases es,
{
    if es.len() == 0 {
        seq![]
    } else {
        flat_entries(es.drop_last(), prefix) + flat_env(
            es.last().1,
            prefix + seq!['_'] + upper_flat_case(es.last().0),
        )
    }
}

/// The views of name/value pairs.
pub open spec fn pair_views(v: Seq<(String, String)>) -> Seq<(Seq<char>, Seq<char>)> {
    v.map_values(|p: (String, String)| (p.0@, p.1@))
}

fn push_pair(envs: &mut Vec<(String, String)>, k: String, v: String)
    ensures
        pair_views(final(envs)@) == pair_views(old(envs)@).push((k@, v@)),
{
    envs.push((k, v));
    assert(pair_views(envs@) =~= pair_views(old(envs)@).push((k@, v@)));
}

/// Appends the variables `value` is exported as under the name `prefix`.
#[verifier::loop_isolation(false)]
pub fn flatten_json_value(value: &JsonValue, prefix: &str, envs: &mut Vec<(String, String)>)
    ensures
        pair_views(final(envs)@) == pair_views(old(envs)@) + flat_env(jv(*value), prefix@),
    decreases value,
{
    let ghost e0 = pair_views(envs@);
    match value {
        JsonValue::Object(map) => {
            let n = map.len();
            let mut i: usize = 0;
            proof {
                lemma_jv_entries(map@);
                assert(jv_entries(map@).take(0) =~= Seq::<(Seq<char>, Json)>::empty());
                assert(e0 + seq![] =~= e0);
            }
            while i < n
                invariant
                    n == map@.len(),
                    i <= n,
                    jv_entries(map@).len() == n,
                    forall|j: int|
                        0 <= j < n ==> #[trigger] jv_entries(map@)[j] == (map@[j].0@, jv(map@[j].1)),
                    pair_views(envs@) == e0 + flat_entries(jv_entries(map@).take(i as int), prefix@),
                decreases n - i,
            {
                proof {
                    assert(decreases_to!(map => map@));
                    assert(decreases_to!(map@ => map@[i as int]));
                    assert(decreases_to!(map@[i as int] => map@[i as int].1));
                }
                let key_upper = upper_flat(map[i].0.as_str());
                let a = concat(prefix, "_");
                let new_prefix = concat(a.as_str(), key_upper.as_str());
                let ghost before = pair_views(envs@);
                flatten_json_value(&map[i].1, new_prefix.as_str(), envs);
                proof {
                    reveal_strlit("_");
                    let t = jv_entries(map@).take(i + 1);
                    assert(t.drop_last() =~= jv_entries(map@).take(i as int));
                    assert(t.last() == (map@[i as int].0@, jv(map@[i as int].1)));
                    assert(new_prefix@ == prefix@ + seq!['_'] + upper_flat_case(map@[i as int].0@));
                    assert(pair_views(envs@) =~= e0 + flat_entries(t, prefix@));
                }
                i += 1;
            }
            assert(jv_entries(map@).take(n as int) =~= jv_entries(map@));
        },
        JsonValue::Null => {
            assert(pair_views(envs@) =~= e0 + seq![]);
        },
        _ => {
            let s = match value {
                JsonValue::String(t) => t.clone(),
                _ => json_to_text(value),
            };
            proof {
                reveal_strlit("null");
            }
            if s.unicode_len() > 0 && !str_eq(s.as_str(), "null") {
                push_pair(envs, owned(prefix), s);
                assert(pair_views(envs@) =~= e0 + flat_env(jv(*value), prefix@));
            } else {
                assert(pair_views(envs@) =~= e0 + flat_env(jv(*value), prefix@));
            }
        },
    }
}

/// Each exported setting carries that setting's own value: in the exported
/// configuration, `overwrite` is the overwrite flag, `dirty` the dirty
/// flag, `dry_run` the dry-run flag, `processor`, `extractor` and
/// `verbosity` the names of the chosen ones, and `project` the project
/// path; no key is exported twice.
pub proof fn law_exported_settings_are_their_own(c: Config)
    ensures
        config_json(c) matches Json::Object(o) && {
            &&& crate::json::distinct_keys(o)
            &&& crate::json::obj_get(o, "overwrite"@) == Some(Json::Bool(c.overwrite))
            &&& crate::json::obj_get(o, "dirty"@) == Some(Json::Bool(c.dirty))
            &&& crate::json::obj_get(o, "dry_run"@) == Some(Json::Bool(c.dry_run))
            &&& crate::json::obj_get(o, "processor"@) == Some(Json::Str(processor_name(c.processor)))
            &&& crate::json::obj_get(o, "extractor"@) == Some(Json::Str(extractor_name(c.extractor)))
            &&& crate::json::obj_get(o, "verbosity"@) == Some(
                Json::Str(level_export_name(c.verbosity)),
            )
            &&& crate::json::obj_get(o, "project"@) == Some(path_json(c.project))
            &&& crate::json::obj_get(o, "blob_storage"@) == Some(
                match c.blob_storage {
                    Some(h) => Json::Str(blob_handler_name(h)),
                    None => Json::Null,
                },
            )
            &&& crate::json::obj_get(o, "info_storage"@) == Some(
                match c.info_storage {
                    Some(h) => Json::Str(info_handler_name(h)),
                    None => Json::Null,
                },
            )
            &&& crate::json::obj_get(o, "tracker"@) == Some(
                match c.tracker {
                    Some(h) => Json::Str(version_handler_name(h)),
                    None => Json::Null,
                },
            )
            &&& crate::json::obj_get(o, "storage"@) == Some(
                match c.storage {
                    Some(d) => Json::Str(storage_driver_name(d)),
                    None => Json::Null,
                },
            )
        },
{
    reveal_strlit("blob_storage");
    reveal_strlit("config_file");
    reveal_strlit("dirty");
    reveal_strlit("dry_run");
    reveal_strlit("extractor");
    reveal_strlit("filesystem");
    reveal_strlit("git");
    reveal_strlit("git_annex");
    reveal_strlit("info_storage");
    reveal_strlit("llm");
    reveal_strlit("overwrite");
    reveal_strlit("processor");
    reveal_strlit("project");
    reveal_strlit("sidecar");
    reveal_strlit("storage");
    reveal_strlit("tracker");
    reveal_strlit("verbosity");
    reveal_strlit("vision");
    let o = config_entries_a(c) + config_entries_b(c);
    assert(o.len() == 18);
    let a = config_entries_a(c);
    let b = config_entries_b(c);
    assert(o[0] == a[0] && o[1] == a[1] && o[2] == a[2] && o[3] == a[3] && o[4] == a[4]);
    assert(o[5] == a[5] && o[6] == a[6] && o[7] == a[7] && o[8] == a[8] && o[9] == a[9]);
    assert(o[10] == b[0] && o[11] == b[1] && o[12] == b[2] && o[13] == b[3] && o[14] == b[4]);
    assert(o[15] == b[5] && o[16] == b[6] && o[17] == b[7]);
    let keys = seq![
        "blob_storage"@,
        "config_file"@,
        "dirty"@,
        "dry_run"@,
        "extractor"@,
        "filesystem"@,
        "git"@,
        "git_annex"@,
        "info_storage"@,
        "llm"@,
        "overwrite"@,
        "processor"@,
        "project"@,
        "sidecar"@,
        "storage"@,
        "tracker"@,
        "verbosity"@,
        "vision"@,
    ];
    assert forall|i: int| 0 <= i < 18 implies (#[trigger] o[i]).0 == keys[i] by {}
    assert(crate::json::distinct_keys(o)) by {
        assert forall|x: int, y: int| 0 <= x < y < o.len() implies (#[trigger] o[x]).0 != (
        #[trigger] o[y]).0 by {
            assert(o[x].0 == keys[x] && o[y].0 == keys[y]);
            assert(keys[x][0] != keys[y][0] || keys[x].len() != keys[y].len() || keys[x][1]
                != keys[y][1]);
        }
    }
    crate::json::lemma_obj_get_at(o, 0);
    crate::json::lemma_obj_get_at(o, 8);
    crate::json::lemma_obj_get_at(o, 14);
    crate::json::lemma_obj_get_at(o, 15);
    crate::json::lemma_obj_get_at(o, 2);
    crate::json::lemma_obj_get_at(o, 3);
    crate::json::lemma_obj_get_at(o, 4);
    crate::json::lemma_obj_get_at(o, 10);
    crate::json::lemma_obj_get_at(o, 11);
    crate::json::lemma_obj_get_at(o, 12);
    crate::json::lemma_obj_get_at(o, 16);
}

/// The variables of the first `m` entries come first among those of all.
proof fn lemma_flat_entries_prefix(es: Seq<(Seq<char>, Json)>, m: int, prefix: Seq<char>)
    requires
        0 <= m <= es.len(),
    ensures
        flat_entries(es.take(m), prefix) == flat_entries(es, prefix).subrange(
            0,
            flat_entries(es.take(m), prefix).len() as int,
        ),
        flat_entries(es.take(m), prefix).len() <= flat_entries(es, prefix).len(),
    decreases es.len() - m,
{
    if m == es.len() {
        assert(es.take(m) =~= es);
        assert(flat_entries(es, prefix).subrange(0, flat_entries(es, prefix).len() as int) =~= flat_entries(
            es,
            prefix,
        ));
    } else {
        lemma_flat_entries_prefix(es, m + 1, prefix);
        assert(es.take(m + 1).drop_last() =~= es.take(m));
        let f = flat_entries(es.take(m), prefix);
        let g = flat_entries(es.take(m + 1), prefix);
        assert(g == f + flat_env(es[m].1, prefix + seq!['_'] + upper_flat_case(es[m].0)));
        assert(f =~= g.subrange(0, f.len() as int));
        let all = flat_entries(es, prefix);
        assert(g =~= all.subrange(0, g.len() as int));
        assert(f =~= all.subrange(0, f.len() as int));
    }
}

/// The variable of a yes/no setting at position `i` of an object.
proof fn lemma_flag_variable(es: Seq<(Seq<char>, Json)>, i: int, prefix: Seq<char>, b: bool)
    requires
        0 <= i < es.len(),
        es[i].1 == Json::Bool(b),
    ensures
        flat_entries(es, prefix).contains(
            (prefix + seq!['_'] + upper_flat_case(es[i].0), if b {
                "true"@
            } else {
                "false"@
            }),
        ),
{
    reveal_strlit("true");
    reveal_strlit("false");
    reveal_strlit("null");
    lemma_flat_entries_prefix(es, i + 1, prefix);
    assert(es.take(i + 1).drop_last() =~= es.take(i));
    assert(es.take(i + 1).last() == es[i]);
    let name = prefix + seq!['_'] + upper_flat_case(es[i].0);
    let t = if b {
        "true"@
    } else {
        "false"@
    };
    assert(scalar_text(Json::Bool(b)) == t);
    assert(t != "null"@ && t.len() > 0) by {
        assert(t.len() != "null"@.len() || t[0] != "null"@[0]);
    }
    assert(flat_env(Json::Bool(b), name) == seq![(name, t)]);
    let f = flat_entries(es.take(i), prefix);
    let g = flat_entries(es.take(i + 1), prefix);
    assert(g == f + seq![(name, t)]);
    let all = flat_entries(es, prefix);
    assert(all[f.len() as int] == g[f.len() as int]);
}

/// The exported variables carry each yes/no setting's own value:
/// `ACCEPTARIUM_` followed by the setting's name in upper flat case holds
/// `true` or `false` as the overwrite, dirty and dry-run flags are.
pub proof fn law_exported_flags(c: Config)
    ensures
        flat_env(config_json(c), "ACCEPTARIUM"@).contains(
            ("ACCEPTARIUM"@ + seq!['_'] + upper_flat_case("overwrite"@), if c.overwrite {
                "true"@
            } else {
                "false"@
            }),
        ),
        flat_env(config_json(c), "ACCEPTARIUM"@).contains(
            ("ACCEPTARIUM"@ + seq!['_'] + upper_flat_case("dirty"@), if c.dirty {
                "true"@
            } else {
                "false"@
            }),
        ),
        flat_env(config_json(c), "ACCEPTARIUM"@).contains(
            ("ACCEPTARIUM"@ + seq!['_'] + upper_flat_case("dry_run"@), if c.dry_run {
                "true"@
            } else {
                "false"@
            }),
        ),
{
    let o = config_entries_a(c) + config_entries_b(c);
    let a = config_entries_a(c);
    let b = config_entries_b(c);
    assert(o[2] == a[2] && o[3] == a[3] && o[10] == b[0]);
    lemma_flag_variable(o, 10, "ACCEPTARIUM"@, c.overwrite);
    lemma_flag_variable(o, 2, "ACCEPTARIUM"@, c.dirty);
    lemma_flag_variable(o, 3, "ACCEPTARIUM"@, c.dry_run);
}

impl Config {
    /// The configuration as environment variables named from `ACCEPTARIUM`
    /// (see `flat_env` and `config_json`).
    pub fn try_to_env_vars(&self) -> (r: Result<Vec<(String, String)>, Error>)
        ensures
            r matches Ok(v) && pair_views(v@) == flat_env(config_json(*self), "ACCEPTARIUM"@),
    {
        let json_value = self.to_json_value();
        let mut envs: Vec<(String, String)> = Vec::new();
        flatten_json_value(&json_value, "ACCEPTARIUM", &mut envs);
        assert(pair_views(envs@) =~= flat_env(config_json(*self), "ACCEPTARIUM"@));
        Ok(envs)
    }
}


// ---------------------------------------------------------------------------
// Building a configuration

/// The name of a project's configuration file.
pub open spec fn project_config_name() -> Seq<char> {
    "acceptarium.toml"@
}

/// The path of the configuration file in directory `dir`.
pub open spec fn config_file_in(dir: Seq<Seq<char>>) -> Seq<Seq<char>> {
    spec_join(dir, parse_comps(project_config_name()))
}

/// The path of the configuration file in directory `dir`.
pub fn config_path_in(dir: &FsPath) -> (r: FsPath)
    ensures
        r@ == config_file_in(dir@),
{
    dir.join(&FsPath::parse("acceptarium.toml"))
}

/// `p` after `k` steps up (a step from a path without parent stays put).
pub open spec fn ancestor(p: Seq<Seq<char>>, k: nat) -> Seq<Seq<char>>
    decreases k,
{
    if k == 0 {
        p
    } else {
        match spec_parent(ancestor(p, (k - 1) as nat)) {
            Some(q) => q,
            None => ancestor(p, (k - 1) as nat),
        }
    }
}

/// `has_file` answered `b` when asked about the configuration file in `dir`.
pub open spec fn answered<F: Fn(&FsPath) -> bool>(has_file: F, dir: Seq<Seq<char>>, b: bool) -> bool {
    exists|c: &FsPath| c@ == config_file_in(dir) && #[trigger] has_file.ensures((c,), b)
}

/// The walk from `cwd` passed its first `k` directories: none held a
/// configuration file (as `has_file` answered), none was `root`, and each had
/// a parent.
pub open spec fn walked_past<F: Fn(&FsPath) -> bool>(
    has_file: F,
    cwd: Seq<Seq<char>>,
    root: Seq<Seq<char>>,
    k: nat,
) -> bool {
    forall|j: nat|
        j < k ==> {
            &&& ancestor(cwd, j) != root
            &&& spec_parent(ancestor(cwd, j)) is Some
            &&& answered(has_file, ancestor(cwd, j), false)
        }
}

/// The project directory found from `cwd`: the first directory, going up
/// from `cwd`, whose configuration file `has_file` says is there; `root` when
/// the walk reaches `root`, or a directory without parent, first.
pub fn walk_to_root_or_config<F: Fn(&FsPath) -> bool>(
    cwd: &FsPath,
    root: &FsPath,
    has_file: F,
) -> (r: FsPath)
    requires
        forall|c: &FsPath| #[trigger] has_file.requires((c,)),
    ensures
        exists|k: nat|
            {
                &&& walked_past(has_file, cwd@, root@, k)
                &&& ({
                    ||| answered(has_file, ancestor(cwd@, k), true) && r@ == ancestor(cwd@, k)
                    ||| answered(has_file, ancestor(cwd@, k), false) && (ancestor(cwd@, k) == root@
                        || spec_parent(ancestor(cwd@, k)) is None) && r@ == root@
                })
            },
{
    let mut current = cwd.copy();
    let ghost mut k: nat = 0;
    loop
        invariant
            forall|c: &FsPath| #[trigger] has_file.requires((c,)),
            current@ == ancestor(cwd@, k),
            walked_past(has_file, cwd@, root@, k),
        decreases current@.len(),
    {
        let config = config_path_in(&current);
        let found = has_file(&config);
        if found {
            assert(answered(has_file, ancestor(cwd@, k), true));
            return current;
        }
        assert(answered(has_file, ancestor(cwd@, k), false));
        if current.equals(root) {
            return root.copy();
        }
        let ghost before = current@;
        if !current.pop() {
            return root.copy();
        }
        proof {
            assert(ancestor(cwd@, k + 1) == current@);
            assert forall|j: nat| j < k + 1 implies {
                &&& ancestor(cwd@, j) != root@
                &&& spec_parent(ancestor(cwd@, j)) is Some
                &&& answered(has_file, ancestor(cwd@, j), false)
            } by {}
            k = k + 1;
        }
    }
}

/// The directory where the search for the project stops: the work tree of
/// the Git repository around `cwd` where there is one, else `cwd` itself.
pub open spec fn search_root(cwd: Seq<Seq<char>>, git_workdir: Option<FsPath>) -> Seq<Seq<char>> {
    match git_workdir {
        Some(w) => w@,
        None => cwd,
    }
}

/// The project directory of `cwd`, given the work tree of the Git
/// repository found around it (if any): the walk of
/// `walk_to_root_or_config` up to that work tree, or up to `cwd` itself
/// where no repository was found.
pub fn discover_project_root<F: Fn(&FsPath) -> bool>(
    cwd: &FsPath,
    git_workdir: Option<FsPath>,
    has_file: F,
) -> (r: FsPath)
    requires
        forall|c: &FsPath| #[trigger] has_file.requires((c,)),
    ensures
        exists|k: nat|
            {
                &&& #[trigger] walked_past(has_file, cwd@, search_root(cwd@, git_workdir), k)
                &&& ({
                    ||| answered(has_file, ancestor(cwd@, k), true) && r@ == ancestor(cwd@, k)
                    ||| answered(has_file, ancestor(cwd@, k), false) && (ancestor(cwd@, k)
                        == search_root(cwd@, git_workdir) || spec_parent(ancestor(cwd@, k)) is None)
                        && r@ == search_root(cwd@, git_workdir)
                })
            },
{
    let root = match git_workdir {
        Some(w) => w,
        None => cwd.copy(),
    };
    let r = walk_to_root_or_config(cwd, &root, has_file);
    proof {
        let k = choose|k: nat|
            {
                &&& walked_past(has_file, cwd@, root@, k)
                &&& ({
                    ||| answered(has_file, ancestor(cwd@, k), true) && r@ == ancestor(cwd@, k)
                    ||| answered(has_file, ancestor(cwd@, k), false) && (ancestor(cwd@, k) == root@
                        || spec_parent(ancestor(cwd@, k)) is None) && r@ == root@
                })
            };
        assert(root@ == search_root(cwd@, git_workdir));
        assert(walked_past(has_file, cwd@, search_root(cwd@, git_workdir), k));
    }
    r
}

/// A value given to a setting.
#[derive(Debug)]
pub enum SettingValue {
    Text(String),
    Flag(bool),
}

/// The mathematical view of a setting's value.
pub enum SettingView {
    Text(Seq<char>),
    Flag(bool),
}

pub open spec fn setting_view(v: SettingValue) -> SettingView {
    match v {
        SettingValue::Text(t) => SettingView::Text(t@),
        SettingValue::Flag(b) => SettingView::Flag(b),
    }
}

/// The views of a list of settings.
pub open spec fn settings_view(v: Seq<(String, SettingValue)>) -> Seq<(Seq<char>, SettingView)> {
    v.map_values(|p: (String, SettingValue)| (p.0@, setting_view(p.1)))
}

/// The switches of a subcommand that change settings.
#[derive(Debug)]
pub enum CommandSwitches {
    Add {
        commit: Option<bool>,
        no_commit: Option<bool>,
        copy: Option<bool>,
        no_copy: Option<bool>,
        rename: Option<bool>,
        no_rename: Option<bool>,
    },
    Process { processor: Option<Processor>, extractor: Option<Extractor> },
    Other,
}

/// What the command line says of the settings.
#[derive(Debug)]
pub struct CliSettings {
    /// Key and value words given to `--config`, in order.
    pub config: Vec<String>,
    /// The project directory, when one was given on the command line.
    pub project: Option<FsPath>,
    /// The log level, when a verbosity switch was given.
    pub verbosity: Option<LogLevel>,
    pub dry_run: Option<bool>,
    pub no_dry_run: Option<bool>,
    pub overwrite: Option<bool>,
    pub no_overwrite: Option<bool>,
    pub switches: CommandSwitches,
}

/// The setting a switch and its negation ask for: on when the switch was
/// set, off when its negation was, else nothing.
pub open spec fn switch_value(yes: Option<bool>, no: Option<bool>) -> Option<bool> {
    if yes == Some(true) {
        Some(true)
    } else if no == Some(false) {
        Some(false)
    } else {
        None
    }
}

/// The setting a switch and its negation ask for.
pub fn deboolify(yes: Option<bool>, no: Option<bool>) -> (r: Option<bool>)
    ensures
        r == switch_value(yes, no),
{
    if yes == Some(true) {
        Some(true)
    } else if no == Some(false) {
        Some(false)
    } else {
        None
    }
}

/// `--config` words taken two at a time as key and value; an odd last word
/// is dropped.
pub open spec fn word_pairs(c: Seq<Seq<char>>) -> Seq<(Seq<char>, SettingView)>
    decreases c.len(),
{
    if c.len() < 2 {
        seq![]
    } else {
        seq![(c[0], SettingView::Text(c[1]))] + word_pairs(c.subrange(2, c.len() as int))
    }
}

/// One flag setting, when asked for.
pub open spec fn flag_setting(key: Seq<char>, v: Option<bool>) -> Seq<(Seq<char>, SettingView)> {
    match v {
        Some(b) => seq![(key, SettingView::Flag(b))],
        None => seq![],
    }
}

/// The settings a subcommand's switches ask for.
pub open spec fn switch_settings(s: CommandSwitches) -> Seq<(Seq<char>, SettingView)> {
    match s {
        CommandSwitches::Add { commit, no_commit, copy, no_copy, rename, no_rename } =>
            flag_setting("filesystem.commit"@, switch_value(commit, no_commit)) + flag_setting(
                "filesystem.copy"@,
                switch_value(copy, no_copy),
            ) + flag_setting("filesystem.rename"@, switch_value(rename, no_rename)),
        CommandSwitches::Process { processor, extractor } => (match processor {
            Some(p) => seq![("processor"@, SettingView::Text(processor_cli_name(p)))],
            None => seq![],
        }) + (match extractor {
            Some(e) => seq![("extractor"@, SettingView::Text(extractor_cli_name(e)))],
            None => seq![],
        }),
        CommandSwitches::Other => seq![],
    }
}

/// The settings the command line overrides, in the order they are applied:
/// `--config` pairs, then the project, verbosity, dry run, overwrite, then
/// the subcommand's switches.
pub open spec fn cli_overrides(a: CliSettings) -> Seq<(Seq<char>, SettingView)> {
    word_pairs(a.config@.map_values(|w: String| w@)) + (match a.project {
        Some(p) => seq![("project"@, SettingView::Text(render(p@)))],
        None => seq![],
    }) + (match a.verbosity {
        Some(l) => seq![("verbosity"@, SettingView::Text(level_name(l)))],
        None => seq![],
    }) + flag_setting("dry-run"@, switch_value(a.dry_run, a.no_dry_run)) + flag_setting(
        "overwrite"@,
        switch_value(a.overwrite, a.no_overwrite),
    ) + switch_settings(a.switches)
}

/// The settings every run starts from.
pub open spec fn base_settings(project: Seq<char>) -> Seq<(Seq<char>, SettingView)> {
    seq![
        ("project"@, SettingView::Text(project)),
        ("verbosity"@, SettingView::Text("warn"@)),
        ("dry-run"@, SettingView::Flag(false)),
        ("overwrite"@, SettingView::Flag(false)),
        ("processor"@, SettingView::Text("manual"@)),
        ("extractor"@, SettingView::Text("manual"@)),
    ]
}

fn push_setting(out: &mut Vec<(String, SettingValue)>, k: &str, v: SettingValue)
    ensures
        settings_view(final(out)@) == settings_view(old(out)@).push((k@, setting_view(v))),
{
    out.push((owned(k), v));
    assert(settings_view(out@) =~= settings_view(old(out)@).push((k@, setting_view(v))));
}

fn push_flag(out: &mut Vec<(String, SettingValue)>, k: &str, v: Option<bool>)
    ensures
        settings_view(final(out)@) == settings_view(old(out)@) + flag_setting(k@, v),
{
    match v {
        Some(b) => {
            push_setting(out, k, SettingValue::Flag(b));
            assert(settings_view(out@) =~= settings_view(old(out)@) + flag_setting(k@, v));
        },
        None => {
            assert(settings_view(out@) =~= settings_view(old(out)@) + flag_setting(k@, v));
        },
    }
}

proof fn lemma_word_pairs_step(c: Seq<Seq<char>>, i: int)
    requires
        0 <= i,
        i + 2 <= c.len(),
        i % 2 == 0,
    ensures
        word_pairs(c.subrange(i, c.len() as int)) == seq![(c[i], SettingView::Text(c[i + 1]))]
            + word_pairs(c.subrange(i + 2, c.len() as int)),
{
    let t = c.subrange(i, c.len() as int);
    assert(t.subrange(2, t.len() as int) =~= c.subrange(i + 2, c.len() as int));
}

/// The settings every run starts from, with the project directory's text.
pub fn base_settings_for(project: &FsPath) -> (r: Vec<(String, SettingValue)>)
    ensures
        settings_view(r@) == base_settings(render(project@)),
{
    let mut out: Vec<(String, SettingValue)> = Vec::new();
    push_setting(&mut out, "project", SettingValue::Text(project.to_text()));
    push_setting(&mut out, "verbosity", SettingValue::Text(owned("warn")));
    push_setting(&mut out, "dry-run", SettingValue::Flag(false));
    push_setting(&mut out, "overwrite", SettingValue::Flag(false));
    push_setting(&mut out, "processor", SettingValue::Text(owned("manual")));
    push_setting(&mut out, "extractor", SettingValue::Text(owned("manual")));
    assert(settings_view(out@) =~= base_settings(render(project@)));
    out
}

impl CliSettings {
    /// The settings the command line overrides (see `cli_overrides`).
    pub fn overrides(&self) -> (r: Vec<(String, SettingValue)>)
        ensures
            settings_view(r@) == cli_overrides(*self),
    {
        let mut out: Vec<(String, SettingValue)> = Vec::new();
        let ghost words = self.config@.map_values(|w: String| w@);
        let n = self.config.len();
        let mut i: usize = 0;
        assert(words.subrange(0, n as int) =~= words);
        while i + 1 < n
            invariant
                n == self.config@.len(),
                words == self.config@.map_values(|w: String| w@),
                i <= n,
                i % 2 == 0,
                settings_view(out@) + word_pairs(words.subrange(i as int, n as int)) == word_pairs(
                    words,
                ),
            decreases n - i,
        {
            proof {
                lemma_word_pairs_step(words, i as int);
            }
            let ghost before = settings_view(out@);
            push_setting(&mut out, self.config[i].as_str(), SettingValue::Text(self.config[i + 1].clone()));
            assert(settings_view(out@) + word_pairs(words.subrange(i + 2, n as int)) =~= before
                + word_pairs(words.subrange(i as int, n as int)));
            i += 2;
        }
        assert(word_pairs(words.subrange(i as int, n as int)) =~= seq![]);
        assert(settings_view(out@) =~= word_pairs(words));
        let ghost pairs_only = settings_view(out@);
        match &self.project {
            Some(p) => push_setting(&mut out, "project", SettingValue::Text(p.to_text())),
            None => {},
        }
        let ghost after_pairs = settings_view(out@);
        assert(after_pairs =~= pairs_only + (match self.project {
            Some(p) => seq![("project"@, SettingView::Text(render(p@)))],
            None => seq![],
        }));
        match self.verbosity {
            Some(l) => push_setting(&mut out, "verbosity", SettingValue::Text(owned(l.name()))),
            None => {},
        }
        let ghost after_verbosity = settings_view(out@);
        assert(after_verbosity =~= after_pairs + (match self.verbosity {
            Some(l) => seq![("verbosity"@, SettingView::Text(level_name(l)))],
            None => seq![],
        }));
        push_flag(&mut out, "dry-run", deboolify(self.dry_run, self.no_dry_run));
        push_flag(&mut out, "overwrite", deboolify(self.overwrite, self.no_overwrite));
        let ghost after_flags = settings_view(out@);
        match &self.switches {
            CommandSwitches::Add { commit, no_commit, copy, no_copy, rename, no_rename } => {
                push_flag(&mut out, "filesystem.commit", deboolify(*commit, *no_commit));
                push_flag(&mut out, "filesystem.copy", deboolify(*copy, *no_copy));
                push_flag(&mut out, "filesystem.rename", deboolify(*rename, *no_rename));
            },
            CommandSwitches::Process { processor, extractor } => {
                match processor {
                    Some(p) => push_setting(&mut out, "processor", SettingValue::Text(owned(p.cli_name()))),
                    None => {},
                }
                match extractor {
                    Some(e) => push_setting(&mut out, "extractor", SettingValue::Text(owned(e.cli_name()))),
                    None => {},
                }
            },
            CommandSwitches::Other => {},
        }
        assert(settings_view(out@) =~= after_flags + switch_settings(self.switches));
        assert(settings_view(out@) =~= cli_overrides(*self));
        out
    }
}

/// The value the last setting of `k` in `s` gives it, if any.
pub open spec fn last_setting(s: Seq<(Seq<char>, SettingView)>, k: Seq<char>) -> Option<SettingView>
    decreases s.len(),
{
    if s.len() == 0 {
        None
    } else if s.last().0 == k {
        Some(s.last().1)
    } else {
        last_setting(s.drop_last(), k)
    }
}

/// No key is set twice.
pub open spec fn distinct_settings(s: Seq<(Seq<char>, SettingView)>) -> bool {
    forall|i: int, j: int| 0 <= i < j < s.len() ==> #[trigger] s[i].0 != #[trigger] s[j].0
}

/// In a list that sets no key twice, the value of a key is that of its one
/// entry, and there is none where no entry has it.
proof fn lemma_last_distinct(s: Seq<(Seq<char>, SettingView)>, k: Seq<char>)
    requires
        distinct_settings(s),
    ensures
        forall|j: int| 0 <= j < s.len() && #[trigger] s[j].0 == k ==> last_setting(s, k) == Some(
            s[j].1,
        ),
        (forall|j: int| 0 <= j < s.len() ==> #[trigger] s[j].0 != k) ==> last_setting(s, k) is None,
    decreases s.len(),
{
    if s.len() > 0 {
        let t = s.drop_last();
        assert(distinct_settings(t)) by {
            assert forall|i: int, j: int| 0 <= i < j < t.len() implies #[trigger] t[i].0
                != #[trigger] t[j].0 by {
                assert(t[i] == s[i] && t[j] == s[j]);
            }
        }
        lemma_last_distinct(t, k);
        assert forall|j: int| 0 <= j < s.len() && #[trigger] s[j].0 == k implies last_setting(
            s,
            k,
        ) == Some(s[j].1) by {
            if j < s.len() - 1 {
                assert(s[j] == t[j]);
                assert(s[j].0 != s[s.len() - 1].0);
            }
        }
        if forall|j: int| 0 <= j < s.len() ==> #[trigger] s[j].0 != k {
            assert(s[s.len() - 1].0 != k);
            assert forall|j: int| 0 <= j < t.len() implies #[trigger] t[j].0 != k by {
                assert(t[j] == s[j]);
            }
        }
    }
}

/// The value of a key after two lists: the second list's, else the first's.
pub proof fn lemma_last_setting_concat(
    a: Seq<(Seq<char>, SettingView)>,
    b: Seq<(Seq<char>, SettingView)>,
    k: Seq<char>,
)
    ensures
        last_setting(a + b, k) == match last_setting(b, k) {
            Some(v) => Some(v),
            None => last_setting(a, k),
        },
    decreases b.len(),
{
    if b.len() == 0 {
        assert(a + b =~= a);
    } else {
        assert((a + b).drop_last() =~= a + b.drop_last());
        assert((a + b).last() == b.last());
        lemma_last_setting_concat(a, b.drop_last(), k);
    }
}

/// Two keys that begin with different characters.
proof fn lemma_keys_differ(a: Seq<char>, b: Seq<char>)
    requires
        a.len() > 0 && b.len() > 0 && a[0] != b[0] || a.len() != b.len(),
    ensures
        a != b,
{
}

impl CliSettings {
    /// The overrides with each key set once, to the value of its last
    /// setting (see `cli_overrides`): the last `--config` pair for a key
    /// wins over earlier ones, and a flag wins over the pairs.
    pub fn settled_overrides(&self) -> (r: Vec<(String, SettingValue)>)
        ensures
            distinct_settings(settings_view(r@)),
            forall|k: Seq<char>| #[trigger] last_setting(settings_view(r@), k) == last_setting(
                cli_overrides(*self),
                k,
            ),
    {
        let mut all = self.overrides();
        let ghost sv = settings_view(all@);
        let mut out: Vec<(String, SettingValue)> = Vec::new();
        let n = all.len();
        let mut i: usize = 0;
        assert(sv.take(0) =~= Seq::<(Seq<char>, SettingView)>::empty());
        assert(settings_view(out@) =~= Seq::<(Seq<char>, SettingView)>::empty());
        assert(settings_view(all@) =~= sv.subrange(0, n as int));
        while i < n
            invariant
                n == sv.len(),
                i <= n,
                sv == cli_overrides(*self),
                all@.len() == n - i,
                settings_view(all@) == sv.subrange(i as int, n as int),
                distinct_settings(settings_view(out@)),
                forall|k: Seq<char>| #[trigger] last_setting(settings_view(out@), k) == last_setting(
                    sv.take(i as int),
                    k,
                ),
            decreases n - i,
        {
            let ghost rest = all@;
            let (key, value) = all.remove(0);
            proof {
                assert(settings_view(rest)[0] == sv.subrange(i as int, n as int)[0]);
                assert(settings_view(all@) =~= sv.subrange(i + 1, n as int)) by {
                    assert(all@ =~= rest.subrange(1, rest.len() as int));
                    assert forall|t: int| 0 <= t < all@.len() implies #[trigger] settings_view(all@)[t]
                        == sv.subrange(i + 1, n as int)[t] by {
                        assert(all@[t] == rest[t + 1]);
                        assert(settings_view(rest)[t + 1] == sv.subrange(i as int, n as int)[t + 1]);
                    }
                }
            }
            let ghost entry = (key@, setting_view(value));
            assert(entry == sv[i as int]);
            assert(sv.take(i + 1) =~= sv.take(i as int).push(entry));
            assert(sv.take(i + 1).drop_last() =~= sv.take(i as int));
            assert(sv.take(i + 1).last() == entry);
            let ghost before = settings_view(out@);
            let m = out.len();
            let mut j: usize = 0;
            while j < m
                invariant
                    m == out@.len(),
                    j <= m,
                    forall|t: int| 0 <= t < j ==> (#[trigger] out@[t]).0@ != key@,
                ensures
                    j <= m,
                    forall|t: int| 0 <= t < j ==> (#[trigger] out@[t]).0@ != key@,
                    j < m ==> out@[j as int].0@ == key@,
                decreases m - j,
            {
                if str_eq(out[j].0.as_str(), key.as_str()) {
                    break;
                }
                j += 1;
            }
            proof {
                lemma_last_distinct(before, key@);
            }
            if j < m {
                out.set(j, (key, value));
                proof {
                    let after = settings_view(out@);
                    assert(after =~= before.update(j as int, entry));
                    assert(distinct_settings(after)) by {
                        assert forall|x: int, y: int| 0 <= x < y < after.len() implies #[trigger] after[x].0
                            != #[trigger] after[y].0 by {
                            assert(before[x].0 != before[y].0);
                            assert(after[x].0 == before[x].0);
                            assert(after[y].0 == before[y].0);
                        }
                    }
                    assert forall|k: Seq<char>| #[trigger] last_setting(after, k) == last_setting(
                        sv.take(i + 1),
                        k,
                    ) by {
                        lemma_last_distinct(after, k);
                        lemma_last_distinct(before, k);
                        assert(last_setting(sv.take(i + 1), k) == (if entry.0 == k {
                            Some(entry.1)
                        } else {
                            last_setting(sv.take(i as int), k)
                        }));
                        if k == entry.0 {
                            assert(after[j as int].0 == k);
                        } else {
                            if exists|t: int| 0 <= t < before.len() && #[trigger] before[t].0 == k {
                                let t = choose|t: int| 0 <= t < before.len() && #[trigger] before[t].0 == k;
                                assert(t != j);
                                assert(after[t] == before[t]);
                            } else {
                                assert forall|t: int| 0 <= t < after.len() implies #[trigger] after[t].0
                                    != k by {
                                    if t != j {
                                        assert(after[t] == before[t]);
                                    }
                                }
                            }
                        }
                    }
                }
            } else {
                out.push((key, value));
                proof {
                    let after = settings_view(out@);
                    assert(after =~= before.push(entry));
                    assert forall|t: int| 0 <= t < before.len() implies #[trigger] before[t].0 != entry.0 by {
                        assert(out@[t].0@ == before[t].0);
                    }
                    assert(distinct_settings(after)) by {
                        assert forall|x: int, y: int| 0 <= x < y < after.len() implies #[trigger] after[x].0
                            != #[trigger] after[y].0 by {
                            if y < before.len() {
                                assert(before[x].0 != before[y].0);
                            } else {
                                assert(before[x].0 != entry.0);
                            }
                        }
                    }
                    assert forall|k: Seq<char>| #[trigger] last_setting(after, k) == last_setting(
                        sv.take(i + 1),
                        k,
                    ) by {
                        assert(after.drop_last() =~= before);
                        assert(after.last() == entry);
                        assert(last_setting(before, k) == last_setting(sv.take(i as int), k));
                        assert(last_setting(after, k) == (if entry.0 == k {
                            Some(entry.1)
                        } else {
                            last_setting(before, k)
                        }));
                        assert(last_setting(sv.take(i + 1), k) == (if entry.0 == k {
                            Some(entry.1)
                        } else {
                            last_setting(sv.take(i as int), k)
                        }));
                    }
                }
            }
            i += 1;
        }
        assert(sv.take(n as int) =~= sv);
        out
    }
}

/// A flag given on the command line wins over every `--config` pair for
/// its key, and a key no flag sets keeps the value of its last `--config`
/// pair (an odd last word sets nothing).
pub proof fn law_flags_beat_config_pairs(a: CliSettings, k: Seq<char>)
    ensures
        a.project matches Some(p) ==> last_setting(cli_overrides(a), "project"@) == Some(
            SettingView::Text(render(p@)),
        ),
        switch_value(a.dry_run, a.no_dry_run) matches Some(b) ==> last_setting(
            cli_overrides(a),
            "dry-run"@,
        ) == Some(SettingView::Flag(b)),
        switch_value(a.overwrite, a.no_overwrite) matches Some(b) ==> last_setting(
            cli_overrides(a),
            "overwrite"@,
        ) == Some(SettingView::Flag(b)),
        a.verbosity matches Some(l) ==> last_setting(cli_overrides(a), "verbosity"@) == Some(
            SettingView::Text(level_name(l)),
        ),
        !flag_key(k) ==> last_setting(cli_overrides(a), k) == last_setting(
            word_pairs(a.config@.map_values(|w: String| w@)),
            k,
        ),
{
    reveal_strlit("project");
    reveal_strlit("verbosity");
    reveal_strlit("dry-run");
    reveal_strlit("overwrite");
    reveal_strlit("filesystem.commit");
    reveal_strlit("filesystem.copy");
    reveal_strlit("filesystem.rename");
    reveal_strlit("processor");
    reveal_strlit("extractor");
    let w = word_pairs(a.config@.map_values(|w: String| w@));
    let pj: Seq<(Seq<char>, SettingView)> = match a.project {
        Some(p) => seq![("project"@, SettingView::Text(render(p@)))],
        None => seq![],
    };
    let vb: Seq<(Seq<char>, SettingView)> = match a.verbosity {
        Some(l) => seq![("verbosity"@, SettingView::Text(level_name(l)))],
        None => seq![],
    };
    let dr = flag_setting("dry-run"@, switch_value(a.dry_run, a.no_dry_run));
    let ow = flag_setting("overwrite"@, switch_value(a.overwrite, a.no_overwrite));
    let sw = switch_settings(a.switches);
    assert(cli_overrides(a) == w + pj + vb + dr + ow + sw);
    lemma_switch_keys(a.switches);
    let p_k = "project"@;
    let v_k = "verbosity"@;
    let d_k = "dry-run"@;
    let o_k = "overwrite"@;
    let ks = seq![k, p_k, v_k, d_k, o_k];
    assert forall|x: int| 0 <= x < ks.len() implies {
        let q = #[trigger] ks[x];
        last_setting(cli_overrides(a), q) == match last_setting(sw, q) {
            Some(v) => Some(v),
            None => match last_setting(ow, q) {
                Some(v) => Some(v),
                None => match last_setting(dr, q) {
                    Some(v) => Some(v),
                    None => match last_setting(vb, q) {
                        Some(v) => Some(v),
                        None => match last_setting(pj, q) {
                            Some(v) => Some(v),
                            None => last_setting(w, q),
                        },
                    },
                },
            },
        }
    } by {
        let q = ks[x];
        lemma_last_setting_concat(w + pj + vb + dr + ow, sw, q);
        lemma_last_setting_concat(w + pj + vb + dr, ow, q);
        lemma_last_setting_concat(w + pj + vb, dr, q);
        lemma_last_setting_concat(w + pj, vb, q);
        lemma_last_setting_concat(w, pj, q);
    }
    assert(ks[0] == k && ks[1] == p_k && ks[2] == v_k && ks[3] == d_k && ks[4] == o_k);
    lemma_flag_keys_differ();
    assert forall|x: int| 1 <= x < ks.len() implies last_setting(sw, #[trigger] ks[x]) is None by {
        assert(!switch_key(ks[x]));
        lemma_no_key(sw, ks[x]);
    }
    if !flag_key(k) {
        assert(!switch_key(k));
        lemma_no_key(sw, k);
    }
    lemma_small(ow, k);
    lemma_small(dr, k);
    lemma_small(vb, k);
    lemma_small(pj, k);
    lemma_small(ow, p_k);
    lemma_small(dr, p_k);
    lemma_small(vb, p_k);
    lemma_small(pj, p_k);
    lemma_small(ow, v_k);
    lemma_small(dr, v_k);
    lemma_small(vb, v_k);
    lemma_small(ow, d_k);
    lemma_small(dr, d_k);
    lemma_small(ow, o_k);
}

/// The keys of the global flags are no switch keys, and differ from each
/// other.
proof fn lemma_flag_keys_differ()
    ensures
        !switch_key("project"@),
        !switch_key("verbosity"@),
        !switch_key("dry-run"@),
        !switch_key("overwrite"@),
        "project"@ != "verbosity"@,
        "project"@ != "dry-run"@,
        "project"@ != "overwrite"@,
        "verbosity"@ != "dry-run"@,
        "verbosity"@ != "overwrite"@,
        "dry-run"@ != "overwrite"@,
{
    reveal_strlit("project");
    reveal_strlit("verbosity");
    reveal_strlit("dry-run");
    reveal_strlit("overwrite");
    reveal_strlit("filesystem.commit");
    reveal_strlit("filesystem.copy");
    reveal_strlit("filesystem.rename");
    reveal_strlit("processor");
    reveal_strlit("extractor");
    let ks = seq!["project"@, "verbosity"@, "dry-run"@, "overwrite"@];
    let ss = seq!["filesystem.commit"@, "filesystem.copy"@, "filesystem.rename"@, "processor"@, "extractor"@];
    assert forall|a: int, b: int| 0 <= a < 4 && 0 <= b < 5 implies #[trigger] ks[a] != #[trigger] ss[b] by {
        assert(ks[a][0] != ss[b][0] || ks[a].len() != ss[b].len());
    }
    assert(ks[0] == "project"@ && ks[1] == "verbosity"@ && ks[2] == "dry-run"@ && ks[3] == "overwrite"@);
    assert(ss[0] == "filesystem.commit"@ && ss[1] == "filesystem.copy"@ && ss[2] == "filesystem.rename"@);
    assert(ss[3] == "processor"@ && ss[4] == "extractor"@);
    assert(ks[0] != ss[0] && ks[0] != ss[1] && ks[0] != ss[2] && ks[0] != ss[3] && ks[0] != ss[4]);
    assert(ks[1] != ss[0] && ks[1] != ss[1] && ks[1] != ss[2] && ks[1] != ss[3] && ks[1] != ss[4]);
    assert(ks[2] != ss[0] && ks[2] != ss[1] && ks[2] != ss[2] && ks[2] != ss[3] && ks[2] != ss[4]);
    assert(ks[3] != ss[0] && ks[3] != ss[1] && ks[3] != ss[2] && ks[3] != ss[3] && ks[3] != ss[4]);
    assert("project"@[0] != "verbosity"@[0]);
    assert("project"@[0] != "dry-run"@[0]);
    assert("project"@[0] != "overwrite"@[0]);
    assert("verbosity"@[0] != "dry-run"@[0]);
    assert("verbosity"@[0] != "overwrite"@[0]);
    assert("dry-run"@[0] != "overwrite"@[0]);
}

/// A list of at most one entry.
proof fn lemma_small(s: Seq<(Seq<char>, SettingView)>, k: Seq<char>)
    requires
        s.len() <= 1,
    ensures
        last_setting(s, k) == (if s.len() == 1 && s[0].0 == k {
            Some(s[0].1)
        } else {
            None
        }),
{
    if s.len() == 1 {
        assert(s.drop_last().len() == 0);
        assert(s.last() == s[0]);
        assert(last_setting(s.drop_last(), k) is None);
    }
}

/// The keys the command line's flags and switches set.
pub open spec fn flag_key(k: Seq<char>) -> bool {
    ||| k == "project"@
    ||| k == "verbosity"@
    ||| k == "dry-run"@
    ||| k == "overwrite"@
    ||| k == "filesystem.commit"@
    ||| k == "filesystem.copy"@
    ||| k == "filesystem.rename"@
    ||| k == "processor"@
    ||| k == "extractor"@
}

/// The keys a subcommand's switches set.
pub open spec fn switch_key(k: Seq<char>) -> bool {
    ||| k == "filesystem.commit"@
    ||| k == "filesystem.copy"@
    ||| k == "filesystem.rename"@
    ||| k == "processor"@
    ||| k == "extractor"@
}

proof fn lemma_switch_keys(s: CommandSwitches)
    ensures
        forall|j: int| 0 <= j < switch_settings(s).len() ==> switch_key(
            #[trigger] switch_settings(s)[j].0,
        ),
{
    match s {
        CommandSwitches::Add { commit, no_commit, copy, no_copy, rename, no_rename } => {
            let a = flag_setting("filesystem.commit"@, switch_value(commit, no_commit));
            let b = flag_setting("filesystem.copy"@, switch_value(copy, no_copy));
            let c = flag_setting("filesystem.rename"@, switch_value(rename, no_rename));
            assert(switch_settings(s) == a + b + c);
            assert forall|j: int| 0 <= j < (a + b + c).len() implies switch_key(
                #[trigger] (a + b + c)[j].0,
            ) by {
                if j < a.len() {
                    assert((a + b + c)[j] == a[j]);
                } else if j < a.len() + b.len() {
                    assert((a + b + c)[j] == b[j - a.len()]);
                } else {
                    assert((a + b + c)[j] == c[j - a.len() - b.len()]);
                }
            }
        },
        CommandSwitches::Process { processor, extractor } => {
            let a: Seq<(Seq<char>, SettingView)> = match processor {
                Some(p) => seq![("processor"@, SettingView::Text(processor_cli_name(p)))],
                None => seq![],
            };
            let b: Seq<(Seq<char>, SettingView)> = match extractor {
                Some(e) => seq![("extractor"@, SettingView::Text(extractor_cli_name(e)))],
                None => seq![],
            };
            assert(switch_settings(s) == a + b);
            assert forall|j: int| 0 <= j < (a + b).len() implies switch_key(#[trigger] (a + b)[j].0) by {
                if j < a.len() {
                    assert((a + b)[j] == a[j]);
                } else {
                    assert((a + b)[j] == b[j - a.len()]);
                }
            }
        },
        CommandSwitches::Other => {},
    }
}

/// A list whose entries all have other keys gives a key no value.
proof fn lemma_no_key(s: Seq<(Seq<char>, SettingView)>, k: Seq<char>)
    requires
        forall|j: int| 0 <= j < s.len() ==> switch_key(#[trigger] s[j].0),
        !switch_key(k),
    ensures
        last_setting(s, k) is None,
    decreases s.len(),
{
    if s.len() > 0 {
        assert(switch_key(s[s.len() - 1].0));
        assert forall|j: int| 0 <= j < s.drop_last().len() implies switch_key(
            #[trigger] s.drop_last()[j].0,
        ) by {
            assert(s.drop_last()[j] == s[j]);
        }
        lemma_no_key(s.drop_last(), k);
    }
}

/// A path given on the command line, else one given in the environment
/// when it is not empty.
pub fn choose_path(arg: Option<&FsPath>, env: Option<&str>) -> (r: Option<FsPath>)
    ensures
        match arg {
            Some(p) => r matches Some(q) && q@ == p@,
            None => match env {
                Some(e) => if e@.len() > 0 {
                    r matches Some(q) && q@ == parse_comps(e@)
                } else {
                    r is None
                },
                None => r is None,
            },
        },
{
    match arg {
        Some(p) => Some(p.copy()),
        None => match env {
            Some(e) => if e.unicode_len() > 0 {
                Some(FsPath::parse(e))
            } else {
                None
            },
            None => None,
        },
    }
}

/// The configuration file named on the command line, else in the
/// environment when that is not empty; a relative path is taken from the
/// project directory.
pub fn config_file_path(arg: Option<&FsPath>, env: Option<&str>, project: &FsPath) -> (r: Option<
    FsPath,
>)
    ensures
        match arg {
            Some(p) => r matches Some(q) && q@ == spec_join(project@, p@),
            None => match env {
                Some(e) => if e@.len() > 0 {
                    r matches Some(q) && q@ == spec_join(project@, parse_comps(e@))
                } else {
                    r is None
                },
                None => r is None,
            },
        },
{
    match choose_path(arg, env) {
        Some(p) => Some(project.join(&p)),
        None => None,
    }
}


/// Names read back: every driver, processor, extractor and log level is the
/// only one with its configuration name, and a log level's name is already
/// lowercase, so reading a written name gives the value that was written.
pub proof fn law_names_read_back(
    d: StorageDriver,
    e: StorageDriver,
    p: Processor,
    q: Processor,
    x: Extractor,
    y: Extractor,
    l: LogLevel,
    m: LogLevel,
)
    ensures
        storage_driver_name(d) == storage_driver_name(e) ==> d == e,
        processor_name(p) == processor_name(q) ==> p == q,
        extractor_name(x) == extractor_name(y) ==> x == y,
        level_name(l) == level_name(m) ==> l == m,
        ascii_lower(level_name(l)) == level_name(l),
{
    reveal_strlit("filesystem");
    reveal_strlit("git-annex");
    reveal_strlit("manual");
    reveal_strlit("o-c-r");
    reveal_strlit("vision");
    reveal_strlit("l-l-m");
    reveal_strlit("regex");
    reveal_strlit("off");
    reveal_strlit("error");
    reveal_strlit("warn");
    reveal_strlit("info");
    reveal_strlit("debug");
    reveal_strlit("trace");
    let n = level_name(l);
    assert(ascii_lower(n) =~= n) by {
        assert forall|i: int| 0 <= i < n.len() implies ascii_lower_char(#[trigger] n[i]) == n[i] by {
            assert(!('A' <= n[i] && n[i] <= 'Z'));
        }
    }
    if storage_driver_name(d) == storage_driver_name(e) && d != e {
        assert(storage_driver_name(d).len() != storage_driver_name(e).len());
    }
    if processor_name(p) == processor_name(q) && p != q {
        assert(processor_name(p)[0] != processor_name(q)[0]);
    }
    if extractor_name(x) == extractor_name(y) && x != y {
        assert(extractor_name(x)[0] != extractor_name(y)[0]);
    }
    if level_name(l) == level_name(m) && l != m {
        assert(level_name(l)[0] != level_name(m)[0] || level_name(l).len() != level_name(m).len());
    }
}

/// A processor or extractor chosen on the command line is read back from
/// the configuration as the same one, for those whose command-line name is
/// their configuration name (all but OCR and the language model).
pub proof fn law_cli_choice_read_back(p: Processor, x: Extractor)
    requires
        p != Processor::OCR,
        x != Extractor::LLM,
    ensures
        processor_name(p) == processor_cli_name(p),
        extractor_name(x) == extractor_cli_name(x),
{
}

} // verus!
