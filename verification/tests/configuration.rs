use acceptarium::config::{
    base_settings_for, choose_path, config_path_in, deboolify, default_directory, default_glob,
    default_llm_model, default_verbosity, default_vision_model, flatten_json_value, info_extension,
    walk_to_root_or_config, discover_project_root, CliSettings, CommandSwitches, Config, Extractor, FilesystemConfig,
    GitConfig, InfoFormat, LedgerFormat, LogLevel, Processor, SettingValue, StorageDriver,
    VisionConfig,
};
use acceptarium::config::{config_file_path, BlobHandler, InfoHandler, VersionHandler};
use acceptarium::error::Error;
use acceptarium::settings::{SettledSettings, SidecarSettings};
use acceptarium::json::JsonValue;
use acceptarium::paths::FsPath;

fn sample_config() -> Config {
    Config {
        project: FsPath::parse("/p"),
        verbosity: LogLevel::Warn,
        dry_run: true,
        dirty: false,
        overwrite: false,
        config_file: None,
        processor: Processor::OCR,
        extractor: Extractor::LLM,
        storage: Some(StorageDriver::GitAnnex),
        blob_storage: None,
        info_storage: None,
        tracker: None,
        filesystem: Some(FilesystemConfig {
            directory: FsPath::parse("./acceptarium"),
            glob: "*.toml".to_string(),
            commit: false,
            copy: true,
            rename: false,
            track: false,
        }),
        git_annex: None,
        sidecar: None,
        git: Some(GitConfig { stage: true, commit: false }),
        vision: Some(VisionConfig { model: "qwen3.5:9b".to_string() }),
        llm: None,
    }
}

#[test]
fn defaults() {
    assert_eq!(default_directory().to_text(), "./acceptarium");
    assert_eq!(default_glob(), "*.toml");
    assert_eq!(default_verbosity(), LogLevel::Warn);
    assert_eq!(default_vision_model(), "qwen3.5:9b");
    assert_eq!(default_llm_model(), "qwen3.5:9b");
    assert_eq!(StorageDriver::default(), StorageDriver::Filesystem);
    assert_eq!(Processor::default(), Processor::Manual);
    assert_eq!(Extractor::default(), Extractor::Manual);
    assert_eq!(LedgerFormat::default(), LedgerFormat::HLedger);
}

#[test]
fn names_in_config_and_on_command_line() {
    assert_eq!(StorageDriver::GitAnnex.name(), "git-annex");
    assert_eq!(StorageDriver::from_name("filesystem"), Some(StorageDriver::Filesystem));
    assert_eq!(StorageDriver::from_name("Filesystem"), None);
    assert_eq!(Processor::OCR.name(), "o-c-r");
    assert_eq!(Processor::OCR.cli_name(), "ocr");
    assert_eq!(Processor::from_name("vision"), Some(Processor::Vision));
    assert_eq!(Extractor::LLM.name(), "l-l-m");
    assert_eq!(Extractor::LLM.cli_name(), "llm");
    assert_eq!(Extractor::from_name("regex"), Some(Extractor::Regex));
    assert_eq!(LedgerFormat::LedgerCli.name(), "ledger-cli");
    assert_eq!(LedgerFormat::BeanCount.name(), "beancount");
    assert_eq!(info_extension(InfoFormat::HJSON), "hjson");
}

#[test]
fn log_level_parse_ignores_case() {
    assert_eq!(LogLevel::parse("DeBuG").unwrap(), LogLevel::Debug);
    assert_eq!(LogLevel::parse("off").unwrap(), LogLevel::Off);
    assert_eq!(LogLevel::parse("WARN").unwrap(), LogLevel::Warn);
    match LogLevel::parse("loud") {
        Err(Error::Config { message }) => assert_eq!(
            message,
            "unknown variant `loud`, expected one of `error`, `warn`, `info`, `debug`, `trace`, `off`"
        ),
        other => panic!("unexpected {:?}", other),
    }
}

#[test]
fn switch_pairs() {
    assert_eq!(deboolify(Some(true), Some(true)), Some(true));
    assert_eq!(deboolify(Some(false), Some(false)), Some(false));
    assert_eq!(deboolify(Some(false), Some(true)), None);
    assert_eq!(deboolify(None, None), None);
}

#[test]
fn command_line_overrides_in_order() {
    let a = CliSettings {
        config: vec!["a.b".to_string(), "1".to_string(), "c".to_string(), "2".to_string(), "dangling".to_string()],
        project: None,
        verbosity: Some(LogLevel::Debug),
        dry_run: Some(true),
        no_dry_run: Some(true),
        overwrite: Some(false),
        no_overwrite: Some(true),
        switches: CommandSwitches::Process { processor: Some(Processor::OCR), extractor: None },
    };
    let got: Vec<(String, String)> = a
        .overrides()
        .into_iter()
        .map(|(k, v)| {
            let v = match v {
                SettingValue::Text(t) => t,
                SettingValue::Flag(b) => format!("flag:{}", b),
            };
            (k, v)
        })
        .collect();
    let want: Vec<(String, String)> = vec![
        ("a.b", "1"),
        ("c", "2"),
        ("verbosity", "debug"),
        ("dry-run", "flag:true"),
        ("processor", "ocr"),
    ]
    .into_iter()
    .map(|(k, v)| (k.to_string(), v.to_string()))
    .collect();
    assert_eq!(got, want);
}

#[test]
fn add_switches_become_filesystem_settings() {
    let a = CliSettings {
        config: vec![],
        project: None,
        verbosity: None,
        dry_run: None,
        no_dry_run: None,
        overwrite: None,
        no_overwrite: None,
        switches: CommandSwitches::Add {
            commit: None,
            no_commit: Some(false),
            copy: Some(true),
            no_copy: None,
            rename: None,
            no_rename: None,
        },
    };
    let keys: Vec<String> = a.overrides().into_iter().map(|(k, _)| k).collect();
    assert_eq!(keys, vec!["filesystem.commit", "filesystem.copy"]);
}

#[test]
fn base_settings_name_the_project() {
    let s = base_settings_for(&FsPath::parse("/home/p"));
    assert_eq!(s.len(), 6);
    assert_eq!(s[0].0, "project");
    assert!(matches!(&s[0].1, SettingValue::Text(t) if t == "/home/p"));
    assert!(matches!(&s[2].1, SettingValue::Flag(false)));
}

#[test]
fn choose_path_prefers_argument_then_nonempty_env() {
    let arg = FsPath::parse("/a");
    assert_eq!(choose_path(Some(&arg), Some("/b")).unwrap().to_text(), "/a");
    assert_eq!(choose_path(None, Some("/b")).unwrap().to_text(), "/b");
    assert!(choose_path(None, Some("")).is_none());
    assert!(choose_path(None, None).is_none());
}

#[test]
fn walk_finds_nearest_config() {
    let cwd = FsPath::parse("/home/me/proj/sub/dir");
    let root = FsPath::parse("/home/me");
    let found = walk_to_root_or_config(&cwd, &root, |p: &FsPath| {
        p.to_text() == "/home/me/proj/acceptarium.toml"
    });
    assert_eq!(found.to_text(), "/home/me/proj");
    let none = walk_to_root_or_config(&cwd, &root, |_p: &FsPath| false);
    assert_eq!(none.to_text(), "/home/me");
    assert_eq!(config_path_in(&root).to_text(), "/home/me/acceptarium.toml");
}

#[test]
fn discovery_stops_at_the_work_tree() {
    let cwd = FsPath::parse("/home/me/proj/sub");
    let in_repo = discover_project_root(&cwd, Some(FsPath::parse("/home/me/proj")), |_p: &FsPath| false);
    assert_eq!(in_repo.to_text(), "/home/me/proj");
    let no_repo = discover_project_root(&cwd, None, |_p: &FsPath| false);
    assert_eq!(no_repo.to_text(), "/home/me/proj/sub");
    let found = discover_project_root(&cwd, None, |p: &FsPath| p.to_text() == "/home/me/proj/sub/acceptarium.toml");
    assert_eq!(found.to_text(), "/home/me/proj/sub");
    let above = discover_project_root(&cwd, Some(FsPath::parse("/")), |p: &FsPath| {
        p.to_text() == "/home/acceptarium.toml"
    });
    assert_eq!(above.to_text(), "/home");
}

#[test]
fn env_vars_from_config() {
    let c = sample_config();
    let envs = c.try_to_env_vars().unwrap();
    let get = |k: &str| envs.iter().find(|(n, _)| n == k).map(|(_, v)| v.clone());
    assert_eq!(get("ACCEPTARIUM_DRYRUN").as_deref(), Some("true"));
    assert_eq!(get("ACCEPTARIUM_PROJECT").as_deref(), Some("/p"));
    assert_eq!(get("ACCEPTARIUM_PROCESSOR").as_deref(), Some("o-c-r"));
    assert_eq!(get("ACCEPTARIUM_STORAGE").as_deref(), Some("git-annex"));
    assert_eq!(get("ACCEPTARIUM_VERBOSITY").as_deref(), Some("WARN"));
    assert_eq!(get("ACCEPTARIUM_FILESYSTEM_DIRECTORY").as_deref(), Some("./acceptarium"));
    assert_eq!(get("ACCEPTARIUM_GIT_STAGE").as_deref(), Some("true"));
    assert_eq!(get("ACCEPTARIUM_VISION_MODEL").as_deref(), Some("qwen3.5:9b"));
    assert!(get("ACCEPTARIUM_CONFIGFILE").is_none());
    assert!(get("ACCEPTARIUM_LLM").is_none());
    let names: Vec<&String> = envs.iter().map(|(n, _)| n).collect();
    let mut sorted = names.clone();
    sorted.sort();
    assert_eq!(names, sorted);
}

#[test]
fn flatten_skips_null_and_empty() {
    let v = JsonValue::Object(vec![
        ("nested_key".to_string(), JsonValue::Object(vec![
            ("inner".to_string(), JsonValue::Number("3".to_string())),
            ("gone".to_string(), JsonValue::Null),
            ("empty".to_string(), JsonValue::String(String::new())),
            ("nul".to_string(), JsonValue::String("null".to_string())),
        ])),
        ("list".to_string(), JsonValue::Array(vec![JsonValue::Bool(false)])),
    ]);
    let mut envs = Vec::new();
    flatten_json_value(&v, "P", &mut envs);
    assert_eq!(
        envs,
        vec![
            ("P_NESTEDKEY_INNER".to_string(), "3".to_string()),
            ("P_LIST".to_string(), "[false]".to_string()),
        ]
    );
}

#[test]
fn config_json_has_sorted_keys() {
    let c = sample_config();
    match c.to_json_value() {
        JsonValue::Object(o) => {
            let keys: Vec<&str> = o.iter().map(|(k, _)| k.as_str()).collect();
            let mut sorted = keys.clone();
            sorted.sort();
            assert_eq!(keys, sorted);
            assert_eq!(keys.len(), 18);
        }
        other => panic!("unexpected {:?}", other),
    }
}

fn texts(v: Vec<(String, SettingValue)>) -> Vec<(String, String)> {
    v.into_iter()
        .map(|(k, v)| {
            let v = match v {
                SettingValue::Text(t) => t,
                SettingValue::Flag(b) => format!("flag:{}", b),
            };
            (k, v)
        })
        .collect()
}

#[test]
fn last_config_pair_wins_and_flags_win_over_pairs() {
    let words = ["c", "1", "dry-run", "false", "c", "2", "project", "/elsewhere", "tail"];
    let a = CliSettings {
        config: words.iter().map(|w| w.to_string()).collect(),
        project: Some(FsPath::parse("/home/p")),
        verbosity: None,
        dry_run: Some(true),
        no_dry_run: None,
        overwrite: None,
        no_overwrite: None,
        switches: CommandSwitches::Other,
    };
    let got = texts(a.settled_overrides());
    let want: Vec<(String, String)> = vec![("c", "2"), ("dry-run", "flag:true"), ("project", "/home/p")]
        .into_iter()
        .map(|(k, v)| (k.to_string(), v.to_string()))
        .collect();
    assert_eq!(got, want);
}

#[test]
fn config_file_is_taken_from_the_project() {
    let project = FsPath::parse("/home/p");
    let rel = FsPath::parse("conf/a.toml");
    assert_eq!(config_file_path(Some(&rel), None, &project).unwrap().to_text(), "/home/p/conf/a.toml");
    let abs = FsPath::parse("/etc/a.toml");
    assert_eq!(config_file_path(Some(&abs), Some("x.toml"), &project).unwrap().to_text(), "/etc/a.toml");
    assert_eq!(config_file_path(None, Some("x.toml"), &project).unwrap().to_text(), "/home/p/x.toml");
    assert!(config_file_path(None, Some(""), &project).is_none());
    assert!(config_file_path(None, None, &project).is_none());
}

fn settled() -> SettledSettings {
    SettledSettings {
        project: FsPath::parse("/home/p"),
        verbosity: "warn".to_string(),
        dry_run: false,
        dirty: false,
        overwrite: false,
        config_file: None,
        processor: "manual".to_string(),
        extractor: "manual".to_string(),
        storage: None,
        blob_storage: None,
        info_storage: None,
        tracker: None,
        filesystem: None,
        git_annex: None,
        sidecar: None,
        git: None,
        vision: None,
        llm: None,
    }
}

#[test]
fn starting_values_settle_to_defaults() {
    let c = Config::from_settled(settled()).unwrap();
    assert_eq!(c.verbosity, LogLevel::Warn);
    assert!(!c.dry_run && !c.overwrite);
    assert_eq!(c.processor, Processor::Manual);
    assert_eq!(c.extractor, Extractor::Manual);
    assert_eq!(c.project.to_text(), "/home/p");
}

#[test]
fn settled_names_are_read_and_unknown_ones_refused() {
    let mut s = settled();
    s.verbosity = "DEBUG".to_string();
    s.processor = "o-c-r".to_string();
    s.blob_storage = Some("git-annex".to_string());
    s.info_storage = Some("metadata".to_string());
    s.tracker = Some("git".to_string());
    s.sidecar = Some(SidecarSettings { directory: FsPath::parse("d"), format: None, hidden: true });
    let c = Config::from_settled(s).unwrap();
    assert_eq!(c.verbosity, LogLevel::Debug);
    assert_eq!(c.processor, Processor::OCR);
    assert_eq!(c.blob_storage, Some(BlobHandler::GitAnnex));
    assert_eq!(c.info_storage, Some(InfoHandler::Metadata));
    assert_eq!(c.tracker, Some(VersionHandler::Git));
    assert_eq!(c.sidecar.unwrap().format, InfoFormat::TOML);
    let mut bad = settled();
    bad.processor = "ocr".to_string();
    bad.tracker = Some("svn".to_string());
    match Config::from_settled(bad) {
        Err(Error::Config { message }) => assert_eq!(message, "unknown variant `ocr`"),
        _ => panic!("expected a configuration error"),
    }
    let mut bad_tracker = settled();
    bad_tracker.tracker = Some("svn".to_string());
    match Config::from_settled(bad_tracker) {
        Err(Error::Config { message }) => assert_eq!(message, "unknown variant `svn`"),
        _ => panic!("expected a configuration error"),
    }
}
