use acceptarium::assets::Asset;
use acceptarium::collection::Assets;
use acceptarium::config::{
    Config, Extractor, FilesystemConfig, GitAnnexConfig, InfoFormat, LogLevel, OperationMode,
    Processor, SidecarConfig,
};
use acceptarium::error::Error;
use acceptarium::ident::Blake3Sum;
use acceptarium::paths::FsPath;
use acceptarium::storage::{
    annex_outcome, annex_output_lines, data_is_in_project, data_is_writable, first_output_line,
    is_in_project, path_relative_to_prefix, trim_text, AnnexedBlob, DummyStorage, LocalFile,
    PlainBlob, SidecarInfo,
};

fn config() -> Config {
    Config {
        project: FsPath::parse("/p"),
        verbosity: LogLevel::Warn,
        dry_run: false,
        dirty: false,
        overwrite: false,
        config_file: None,
        processor: Processor::Manual,
        extractor: Extractor::Manual,
        storage: None,
        blob_storage: None,
        info_storage: None,
        tracker: None,
        filesystem: Some(FilesystemConfig {
            directory: FsPath::parse("data"),
            glob: "*.toml".to_string(),
            commit: false,
            copy: true,
            rename: false,
            track: false,
        }),
        git_annex: Some(GitAnnexConfig { directory: FsPath::parse("data"), copy: false, rename: true }),
        sidecar: Some(SidecarConfig { directory: FsPath::parse("data"), format: InfoFormat::JSON, hidden: true }),
        git: None,
        vision: None,
        llm: None,
    }
}

fn plain(copy: bool, rename: bool) -> PlainBlob {
    PlainBlob { project_dir: FsPath::parse("/p"), data_dir: FsPath::parse("/p/data"), copy, rename }
}

fn source(path: &str, b: u8) -> LocalFile {
    LocalFile::from_parts(FsPath::parse(path), Blake3Sum::new([b; 32]))
}

#[test]
fn directory_checks() {
    let p = FsPath::parse("/p");
    assert!(data_is_in_project(&FsPath::parse("/p/data"), &p).is_ok());
    match data_is_in_project(&FsPath::parse("/q"), &p) {
        Err(Error::Filesystem { message }) => {
            assert_eq!(message, "Storage directory '/q' is not inside project root '/p'")
        }
        other => panic!("unexpected {:?}", other),
    }
    match data_is_writable(&p, true) {
        Err(Error::Filesystem { message }) => {
            assert_eq!(message, "Storage directory '/p' is not writable by the current user")
        }
        other => panic!("unexpected {:?}", other),
    }
    assert!(data_is_writable(&p, false).is_ok());
    assert!(is_in_project(&FsPath::parse("/p/x"), &p));
    assert!(!is_in_project(&FsPath::parse("/px"), &p));
    assert_eq!(path_relative_to_prefix(&FsPath::parse("/p/a/b"), &p).to_text(), "a/b");
    assert_eq!(path_relative_to_prefix(&FsPath::parse("/q/a"), &p).to_text(), "/q/a");
}

#[test]
fn plain_blob_init() {
    let c = config();
    let b = PlainBlob::init(&c, FsPath::parse("/p"), FsPath::parse("/p/data"), false).unwrap();
    assert!(b.copy && !b.rename);
    assert!(matches!(
        PlainBlob::init(&c, FsPath::parse("/p"), FsPath::parse("/p/data"), true),
        Err(Error::Filesystem { .. })
    ));
    let mut c2 = config();
    c2.filesystem = None;
    match PlainBlob::init(&c2, FsPath::parse("/p"), FsPath::parse("/p/data"), false) {
        Err(Error::MissingStorageConfig { driver }) => assert_eq!(driver, "filesystem"),
        other => panic!("unexpected {:?}", other),
    }
    let a = AnnexedBlob::init(&c, FsPath::parse("/p"), FsPath::parse("/p/data"), false).unwrap();
    assert!(a.rename && !a.copy);
    let _d = DummyStorage::new(config());
}

#[test]
fn ingest_copies_into_data_dir_keeping_stem() {
    let b = plain(true, false);
    let src = source("/home/me/scan.JPG", 1);
    let listed = Assets::new();
    let g = b
        .ingest(OperationMode::CheckAndRun, &src, &listed, |_p: &FsPath| Ok(false))
        .unwrap()
        .unwrap();
    assert_eq!(g.asset_path_abs.to_text(), "/p/data/scan.JPG");
    assert_eq!(g.asset.stored_asset_path().unwrap().to_text(), "data/scan.JPG");
    assert_eq!(g.copy_from.unwrap().to_text(), "/home/me/scan.JPG");
    assert_eq!(g.stage.len(), 1);
    assert!(g.write && !g.write_min);
}

#[test]
fn ingest_renames_to_id() {
    let b = plain(true, true);
    let src = source("/home/me/scan.png", 1);
    let g = b
        .ingest(OperationMode::JustCheck, &src, &Assets::new(), |_p: &FsPath| -> Result<bool, Error> {
            panic!("no check when renaming")
        })
        .unwrap()
        .unwrap();
    assert_eq!(
        g.asset_path_abs.to_text(),
        format!("/p/data/{}.png", g.asset.id().as_str())
    );
    assert!(g.copy_from.is_none() && g.stage.is_empty() && !g.write);
}

#[test]
fn ingest_in_place_keeps_source_path() {
    let b = plain(false, false);
    let src = source("/p/inbox/r.pdf", 1);
    let g = b
        .ingest(OperationMode::JustRun, &src, &Assets::new(), |_p: &FsPath| Ok(true))
        .unwrap()
        .unwrap();
    assert_eq!(g.asset.stored_asset_path().unwrap().to_text(), "inbox/r.pdf");
    assert!(g.copy_from.is_none());
}

#[test]
fn ingest_refuses_taken_destination() {
    let b = plain(true, false);
    let src = source("/home/me/scan.jpg", 1);
    match b.ingest(OperationMode::CheckAndRun, &src, &Assets::new(), |_p: &FsPath| Ok(true)) {
        Err(Error::Filesystem { message }) => {
            assert_eq!(message, "Data file '/p/data/scan.jpg' already exists")
        }
        other => panic!("unexpected {:?}", other),
    }
}

#[test]
fn ingest_skips_known_checksum() {
    let b = plain(true, false);
    let mut listed = Assets::new();
    listed.add(Asset::new(None, None, Some(Blake3Sum::new([5; 32]))).unwrap());
    let src = source("/home/me/scan.jpg", 5);
    let r = b.ingest(OperationMode::JustCheck, &src, &listed, |_p: &FsPath| Ok(false)).unwrap();
    assert!(r.is_none());
    let again = b.ingest(OperationMode::JustRun, &src, &listed, |_p: &FsPath| Ok(false)).unwrap();
    assert!(again.is_some());
}

#[test]
fn annexed_ingest_writes_minimal_metadata_beside_sidecars() {
    let a = AnnexedBlob { project_dir: FsPath::parse("/p"), data_dir: FsPath::parse("/p/d"), copy: false, rename: false };
    let src = source("/p/r.jpg", 2);
    let g = a
        .ingest(OperationMode::JustRun, &src, &Assets::new(), false, |_p: &FsPath| Ok(false))
        .unwrap()
        .unwrap();
    assert!(g.write_min && !g.write);
}

#[test]
fn egest_decisions() {
    let b = plain(true, false);
    let inside = Asset::new(Some(&FsPath::parse("data/a.jpg")), None, None).unwrap();
    let e = b.egest(&inside, |_p: &FsPath| true);
    assert_eq!(e.remove.unwrap().to_text(), "/p/data/a.jpg");
    assert!(e.erase_info);
    let outside = Asset::new(Some(&FsPath::parse("/elsewhere/a.jpg")), None, None).unwrap();
    let e = b.egest(&outside, |_p: &FsPath| true);
    assert!(e.remove.is_none() && e.erase_info);
    let a = AnnexedBlob { project_dir: FsPath::parse("/p"), data_dir: FsPath::parse("/p/d"), copy: false, rename: false };
    let e = a.egest(&inside, |_p: &FsPath| false);
    assert!(e.remove.is_none() && !e.erase_info);
}

#[test]
fn sidecar_paths_and_pattern() {
    let c = config();
    let s = SidecarInfo::new(&c, FsPath::parse("/p"), FsPath::parse("/p/data")).unwrap();
    let a = Asset::new(Some(&FsPath::parse("data/r1.jpg")), None, None).unwrap();
    assert_eq!(s.metadata_path(&a).to_text(), "/p/data/.r1.json");
    assert_eq!(s.list_pattern(), "/p/data/.*.json");
    let shown = SidecarInfo { project_dir: FsPath::parse("/p"), data_dir: FsPath::parse("/p/data"), format: InfoFormat::TOML, hidden: false };
    assert_eq!(shown.metadata_path(&a).to_text(), "/p/data/r1.toml");
    assert_eq!(shown.list_pattern(), "/p/data/[!.]*.toml");
    let mut c2 = config();
    c2.sidecar = None;
    assert!(matches!(
        SidecarInfo::new(&c2, FsPath::parse("/p"), FsPath::parse("/p/data")),
        Err(Error::MissingInfoConfig { .. })
    ));
}

#[test]
fn sidecar_listed_path_is_relative_to_cwd() {
    let s = SidecarInfo { project_dir: FsPath::parse("/p"), data_dir: FsPath::parse("/p/data"), format: InfoFormat::TOML, hidden: false };
    let r = s.listed_path(&FsPath::parse("/p/data/r.jpg"), &FsPath::parse("/p/sub"));
    assert_eq!(r.to_text(), "../data/r.jpg");
    let r = s.listed_path(&FsPath::parse("/p/data/r.jpg"), &FsPath::parse("/tmp"));
    assert_eq!(r.to_text(), "data/r.jpg");
}

#[test]
fn annex_arguments() {
    let a = AnnexedBlob { project_dir: FsPath::parse("/p"), data_dir: FsPath::parse("/p/d"), copy: false, rename: false };
    let asset = Asset::new(Some(&FsPath::parse("d/r.jpg")), None, None).unwrap();
    let full = a.write_args(&asset, false).unwrap();
    assert_eq!(full[0], "metadata");
    assert_eq!(full[1], "/p/d/r.jpg");
    assert_eq!(full[2], "--remove-all");
    assert_eq!(full[3], "-s");
    let min = a.write_args(&asset, true).unwrap();
    assert_eq!(min, vec!["metadata".to_string(), "/p/d/r.jpg".to_string(), "-s".to_string(), format!("acceptarium.id={}", asset.id().as_str())]);
    let none = Asset::new(None, None, None).unwrap();
    assert!(matches!(a.write_args(&none, true), Err(Error::ExternalCommand { .. })));
    assert_eq!(a.list_args(), vec!["metadata", "--json", "--metadata", "acceptarium.id=*"]);
    assert_eq!(a.load_args(asset.id())[3], format!("acceptarium.id={}", asset.id().as_str()));
}

#[test]
fn annex_outputs() {
    assert_eq!(annex_outcome(true, "out".to_string(), "err").unwrap(), "out");
    match annex_outcome(false, "out".to_string(), "err") {
        Err(Error::Filesystem { message }) => assert_eq!(message, "git-annex failed: out err"),
        other => panic!("unexpected {:?}", other),
    }
    assert_eq!(annex_output_lines("  {\"a\":1}\r\n\n \t\n{\"b\":2}"), vec!["{\"a\":1}", "{\"b\":2}"]);
    assert_eq!(trim_text("\u{3000} x y \u{a0}"), "x y");
    assert_eq!(first_output_line("one\r\ntwo"), ("one".to_string(), true));
    assert_eq!(first_output_line("one\n"), ("one".to_string(), false));
    assert_eq!(first_output_line(""), (String::new(), false));
}

fn fs_store(copy: bool, rename: bool, track: bool, commit: bool) -> acceptarium::filesystem::FilesystemStorage {
    acceptarium::filesystem::FilesystemStorage {
        project_dir: FsPath::parse("/p"),
        data_dir: FsPath::parse("/p/data"),
        glob_pattern: "*.toml".to_string(),
        copy,
        rename,
        track,
        commit,
    }
}

#[test]
fn filesystem_store_add_plans_metadata_and_staging() {
    let s = fs_store(true, false, true, true);
    let src = source("/home/me/r.jpg", 4);
    let g = s.add(OperationMode::CheckAndRun, &src, &Assets::new(), |_p: &FsPath| Ok(false)).unwrap();
    assert_eq!(g.asset_path_abs.to_text(), "/p/data/r.jpg");
    assert_eq!(g.metadata_path.to_text(), format!("/p/data/{}.toml", g.asset.id().as_str()));
    let staged: Vec<String> = g.stage.iter().map(|p| p.to_text()).collect();
    assert_eq!(staged, vec![g.metadata_path.to_text(), "/p/data/r.jpg".to_string()]);
    assert_eq!(g.commit.unwrap(), "Track new asset(s)");
    assert!(g.write);
}

#[test]
fn filesystem_store_add_refusals() {
    let s = fs_store(false, false, false, false);
    let src = source("/p/in/r.jpg", 4);
    let mut listed = Assets::new();
    let known = Asset::new(None, None, Some(Blake3Sum::new([4; 32]))).unwrap();
    let known_id = known.id().to_text();
    listed.add(known);
    match s.add(OperationMode::JustCheck, &src, &listed, |_p: &FsPath| Ok(false)) {
        Err(Error::AssetHashExists { id }) => assert_eq!(id, known_id),
        other => panic!("unexpected {:?}", other),
    }
    match s.add(OperationMode::JustCheck, &src, &Assets::new(), |p: &FsPath| Ok(p.to_text().ends_with(".toml"))) {
        Err(Error::Filesystem { message }) => assert_eq!(message, "Metadata file '/p/data/r.toml' already exists"),
        other => panic!("unexpected {:?}", other),
    }
}

#[test]
fn filesystem_store_fields_and_removal() {
    let s = fs_store(false, false, true, false);
    let mut a = Asset::new(Some(&FsPath::parse("in/r.jpg")), None, None).unwrap();
    assert_eq!(s.get(&a, "asset_path").unwrap(), "/p/in/r.jpg");
    assert_eq!(s.get(&a, "blake3").unwrap(), "");
    assert!(matches!(s.get(&a, "ocr"), Err(Error::UnknownMetaKey { .. })));
    s.set(&mut a, "source_fname", "/tmp/x.jpg").unwrap();
    assert_eq!(a.source_fname().unwrap().to_text(), "/tmp/x.jpg");
    let r = s.remove(&a, |_p: &FsPath| true);
    assert_eq!(r.remove_asset.unwrap().to_text(), "/p/in/r.jpg");
    assert_eq!(r.remove_metadata.unwrap().to_text(), "/p/data/r.toml");
    assert_eq!(r.stage.len(), 2);
    assert!(r.commit.is_none());
    assert!(s.is_clean(true, Err(Error::AssetProcessed)).is_ok());
    assert!(s.is_clean(false, Err(Error::AssetProcessed)).is_err());
}

#[test]
fn filesystem_store_listing_and_saving() {
    let s = fs_store(true, false, true, true);
    assert_eq!(s.list_pattern(), "/p/data/*.toml");
    let a = Asset::new(Some(&FsPath::parse("data/r.jpg")), None, None).unwrap();
    let plan = s.save(&a);
    assert_eq!(plan.metadata_path.to_text(), format!("/p/data/{}.toml", a.id().as_str()));
    assert_eq!(plan.stage.len(), 1);
    assert_eq!(plan.commit.unwrap(), "Update existing asset(s)");
    let init = acceptarium::filesystem::FilesystemStorage::init(&config(), FsPath::parse("/p"), FsPath::parse("/p/data"), false).unwrap();
    assert_eq!(init.glob_pattern, "*.toml");
    assert!(init.copy && !init.track);
}
