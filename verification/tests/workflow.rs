use acceptarium::acceptarium::{
    add_step, blob_handler, data_directory, info_handler, screen_batch, settle_run, sidecar_directory,
    version_handler, Acceptarium, AddStep, AssetSelectors, Blob, Info, Tracker,
};
use acceptarium::assets::Asset;
use acceptarium::collection::Assets;
use acceptarium::config::{
    BlobHandler, Config, Extractor, FilesystemConfig, GitConfig, InfoFormat, InfoHandler, LogLevel,
    Processor, SidecarConfig, VersionHandler,
};
use acceptarium::error::Error;
use acceptarium::ident::Blake3Sum;
use acceptarium::navigation::{key_action, Key, KeyAction, Navigator};
use acceptarium::paths::FsPath;
use acceptarium::process::{check_overwrite, is_pdf, media_type, process_steps, steps_exist, ImageMediaType, ProcessSteps};
use acceptarium::storage::{LocalFile, PlainBlob};
use acceptarium::template::{CommitMessage, TemplateString};
use acceptarium::tracker::{has_staged, EntryStatus, GitTracker, ManualTracker, StorageTracker};
use acceptarium::transaction::Transaction;

fn config() -> Config {
    Config {
        project: FsPath::parse("/p"),
        verbosity: LogLevel::Warn,
        dry_run: false,
        dirty: false,
        overwrite: false,
        config_file: None,
        processor: Processor::Vision,
        extractor: Extractor::Manual,
        storage: None,
        blob_storage: Some(BlobHandler::Filesystem),
        info_storage: None,
        tracker: Some(VersionHandler::Manual),
        filesystem: None,
        git_annex: None,
        sidecar: None,
        git: Some(GitConfig { stage: true, commit: true }),
        vision: None,
        llm: None,
    }
}

fn empty_tx() -> Transaction {
    Transaction {
        payee: None,
        datetime: None,
        category: None,
        items: None,
        total: None,
        currency: None,
        invoice_number: None,
        payment_type: None,
        payment_identifier: None,
    }
}

#[test]
fn handler_selection() {
    let c = config();
    assert_eq!(blob_handler(&c).unwrap(), BlobHandler::Filesystem);
    assert!(matches!(info_handler(&c), Err(Error::NoStorageConfigured)));
    assert_eq!(version_handler(&c).unwrap(), VersionHandler::Manual);
    let mut c2 = config();
    c2.tracker = None;
    c2.info_storage = Some(InfoHandler::Sidecar);
    assert!(matches!(version_handler(&c2), Err(Error::NoTrackerConfigured)));
    assert_eq!(info_handler(&c2).unwrap(), InfoHandler::Sidecar);
    let plain = Blob::Plain(PlainBlob { project_dir: FsPath::parse("/p"), data_dir: FsPath::parse("/p/d"), copy: false, rename: false });
    match plain.as_info() {
        Err(Error::UnsupportedStorage { driver }) => assert_eq!(driver, "metadata requires git-annex"),
        other => panic!("unexpected {:?}", other),
    }
}

#[test]
fn batch_screening_refuses_repeated_checksum() {
    let f = |p: &str, b: u8| LocalFile::from_parts(FsPath::parse(p), Blake3Sum::new([b; 32]));
    let sources = vec![f("/a/one.jpg", 1), f("/a/two.jpg", 2), f("/a/known.jpg", 3), f("/a/dup.jpg", 1)];
    let first = vec![f("/a/one.jpg", 1), f("/a/two.jpg", 2), f("/a/known.jpg", 3)];
    let ok = screen_batch(&first, &vec![true, true, false]).unwrap();
    assert_eq!(ok, vec![0, 1]);
    match screen_batch(&sources, &vec![true, true, false, true]) {
        Err(Error::Filesystem { message }) => assert_eq!(
            message,
            "Skipping duplicate file 'dup.jpg' with hash already seen in this batch"
        ),
        other => panic!("unexpected {:?}", other),
    }
    let passed_over = screen_batch(&sources, &vec![false, true, false, true]).unwrap();
    assert_eq!(passed_over, vec![1, 3]);
}

#[test]
fn selectors() {
    let mut listed = Assets::new();
    let mut done = Asset::new(None, None, None).unwrap();
    done.set_transaction(Some(empty_tx()));
    listed.add(done);
    listed.add(Asset::new(None, None, None).unwrap());
    let s = AssetSelectors { all: false, processed: false, unprocessed: true, ids: None };
    assert!(s.uses_listing());
    let left = s.filter_listed(listed);
    assert_eq!(left.len(), 1);
    assert!(left.in_order()[0].transaction().is_none());
    let by_id = AssetSelectors { all: false, processed: false, unprocessed: false, ids: Some(vec!["abcdefg".to_string(), "bad".to_string()]) };
    assert!(!by_id.uses_listing());
    assert!(matches!(by_id.ids(), Err(Error::InvalidAssetId { .. })));
    let good = AssetSelectors { all: false, processed: false, unprocessed: false, ids: Some(vec!["abcdefg".to_string()]) };
    assert_eq!(good.ids().unwrap()[0].as_str(), "abcdefg");
}

#[test]
fn git_tracker_rules() {
    let t = GitTracker::new(&config()).unwrap();
    assert!(t.is_clean(false, false).is_ok());
    assert!(t.is_clean(true, true).is_ok());
    match t.is_clean(false, true) {
        Err(Error::Filesystem { message }) => assert_eq!(
            message,
            "Git repository has staged changes. Please commit or unstage them first."
        ),
        other => panic!("unexpected {:?}", other),
    }
    let paths = vec![FsPath::parse("/repo/a.jpg"), FsPath::parse("/other/b.jpg"), FsPath::parse("/repo/sub/c.toml")];
    let staged = t.stage_paths(&paths, Some(&FsPath::parse("/repo")), &FsPath::parse("/repo")).unwrap().unwrap();
    let texts: Vec<String> = staged.iter().map(|p| p.to_text()).collect();
    assert_eq!(texts, vec!["a.jpg", "sub/c.toml"]);
    assert!(matches!(t.stage_paths(&paths, None, &FsPath::parse("/repo")), Err(Error::Filesystem { .. })));
    assert_eq!(t.commit_staged("Track new asset(s)").unwrap().unwrap(), "Track new asset(s)\n\nAssisted-by: Acceptarium");
    let off = GitTracker { stage: false, commit: false };
    assert!(off.stage_paths(&paths, None, &FsPath::parse("/")).unwrap().is_none());
    assert!(off.commit_staged("x").unwrap().is_none());
    let mut c = config();
    c.git = None;
    assert!(matches!(GitTracker::new(&c), Err(Error::MissingVcsConfig { .. })));
    let statuses = vec![EntryStatus { index_new: false, index_modified: false, index_deleted: false }, EntryStatus { index_new: false, index_modified: true, index_deleted: false }];
    assert!(has_staged(&statuses));
    assert!(!has_staged(&statuses[..1].to_vec()));
}

#[test]
fn manual_tracker_rules() {
    let m = ManualTracker {};
    assert!(m.is_clean(false, true).is_ok());
    assert!(m.stage_paths(&vec![FsPath::parse("/a")], None, &FsPath::parse("/")).unwrap().is_none());
    assert!(matches!(m.commit_staged("Remove asset(s)"), Err(Error::SerdeJson { .. })));
}

#[test]
fn template_renders_until_stable() {
    let t = TemplateString("a".to_string());
    let out = t.render_with(|s: &str| -> Result<String, Error> {
        Ok(if s.len() < 4 { format!("{}a", s) } else { s.to_string() })
    });
    assert_eq!(out.unwrap(), "aaaa");
    let capped = t.render_with(|s: &str| -> Result<String, Error> { Ok(format!("{}b", s)) });
    assert_eq!(capped.unwrap(), "abbbbbbbbbb");
    let empty = TemplateString(String::new());
    let untouched = empty.render_with(|_s: &str| -> Result<String, Error> { Ok("x".to_string()) });
    assert_eq!(untouched.unwrap(), "");
    let failing = t.render_with(|_s: &str| -> Result<String, Error> { Err(Error::AssetProcessed) });
    assert!(matches!(failing, Err(Error::AssetProcessed)));
}

#[test]
fn template_renders_with_tera() {
    let asset = Asset::new(Some(&FsPath::parse("r.jpg")), None, None).unwrap();
    let t = TemplateString("{{ asset.id }} {{ config.project }}".to_string());
    let out = t.render(&config(), &asset).unwrap();
    assert_eq!(out, format!("{} /p", asset.id().as_str()));
    assert_eq!(TemplateString(String::new()).render(&config(), &asset).unwrap(), "");
    let plain = TemplateString("Receipt scan, no tags".to_string());
    assert_eq!(plain.render(&config(), &asset).unwrap(), "Receipt scan, no tags");
}

#[test]
fn commit_message_renders_parts() {
    let mut m = CommitMessage::new(TemplateString("[x] {{ msg.subject }}".to_string()));
    assert!(m.subject.is_none() && m.trailers.is_empty());
    m.subject = Some("Track".to_string());
    m.trailers.push("T: 1".to_string());
    assert_eq!(m.render().unwrap(), "[x] Track");
    let plain = CommitMessage::new(TemplateString("Update assets".to_string()));
    assert_eq!(plain.render().unwrap(), "Update assets");
}

#[test]
fn processing_decisions() {
    let mut a = Asset::new(None, None, None).unwrap();
    assert!(check_overwrite(&a, false).is_ok());
    a.set_transaction(Some(empty_tx()));
    assert!(matches!(check_overwrite(&a, false), Err(Error::AssetProcessed)));
    assert!(check_overwrite(&a, true).is_ok());
    let c = config();
    assert!(steps_exist(&c));
    assert_eq!(process_steps(&c), ProcessSteps::Vision);
    let mut c2 = config();
    c2.processor = Processor::OCR;
    assert!(!steps_exist(&c2));
    c2.extractor = Extractor::LLM;
    assert_eq!(process_steps(&c2), ProcessSteps::OcrThenLlm);
    assert_eq!(media_type(&FsPath::parse("a/b.JPEG")), Some(ImageMediaType::JPEG));
    assert_eq!(media_type(&FsPath::parse("b.png")), Some(ImageMediaType::PNG));
    assert_eq!(media_type(&FsPath::parse("b.tiff")), None);
    assert!(is_pdf(&FsPath::parse("scan.PDF")));
    assert!(!is_pdf(&FsPath::parse("scan")));
}

#[test]
fn navigation_wraps_and_scrolls() {
    let mut n = Navigator::new();
    n.select_previous(3);
    assert_eq!(n.selected_index, 2);
    n.select_next(3);
    assert_eq!(n.selected_index, 0);
    n.select_next(0);
    assert_eq!(n.selected_index, 0);
    n.details_available_height = 10;
    assert_eq!(n.max_scroll_offset(Some(25)), 15);
    assert_eq!(n.max_scroll_offset(Some(5)), 0);
    assert_eq!(n.max_scroll_offset(None), 0);
    n.scroll_down(true, 15);
    assert_eq!(n.scroll_offset, 9);
    n.scroll_down(true, 15);
    assert_eq!(n.scroll_offset, 15);
    n.scroll_up(false);
    assert_eq!(n.scroll_offset, 14);
    n.scroll_up(true);
    assert_eq!(n.scroll_offset, 5);
    n.scroll_up(true);
    assert_eq!(n.scroll_offset, 0);
    n.load_generation = u64::MAX;
    n.next_generation();
    assert_eq!(n.load_generation, 0);
}

#[test]
fn key_meanings() {
    assert_eq!(key_action(Key::Char('q'), false), KeyAction::Quit);
    assert_eq!(key_action(Key::Esc, true), KeyAction::Quit);
    assert_eq!(key_action(Key::Char('J'), true), KeyAction::ScrollDown { page: false });
    assert_eq!(key_action(Key::Down, false), KeyAction::SelectNext);
    assert_eq!(key_action(Key::Char('k'), false), KeyAction::SelectPrevious);
    assert_eq!(key_action(Key::PageUp, false), KeyAction::ScrollUp { page: true });
    assert_eq!(key_action(Key::Char('P'), false), KeyAction::TogglePreview);
    assert_eq!(key_action(Key::Char('p'), false), KeyAction::Ignore);
}

#[test]
fn shown_scroll_is_clamped() {
    let mut n = Navigator::new();
    n.scroll_offset = 7;
    assert_eq!(n.shown_scroll(5), 5);
    assert_eq!(n.shown_scroll(9), 7);
}

#[test]
fn storage_driver_selection_and_batch_checksums() {
    let mut c = config();
    assert!(matches!(acceptarium::acceptarium::storage_driver(&c), Err(Error::NoStorageConfigured)));
    c.storage = Some(acceptarium::config::StorageDriver::GitAnnex);
    assert_eq!(acceptarium::acceptarium::storage_driver(&c).unwrap(), acceptarium::config::StorageDriver::GitAnnex);
    let f = |p: &str, b: u8| LocalFile::from_parts(FsPath::parse(p), Blake3Sum::new([b; 32]));
    let distinct = vec![f("/a/one.jpg", 1), f("/a/two.jpg", 2)];
    assert!(acceptarium::acceptarium::check_batch_checksums(&distinct).is_ok());
    let repeated = vec![f("/a/one.jpg", 1), f("/a/two.jpg", 2), f("/a/again.jpg", 1)];
    match acceptarium::acceptarium::check_batch_checksums(&repeated) {
        Err(Error::AssetHashExists { id }) => assert_eq!(id, "again.jpg"),
        other => panic!("unexpected {:?}", other),
    }
}

#[test]
fn image_generation_check() {
    let mut n = Navigator::new();
    n.next_generation();
    assert!(n.accepts_image(1));
    assert!(!n.accepts_image(0));
}

#[test]
fn archive_refuses_missing_stores_in_order() {
    let project = FsPath::parse("/p");
    let open = |c: &Config| Acceptarium::open(c, &project, None, None, None);
    let mut c = config();
    c.blob_storage = None;
    assert!(matches!(open(&c), Err(Error::NoStorageConfigured)));
    let mut c = config();
    c.filesystem = Some(FilesystemConfig::default());
    c.info_storage = None;
    assert!(matches!(open(&c), Err(Error::NoStorageConfigured)));
    let mut c = config();
    c.filesystem = Some(FilesystemConfig::default());
    c.info_storage = Some(InfoHandler::Metadata);
    assert!(matches!(open(&c), Err(Error::UnsupportedStorage { .. })));
    let mut c = config();
    c.filesystem = Some(FilesystemConfig::default());
    c.info_storage = Some(InfoHandler::Sidecar);
    c.sidecar = Some(SidecarConfig { directory: FsPath::parse("meta"), format: InfoFormat::TOML, hidden: false });
    c.tracker = None;
    assert!(matches!(open(&c), Err(Error::NoTrackerConfigured)));
    c.tracker = Some(VersionHandler::Git);
    let found_no_repo = Acceptarium::open(&c, &project, None, None, Some(Error::Filesystem { message: "no repo".to_string() }));
    assert!(matches!(found_no_repo, Err(Error::Filesystem { .. })));
    let outside = Acceptarium::open(&c, &project, Some(Ok((FsPath::parse("/q"), false))), None, None);
    assert!(matches!(outside, Err(Error::Filesystem { .. })));
    c.tracker = Some(VersionHandler::Manual);
    let a = open(&c).unwrap();
    assert!(matches!(a.blob, Blob::Plain(_)));
    assert!(matches!(a.info, Info::Sidecar(_)));
    assert!(matches!(a.tracker, Tracker::Manual(_)));
    assert_eq!(data_directory(&c, &project).unwrap().to_text(), "/p");
    assert_eq!(sidecar_directory(&c, &project).unwrap().to_text(), "/p/meta");
}

fn local(name: &str, b: u8) -> LocalFile {
    LocalFile::from_parts(FsPath::parse(&format!("/in/{}", name)), Blake3Sum::new([b; 32]))
}

#[test]
fn adding_checks_everything_then_runs_and_commits() {
    let sources = vec![local("a.jpg", 1), local("b.jpg", 2), local("c.jpg", 1)];
    assert!(matches!(add_step(false, &sources, &vec![], 0), AddStep::Check(0)));
    assert!(matches!(add_step(false, &sources, &vec![true, false], 0), AddStep::Check(2)));
    assert!(matches!(add_step(false, &sources, &vec![true, false, false], 0), AddStep::Run(0)));
    assert!(matches!(add_step(false, &sources, &vec![true, false, false], 1), AddStep::Commit));
    match add_step(false, &sources, &vec![true, true, true], 0) {
        AddStep::Fail(Error::Filesystem { message }) => {
            assert_eq!(message, "Skipping duplicate file 'c.jpg' with hash already seen in this batch")
        }
        _ => panic!("expected the duplicate to stop the batch"),
    }
    assert!(matches!(add_step(true, &sources, &vec![true, true, false], 0), AddStep::Done));
    assert!(matches!(settle_run(None), Err(Error::Filesystem { .. })));
}

#[test]
fn selection_refuses_the_first_bad_id() {
    let s = AssetSelectors {
        all: false,
        processed: false,
        unprocessed: false,
        ids: Some(vec!["abcdefg".to_string(), "bad".to_string(), "also-bad".to_string()]),
    };
    match s.ids() {
        Err(Error::InvalidAssetId { message }) => assert_eq!(message, "Asset ID must be exactly 7 characters"),
        _ => panic!("expected an invalid id"),
    }
}
