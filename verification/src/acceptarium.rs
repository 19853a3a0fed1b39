//! The archive as a whole: which stores and tracker a configuration asks
//! for, which assets a selection names, and how a batch of files is
//! screened before it is brought in.

use vstd::prelude::*;
use crate::assets::{Asset, AssetView};
use crate::collection::{Assets, kept, lemma_kept_filter, verdict};
use crate::config::{BlobHandler, Config, InfoHandler, StorageDriver, VersionHandler};
use crate::error::Error;
use crate::ident::{AssetId, invalid_id_message, is_asset_id};
use crate::paths::{FsPath, render, spec_join, spec_starts_with};
use crate::storage::{AnnexedBlob, LocalFile, PlainBlob, SidecarInfo, is_filesystem_error};
use crate::text::{concat, owned};
use crate::tracker::{GitTracker, ManualTracker};

verus! {

/// The store that keeps asset files.
#[derive(Debug)]
pub enum Blob {
    Plain(PlainBlob),
    Annexed(AnnexedBlob),
}

/// The store that keeps asset metadata.
#[derive(Debug)]
pub enum Info {
    Sidecar(SidecarInfo),
    Annexed(AnnexedBlob),
}

/// The version tracker.
#[derive(Debug)]
pub enum Tracker {
    Git(GitTracker),
    Manual(ManualTracker),
}

/// The file store a configuration asks for.
pub fn blob_handler(config: &Config) -> (r: Result<BlobHandler, Error>)
    ensures
        match config.blob_storage {
            Some(h) => r == Ok::<BlobHandler, Error>(h),
            None => r matches Err(e) && e is NoStorageConfigured,
        },
{
    match config.blob_storage {
        Some(h) => Ok(h),
        None => Err(Error::NoStorageConfigured),
    }
}

/// The metadata store a configuration asks for.
pub fn info_handler(config: &Config) -> (r: Result<InfoHandler, Error>)
    ensures
        match config.info_storage {
            Some(h) => r == Ok::<InfoHandler, Error>(h),
            None => r matches Err(e) && e is NoStorageConfigured,
        },
{
    match config.info_storage {
        Some(h) => Ok(h),
        None => Err(Error::NoStorageConfigured),
    }
}

/// The version tracker a configuration asks for.
pub fn version_handler(config: &Config) -> (r: Result<VersionHandler, Error>)
    ensures
        match config.tracker {
            Some(h) => r == Ok::<VersionHandler, Error>(h),
            None => r matches Err(e) && e is NoTrackerConfigured,
        },
{
    match config.tracker {
        Some(h) => Ok(h),
        None => Err(Error::NoTrackerConfigured),
    }
}

impl AnnexedBlob {
    /// The same store.
    pub fn duplicate(&self) -> (r: AnnexedBlob)
        ensures
            r.project_dir@ == self.project_dir@,
            r.data_dir@ == self.data_dir@,
            r.copy == self.copy,
            r.rename == self.rename,
    {
        AnnexedBlob {
            project_dir: self.project_dir.copy(),
            data_dir: self.data_dir.copy(),
            copy: self.copy,
            rename: self.rename,
        }
    }
}

impl Blob {
    /// The file store as a metadata store: git-annex keeps both; the plain
    /// store keeps no metadata, which is refused.
    pub fn as_info(&self) -> (r: Result<Info, Error>)
        ensures
            match self {
                Blob::Annexed(a) => r matches Ok(Info::Annexed(b)) && b.project_dir@ == a.project_dir@
                    && b.data_dir@ == a.data_dir@ && b.copy == a.copy && b.rename == a.rename,
                Blob::Plain(_) => r matches Err(e) && (e matches Error::UnsupportedStorage { driver }
                    && driver@ == "metadata requires git-annex"@),
            },
    {
        match self {
            Blob::Annexed(a) => Ok(Info::Annexed(a.duplicate())),
            Blob::Plain(_) => Err(
                Error::UnsupportedStorage { driver: owned("metadata requires git-annex") },
            ),
        }
    }
}

impl Info {
    /// Whether git-annex keeps the metadata.
    pub fn is_annex(&self) -> (r: bool)
        ensures
            r == self is Annexed,
    {
        match self {
            Info::Annexed(_) => true,
            Info::Sidecar(_) => false,
        }
    }
}

/// The archive: its stores, its tracker, and how it runs.
#[derive(Debug)]
pub struct Acceptarium {
    pub dry_run: bool,
    pub dirty: bool,
    pub blob: Blob,
    pub info: Info,
    pub tracker: Tracker,
}

impl Acceptarium {
    /// The archive of a configuration with the stores and tracker made for it.
    pub fn new(config: &Config, blob: Blob, info: Info, tracker: Tracker) -> (r: Acceptarium)
        ensures
            r.dry_run == config.dry_run,
            r.dirty == config.dirty,
            r.blob == blob,
            r.info == info,
            r.tracker == tracker,
    {
        Acceptarium { dry_run: config.dry_run, dirty: config.dirty, blob, info, tracker }
    }
}

/// A metadata store in git-annex was asked for with the plain file store.
pub open spec fn metadata_without_annex(config: Config) -> bool {
    config.info_storage == Some(InfoHandler::Metadata) && config.blob_storage == Some(
        BlobHandler::Filesystem,
    )
}

/// A resolved data directory (none: the project directory itself) lies in
/// the project and may be written.
pub open spec fn dir_ok(project: FsPath, dir: Option<Result<(FsPath, bool), Error>>) -> bool {
    match dir {
        None => true,
        Some(Ok(d)) => spec_starts_with(d.0@, project@) && !d.1,
        Some(Err(_)) => false,
    }
}

/// The file store can be opened: it is named, configured, and its data
/// directory resolved into the project and is writable.
pub open spec fn blob_opens(
    config: Config,
    project: FsPath,
    blob_dir: Option<Result<(FsPath, bool), Error>>,
) -> bool {
    match config.blob_storage {
        Some(BlobHandler::Filesystem) => config.filesystem is Some && dir_ok(project, blob_dir),
        Some(BlobHandler::GitAnnex) => config.git_annex is Some && dir_ok(project, blob_dir),
        None => false,
    }
}

/// The metadata store can be opened: git-annex metadata with git-annex
/// keeping the files, or configured sidecar files whose directory resolved.
pub open spec fn info_opens(config: Config, sidecar_dir: Option<Result<FsPath, Error>>) -> bool {
    match config.info_storage {
        Some(InfoHandler::Metadata) => config.blob_storage == Some(BlobHandler::GitAnnex),
        Some(InfoHandler::Sidecar) => config.sidecar is Some && !(sidecar_dir matches Some(Err(_))),
        None => false,
    }
}

/// The tracker can be opened: the manual one, or Git with its settings and
/// a repository found.
pub open spec fn tracker_opens(config: Config, repo_error: Option<Error>) -> bool {
    match config.tracker {
        Some(VersionHandler::Manual) => true,
        Some(VersionHandler::Git) => repo_error is None && config.git is Some,
        None => false,
    }
}

/// The data directory the file store of a configuration asks for, taken
/// from the project directory, when its settings name one.
pub fn data_directory(config: &Config, project: &FsPath) -> (r: Option<FsPath>)
    ensures
        match config.blob_storage {
            Some(BlobHandler::Filesystem) => match config.filesystem {
                Some(f) => r matches Some(d) && d@ == spec_join(project@, f.directory@),
                None => r is None,
            },
            Some(BlobHandler::GitAnnex) => match config.git_annex {
                Some(g) => r matches Some(d) && d@ == spec_join(project@, g.directory@),
                None => r is None,
            },
            None => r is None,
        },
{
    match config.blob_storage {
        Some(BlobHandler::Filesystem) => match &config.filesystem {
            Some(f) => Some(project.join(&f.directory)),
            None => None,
        },
        Some(BlobHandler::GitAnnex) => match &config.git_annex {
            Some(g) => Some(project.join(&g.directory)),
            None => None,
        },
        None => None,
    }
}

/// The directory of the sidecar metadata files, taken from the project
/// directory, when sidecar files are asked for and configured.
pub fn sidecar_directory(config: &Config, project: &FsPath) -> (r: Option<FsPath>)
    ensures
        match (config.info_storage, config.sidecar) {
            (Some(InfoHandler::Sidecar), Some(x)) => r matches Some(d) && d@ == spec_join(
                project@,
                x.directory@,
            ),
            _ => r is None,
        },
{
    match (config.info_storage, &config.sidecar) {
        (Some(InfoHandler::Sidecar), Some(x)) => Some(project.join(&x.directory)),
        _ => None,
    }
}

/// Whether the configuration asks for the Git tracker, which needs the
/// repository around the project.
pub fn needs_repository(config: &Config) -> (r: bool)
    ensures
        r == (config.tracker == Some(VersionHandler::Git)),
{
    match config.tracker {
        Some(VersionHandler::Git) => true,
        _ => false,
    }
}

impl Acceptarium {
    /// The archive a configuration asks for, with its project directory
    /// `project` (canonical), the file store's data directory as resolved
    /// (`blob_dir`, see `data_directory`; with whether it is read-only),
    /// the sidecar directory as resolved (`sidecar_dir`, see
    /// `sidecar_directory`), and the error of finding the Git repository,
    /// if that failed. The file store is opened first, then the metadata
    /// store, then the tracker; the first that is missing or cannot be
    /// opened is refused: no store named gives `NoStorageConfigured`,
    /// metadata in git-annex without git-annex keeping the files
    /// `UnsupportedStorage`, no tracker named `NoTrackerConfigured`.
    pub fn open(
        config: &Config,
        project: &FsPath,
        blob_dir: Option<Result<(FsPath, bool), Error>>,
        sidecar_dir: Option<Result<FsPath, Error>>,
        repo_error: Option<Error>,
    ) -> (r: Result<Acceptarium, Error>)
        ensures
            config.blob_storage is None ==> (r matches Err(e) && e is NoStorageConfigured),
            blob_opens(*config, *project, blob_dir) && config.info_storage is None ==> (r matches Err(e)
                && e is NoStorageConfigured),
            blob_opens(*config, *project, blob_dir) && metadata_without_annex(*config) ==> (r matches Err(
                e,
            ) && (e matches Error::UnsupportedStorage { driver } && driver@
                == "metadata requires git-annex"@)),
            blob_opens(*config, *project, blob_dir) && info_opens(*config, sidecar_dir)
                && config.tracker is None ==> (r matches Err(e) && e is NoTrackerConfigured),
            blob_opens(*config, *project, blob_dir) && info_opens(*config, sidecar_dir)
                && config.tracker == Some(VersionHandler::Git) && repo_error is Some ==> r == Err::<
                Acceptarium,
                Error,
            >(repo_error.unwrap()),
            r is Ok <==> blob_opens(*config, *project, blob_dir) && info_opens(*config, sidecar_dir)
                && tracker_opens(*config, repo_error),
            r matches Ok(a) ==> {
                &&& a.dry_run == config.dry_run
                &&& a.dirty == config.dirty
                &&& (a.blob is Annexed <==> config.blob_storage == Some(BlobHandler::GitAnnex))
                &&& (a.blob is Plain <==> config.blob_storage == Some(BlobHandler::Filesystem))
                &&& (a.info is Annexed <==> config.info_storage == Some(InfoHandler::Metadata))
                &&& (a.info is Sidecar <==> config.info_storage == Some(InfoHandler::Sidecar))
                &&& (a.tracker is Git <==> config.tracker == Some(VersionHandler::Git))
                &&& (a.tracker is Manual <==> config.tracker == Some(VersionHandler::Manual))
            },
    {
        let blob = match blob_handler(config) {
            Err(e) => {
                return Err(e);
            },
            Ok(h) => {
                let (data, ro) = match blob_dir {
                    Some(Ok(x)) => x,
                    Some(Err(e)) => {
                        return Err(e);
                    },
                    None => (project.copy(), false),
                };
                proof {
                    assert(project@.subrange(0, project@.len() as int) =~= project@);
                }
                match h {
                    BlobHandler::Filesystem => match PlainBlob::init(config, project.copy(), data, ro) {
                        Ok(b) => Blob::Plain(b),
                        Err(e) => {
                            return Err(e);
                        },
                    },
                    BlobHandler::GitAnnex => match AnnexedBlob::init(config, project.copy(), data, ro) {
                        Ok(b) => Blob::Annexed(b),
                        Err(e) => {
                            return Err(e);
                        },
                    },
                }
            },
        };
        let info = match info_handler(config) {
            Err(e) => {
                return Err(e);
            },
            Ok(InfoHandler::Sidecar) => {
                let data = match sidecar_dir {
                    Some(Ok(d)) => d,
                    Some(Err(e)) => {
                        return Err(e);
                    },
                    None => project.copy(),
                };
                match SidecarInfo::new(config, project.copy(), data) {
                    Ok(i) => Info::Sidecar(i),
                    Err(e) => {
                        return Err(e);
                    },
                }
            },
            Ok(InfoHandler::Metadata) => match blob.as_info() {
                Ok(i) => i,
                Err(e) => {
                    return Err(e);
                },
            },
        };
        let tracker = match version_handler(config) {
            Err(e) => {
                return Err(e);
            },
            Ok(VersionHandler::Git) => {
                match repo_error {
                    Some(e) => {
                        return Err(e);
                    },
                    None => {},
                }
                match GitTracker::new(config) {
                    Ok(t) => Tracker::Git(t),
                    Err(e) => {
                        return Err(e);
                    },
                }
            },
            Ok(VersionHandler::Manual) => Tracker::Manual(ManualTracker {}),
        };
        Ok(Acceptarium::new(config, blob, info, tracker))
    }
}

// ---------------------------------------------------------------------------
// Selecting assets

/// Which assets a command works on.
#[derive(Debug)]
pub struct AssetSelectors {
    pub all: bool,
    pub processed: bool,
    pub unprocessed: bool,
    pub ids: Option<Vec<String>>,
}

/// Position `i` holds the first text that is no asset identifier.
pub open spec fn first_invalid(texts: Seq<String>, i: int) -> bool {
    &&& 0 <= i < texts.len()
    &&& !is_asset_id(texts[i]@)
    &&& forall|j: int| 0 <= j < i ==> is_asset_id(#[trigger] texts[j]@)
}

/// `e` refuses the text `t` as an asset identifier.
pub open spec fn refused_id(e: Error, t: Seq<char>) -> bool {
    e matches Error::InvalidAssetId { message } && message@ == invalid_id_message(t)
}

/// Whether an asset has a transaction.
pub open spec fn is_processed(a: AssetView) -> bool {
    a.transaction is Some
}

/// An asset counts as processed exactly when it has a transaction, whatever
/// else it holds (its OCR text in particular): the processed selection
/// keeps exactly the listed assets with a transaction, the unprocessed one
/// exactly those without.
pub proof fn law_processed_means_transaction(
    a: AssetView,
    ocr: Option<Seq<char>>,
    listed: Seq<AssetView>,
)
    ensures
        is_processed(a) == (a.transaction is Some),
        is_processed(AssetView { ocr: ocr, ..a }) == is_processed(a),
        listed.filter(|x: AssetView| is_processed(x)) == listed.filter(
            |x: AssetView| x.transaction is Some,
        ),
        listed.filter(|x: AssetView| !is_processed(x)) == listed.filter(
            |x: AssetView| x.transaction is None,
        ),
{
    assert((|x: AssetView| is_processed(x)) =~= (|x: AssetView| x.transaction is Some));
    assert((|x: AssetView| !is_processed(x)) =~= (|x: AssetView| x.transaction is None));
}

impl AssetSelectors {
    /// Whether the selection is taken from the listing of all assets (all,
    /// processed or unprocessed ones) rather than from identifiers.
    pub fn uses_listing(&self) -> (r: bool)
        ensures
            r == (self.all || self.processed || self.unprocessed),
    {
        self.all || self.processed || self.unprocessed
    }

    /// The selected ones among the listed assets, in their order: all of
    /// them, or the processed ones, or the unprocessed ones, in that
    /// precedence.
    pub fn filter_listed(&self, listed: Assets) -> (r: Assets)
        requires
            self.all || self.processed || self.unprocessed,
        ensures
            self.all ==> r@ == listed@,
            !self.all && self.processed ==> r@ == listed@.filter(|a: AssetView| is_processed(a)),
            !self.all && !self.processed ==> r@ == listed@.filter(|a: AssetView| !is_processed(a)),
    {
        if self.all {
            listed
        } else if self.processed {
            keep_by_transaction(listed, true)
        } else {
            keep_by_transaction(listed, false)
        }
    }

    /// The identifiers the selection names, in order; the first that is no
    /// identifier is refused, before any asset is loaded.
    pub fn ids(&self) -> (r: Result<Vec<AssetId>, Error>)
        ensures
            match &self.ids {
                None => r matches Ok(v) && v@.len() == 0,
                Some(ids) => match r {
                    Ok(v) => v@.len() == ids@.len() && forall|i: int|
                        0 <= i < ids@.len() ==> (#[trigger] v@[i])@ == ids@[i]@ && is_asset_id(
                            ids@[i]@,
                        ),
                    Err(e) => exists|i: int|
                        #[trigger] first_invalid(ids@, i) && refused_id(e, ids@[i]@),
                },
            },
    {
        match &self.ids {
            None => Ok(Vec::new()),
            Some(ids) => {
                let r = parse_ids(ids);
                proof {
                    if r is Err {
                        let e = r->Err_0;
                        let i = choose|i: int| #[trigger] first_invalid(ids@, i) && refused_id(e, ids@[i]@);
                        assert(first_invalid(ids@, i) && refused_id(e, ids@[i]@));
                    }
                }
                r
            },
        }
    }
}

/// The identifiers written in `ids`, in order; the first text that is no
/// identifier is refused.
fn parse_ids(ids: &Vec<String>) -> (r: Result<Vec<AssetId>, Error>)
    ensures
        match r {
            Ok(v) => v@.len() == ids@.len() && forall|i: int|
                0 <= i < ids@.len() ==> (#[trigger] v@[i])@ == ids@[i]@ && is_asset_id(ids@[i]@),
            Err(e) => exists|i: int| #[trigger] first_invalid(ids@, i) && refused_id(e, ids@[i]@),
        },
{
    let mut out: Vec<AssetId> = Vec::new();
    let n = ids.len();
    let mut i: usize = 0;
    while i < n
        invariant
            n == ids@.len(),
            i <= n,
            out@.len() == i,
            forall|j: int| 0 <= j < i ==> (#[trigger] out@[j])@ == ids@[j]@ && is_asset_id(ids@[j]@),
        decreases n - i,
    {
        let id = match AssetId::try_from_string(&ids[i]) {
            Ok(id) => id,
            Err(e) => {
                proof {
                    assert forall|j: int| 0 <= j < i implies is_asset_id(#[trigger] ids@[j]@) by {
                        assert((out@[j])@ == ids@[j]@ && is_asset_id(ids@[j]@));
                    }
                    assert(first_invalid(ids@, i as int));
                    assert(refused_id(e, ids@[i as int]@));
                }
                return Err(e);
            },
        };
        let ghost before = out@;
        out.push(id);
        assert forall|j: int| 0 <= j < i + 1 implies (#[trigger] out@[j])@ == ids@[j]@ && is_asset_id(
            ids@[j]@,
        ) by {
            if j < i {
                assert(out@[j] == before[j]);
            }
        }
        i += 1;
    }
    Ok(out)
}

/// The listed assets whose having a transaction is `processed`.
fn keep_by_transaction(listed: Assets, processed: bool) -> (r: Assets)
    ensures
        processed ==> r@ == listed@.filter(|a: AssetView| is_processed(a)),
        !processed ==> r@ == listed@.filter(|a: AssetView| !is_processed(a)),
{
    let mut assets = listed;
    let ghost s0 = assets@;
    let f = move |_id: &AssetId, asset: &Asset| -> (b: bool)
        ensures
            b == (asset@.transaction is Some == processed),
        { asset.transaction().is_some() == processed };
    assets.retain(f);
    proof {
        let m = choose|m: Seq<bool>|
            {
                &&& m.len() == s0.len()
                &&& assets@ == kept(s0, m)
                &&& forall|i: int| 0 <= i < m.len() ==> #[trigger] verdict(f, s0[i], m[i])
            };
        let p = |a: AssetView| (a.transaction is Some) == processed;
        assert forall|i: int| 0 <= i < s0.len() implies #[trigger] m[i] == p(s0[i]) by {
            assert(verdict(f, s0[i], m[i]));
        }
        lemma_kept_filter(s0, m, p);
        if processed {
            assert(s0.filter(p) =~= s0.filter(|a: AssetView| is_processed(a))) by {
                assert(p =~= (|a: AssetView| is_processed(a)));
            }
        } else {
            assert(s0.filter(p) =~= s0.filter(|a: AssetView| !is_processed(a))) by {
                assert(p =~= (|a: AssetView| !is_processed(a)));
            }
        }
    }
    assets
}


// ---------------------------------------------------------------------------
// Screening a batch of files

/// Screening a batch: `found[i]` says whether a checking run would bring
/// source `i` in (false when its checksum is already tracked; it is then
/// passed over); `sums[i]` is its checksum. The result is the sources to
/// bring in, in order, or the first one whose checksum an earlier accepted
/// source of the batch has.
pub open spec fn screen(found: Seq<bool>, sums: Seq<Seq<u8>>) -> Result<Seq<int>, int>
    decreases found.len(),
{
    if found.len() == 0 {
        Ok(seq![])
    } else {
        let i = found.len() - 1;
        match screen(found.drop_last(), sums) {
            Err(j) => Err(j),
            Ok(acc) => if !found[i] {
                Ok(acc)
            } else if exists|j: int| 0 <= j < acc.len() && sums[#[trigger] acc[j]] == sums[i] {
                Err(i)
            } else {
                Ok(acc.push(i))
            },
        }
    }
}

/// The checksums of a batch.
pub open spec fn batch_sums(sources: Seq<LocalFile>) -> Seq<Seq<u8>> {
    sources.map_values(|f: LocalFile| f.blake3@)
}

/// The message for a file whose checksum came earlier in the batch.
pub open spec fn duplicate_in_batch_message(filename: Seq<Seq<char>>) -> Seq<char> {
    "Skipping duplicate file '"@ + render(filename) + "' with hash already seen in this batch"@
}

/// The sources of a batch to bring in (see `screen`), given whether a
/// checking run would bring each of the first ones in.
pub fn screen_batch(sources: &Vec<LocalFile>, found: &Vec<bool>) -> (r: Result<Vec<usize>, Error>)
    requires
        found@.len() <= sources@.len(),
    ensures
        match screen(found@, batch_sums(sources@)) {
            Ok(acc) => r matches Ok(v) && v@.len() == acc.len() && forall|k: int|
                0 <= k < acc.len() ==> #[trigger] v@[k] == acc[k],
            Err(i) => r matches Err(e) && is_filesystem_error(
                e,
                duplicate_in_batch_message(sources@[i].filename@),
            ),
        },
{
    let n = found.len();
    let mut accepted: Vec<usize> = Vec::new();
    let mut i: usize = 0;
    let ghost sums = batch_sums(sources@);
    while i < n
        invariant
            n <= sources@.len(),
            n == found@.len(),
            i <= n,
            sums == batch_sums(sources@),
            screen(found@.take(i as int), sums) matches Ok(acc) && accepted@.len() == acc.len()
                && forall|k: int| 0 <= k < acc.len() ==> #[trigger] accepted@[k] == acc[k],
            forall|k: int| 0 <= k < accepted@.len() ==> #[trigger] accepted@[k] < i,
        decreases n - i,
    {
        let ghost acc = screen(found@.take(i as int), sums)->Ok_0;
        let ghost t = found@.take(i + 1);
        assert(t.drop_last() =~= found@.take(i as int));
        if found[i] {
            let m = accepted.len();
            let mut j: usize = 0;
            let mut dup = false;
            while j < m
                invariant
                    m == accepted@.len(),
                    j <= m,
                    n <= sources@.len(),
                    i < n,
                    forall|k: int| 0 <= k < accepted@.len() ==> #[trigger] accepted@[k] < i,
                    !dup ==> forall|k: int| 0 <= k < j ==> sums[#[trigger] accepted@[k] as int] != sums[i as int],
                    dup ==> exists|k: int| 0 <= k < m && sums[#[trigger] accepted@[k] as int] == sums[i as int],
                    sums == batch_sums(sources@),
                decreases m - j,
            {
                if !dup && sources[accepted[j]].blake3.same(&sources[i].blake3) {
                    dup = true;
                    assert(sums[accepted@[j as int] as int] == sums[i as int]);
                }
                j += 1;
            }
            if dup {
                proof {
                    let k = choose|k: int| 0 <= k < m && sums[#[trigger] accepted@[k] as int] == sums[i as int];
                    assert(acc[k] == accepted@[k]);
                    assert(screen(t, sums) == Err::<Seq<int>, int>(i as int));
                    assert(screen(found@.take(n as int), sums) == Err::<Seq<int>, int>(i as int)) by {
                        lemma_screen_err_stays(found@, sums, i as int + 1, n as int, i as int);
                    }
                    assert(found@.take(n as int) =~= found@);
                }
                let name = sources[i].filename.to_text();
                let a = concat("Skipping duplicate file '", name.as_str());
                let message = concat(a.as_str(), "' with hash already seen in this batch");
                return Err(Error::Filesystem { message });
            }
            proof {
                assert forall|k: int| 0 <= k < acc.len() implies sums[#[trigger] acc[k]] != sums[i as int] by {
                    assert(acc[k] == accepted@[k]);
                }
            }
            accepted.push(i);
        }
        i += 1;
    }
    assert(found@.take(n as int) =~= found@);
    Ok(accepted)
}

/// What adding a batch of files does next.
#[derive(Debug)]
pub enum AddStep {
    /// Ask, in a checking run, whether source `i` would be brought in.
    Check(usize),
    /// Bring source `i` in for real.
    Run(usize),
    /// Commit what was staged, with the subject "Track new asset(s)".
    Commit,
    /// Stop, with nothing more to do (a dry run changes nothing).
    Done,
    /// Stop with this error.
    Fail(Error),
}

/// The next step of adding `sources`, given the answers of the checking
/// runs so far (`found`, one per source checked, in order) and how many
/// accepted sources were already brought in (`ran`). Every source is
/// checked first, and a source whose checksum an earlier accepted source
/// of the batch has stops the batch at once. Then, unless this is a dry
/// run, the accepted sources are brought in, in order, and the change is
/// committed; a dry run checks everything and changes nothing.
pub fn add_step(dry_run: bool, sources: &Vec<LocalFile>, found: &Vec<bool>, ran: usize) -> (r: AddStep)
    requires
        found@.len() <= sources@.len(),
    ensures
        match screen(found@, batch_sums(sources@)) {
            Err(i) => r matches AddStep::Fail(e) && is_filesystem_error(
                e,
                duplicate_in_batch_message(sources@[i].filename@),
            ),
            Ok(acc) => if found@.len() < sources@.len() {
                r matches AddStep::Check(i) && i == found@.len()
            } else if dry_run {
                r is Done
            } else if ran < acc.len() {
                r matches AddStep::Run(i) && i == acc[ran as int]
            } else {
                r is Commit
            },
        },
{
    let accepted = match screen_batch(sources, found) {
        Ok(v) => v,
        Err(e) => {
            return AddStep::Fail(e);
        },
    };
    if found.len() < sources.len() {
        AddStep::Check(found.len())
    } else if dry_run {
        AddStep::Done
    } else if ran < accepted.len() {
        AddStep::Run(accepted[ran])
    } else {
        AddStep::Commit
    }
}

/// The asset a real run of bringing a source in gave; a real run that
/// brings in nothing, after the checking run accepted the source, is
/// refused.
pub fn settle_run(outcome: Option<Asset>) -> (r: Result<Asset, Error>)
    ensures
        match outcome {
            Some(a) => r matches Ok(b) && b@ == a@,
            None => r matches Err(e) && is_filesystem_error(e, "Something went south with wet run!"@),
        },
{
    match outcome {
        Some(a) => Ok(a),
        None => Err(Error::Filesystem { message: owned("Something went south with wet run!") }),
    }
}

proof fn lemma_screen_err_stays(found: Seq<bool>, sums: Seq<Seq<u8>>, a: int, b: int, i: int)
    requires
        0 <= a <= b <= found.len(),
        screen(found.take(a), sums) == Err::<Seq<int>, int>(i),
    ensures
        screen(found.take(b), sums) == Err::<Seq<int>, int>(i),
    decreases b - a,
{
    if a < b {
        let t = found.take(a + 1);
        assert(t.drop_last() =~= found.take(a));
        lemma_screen_err_stays(found, sums, a + 1, b, i);
    }
}


/// A screened batch brings in only sources a checking run accepted, in
/// their order, and no two of them have the same checksum.
pub proof fn law_screen_distinct(found: Seq<bool>, sums: Seq<Seq<u8>>)
    requires
        found.len() <= sums.len(),
    ensures
        screen(found, sums) matches Ok(acc) ==> {
            &&& forall|k: int| 0 <= k < acc.len() ==> 0 <= #[trigger] acc[k] < found.len() && found[acc[k]]
            &&& forall|k: int, l: int| 0 <= k < l < acc.len() ==> #[trigger] acc[k] < #[trigger] acc[l]
            &&& forall|k: int, l: int|
                0 <= k < l < acc.len() ==> sums[#[trigger] acc[k]] != sums[#[trigger] acc[l]]
        },
    decreases found.len(),
{
    if found.len() > 0 {
        let f1 = found.drop_last();
        law_screen_distinct(f1, sums);
        let i = found.len() - 1;
        match screen(f1, sums) {
            Ok(acc) => {
                if found[i] && !(exists|j: int| 0 <= j < acc.len() && sums[#[trigger] acc[j]] == sums[i]) {
                    let acc2 = acc.push(i);
                    assert forall|k: int| 0 <= k < acc2.len() implies 0 <= #[trigger] acc2[k] < found.len()
                        && found[acc2[k]] by {
                        if k < acc.len() {
                            assert(acc2[k] == acc[k]);
                            assert(f1[acc[k]] == found[acc[k]]);
                        }
                    }
                    assert forall|k: int, l: int| 0 <= k < l < acc2.len() implies sums[#[trigger] acc2[k]]
                        != sums[#[trigger] acc2[l]] by {
                        if l == acc.len() {
                            assert(acc2[k] == acc[k]);
                        } else {
                            assert(acc2[k] == acc[k] && acc2[l] == acc[l]);
                        }
                    }
                    assert forall|k: int, l: int| 0 <= k < l < acc2.len() implies #[trigger] acc2[k]
                        < #[trigger] acc2[l] by {
                        assert(acc2[k] == acc[k]);
                        if l < acc.len() {
                            assert(acc2[l] == acc[l]);
                        }
                    }
                } else {
                    assert forall|k: int| 0 <= k < acc.len() implies 0 <= #[trigger] acc[k] < found.len()
                        && found[acc[k]] by {
                        assert(f1[acc[k]] == found[acc[k]]);
                    }
                }
            },
            Err(_) => {},
        }
    }
}


/// The storage driver a configuration asks for.
pub fn storage_driver(config: &Config) -> (r: Result<StorageDriver, Error>)
    ensures
        match config.storage {
            Some(d) => r == Ok::<StorageDriver, Error>(d),
            None => r matches Err(e) && e is NoStorageConfigured,
        },
{
    match config.storage {
        Some(d) => Ok(d),
        None => Err(Error::NoStorageConfigured),
    }
}

/// The first position whose checksum came earlier in `sums`, if any.
pub open spec fn first_repeat(sums: Seq<Seq<u8>>) -> Option<int>
    decreases sums.len(),
{
    if sums.len() == 0 {
        None
    } else {
        match first_repeat(sums.drop_last()) {
            Some(i) => Some(i),
            None => if exists|j: int| 0 <= j < sums.len() - 1 && #[trigger] sums[j] == sums.last() {
                Some(sums.len() - 1)
            } else {
                None
            },
        }
    }
}

/// Checks that no two files of a batch have the same checksum; the first
/// file whose checksum came earlier is refused.
pub fn check_batch_checksums(sources: &Vec<LocalFile>) -> (r: Result<(), Error>)
    ensures
        match first_repeat(batch_sums(sources@)) {
            None => r is Ok,
            Some(i) => r matches Err(e) && (e matches Error::AssetHashExists { id } && id@
                == render(sources@[i].filename@)),
        },
{
    let n = sources.len();
    let ghost sums = batch_sums(sources@);
    let mut i: usize = 0;
    assert(sums.take(0) =~= Seq::<Seq<u8>>::empty());
    while i < n
        invariant
            n == sources@.len(),
            i <= n,
            sums == batch_sums(sources@),
            first_repeat(sums.take(i as int)) is None,
        decreases n - i,
    {
        let mut j: usize = 0;
        let mut dup = false;
        while j < i
            invariant
                n == sources@.len(),
                i < n,
                j <= i,
                sums == batch_sums(sources@),
                !dup ==> forall|k: int| 0 <= k < j ==> sums[k] != sums[i as int],
                dup ==> exists|k: int| 0 <= k < i && sums[k] == sums[i as int],
            decreases i - j,
        {
            if !dup && sources[j].blake3.same(&sources[i].blake3) {
                dup = true;
                assert(sums[j as int] == sums[i as int]);
            }
            j += 1;
        }
        let ghost t = sums.take(i + 1);
        assert(t.drop_last() =~= sums.take(i as int));
        assert(t.last() == sums[i as int]);
        if dup {
            proof {
                let k = choose|k: int| 0 <= k < i && sums[k] == sums[i as int];
                assert(t[k] == sums[k]);
                assert(first_repeat(t) == Some(i as int));
                lemma_first_repeat_stays(sums, i as int + 1, n as int, i as int);
                assert(sums.take(n as int) =~= sums);
            }
            return Err(Error::AssetHashExists { id: sources[i].filename.to_text() });
        }
        proof {
            assert forall|k: int| 0 <= k < t.len() - 1 implies #[trigger] t[k] != t.last() by {
                assert(t[k] == sums[k]);
            }
        }
        i += 1;
    }
    assert(sums.take(n as int) =~= sums);
    Ok(())
}

proof fn lemma_first_repeat_stays(sums: Seq<Seq<u8>>, a: int, b: int, i: int)
    requires
        0 <= a <= b <= sums.len(),
        first_repeat(sums.take(a)) == Some(i),
    ensures
        first_repeat(sums.take(b)) == Some(i),
    decreases b - a,
{
    if a < b {
        let t = sums.take(a + 1);
        assert(t.drop_last() =~= sums.take(a));
        lemma_first_repeat_stays(sums, a + 1, b, i);
    }
}

} // verus!
