//! Version tracking of the files a store changes: whether the work tree is
//! clean enough to start, what to stage, and what to commit.

use vstd::prelude::*;
use crate::config::Config;
use crate::error::Error;
use crate::paths::{FsPath, render};
use crate::storage::{is_filesystem_error, is_in_project, path_relative_to_prefix, relative_to_prefix};
use crate::paths::spec_starts_with;
use crate::template::{CommitMessage, TemplateString};
use crate::text::{concat, owned};

verus! {

/// The index part of a file's status in the repository.
#[derive(Clone, Copy, Debug)]
pub struct EntryStatus {
    pub index_new: bool,
    pub index_modified: bool,
    pub index_deleted: bool,
}

/// Some entry has a change staged in the index.
pub open spec fn any_staged(s: Seq<EntryStatus>) -> bool {
    exists|i: int|
        0 <= i < s.len() && ((#[trigger] s[i]).index_new || s[i].index_modified || s[i].index_deleted)
}

/// Whether some entry has a change staged.
pub fn has_staged(statuses: &Vec<EntryStatus>) -> (r: bool)
    ensures
        r == any_staged(statuses@),
{
    let n = statuses.len();
    let mut i: usize = 0;
    while i < n
        invariant
            n == statuses@.len(),
            i <= n,
            forall|j: int|
                0 <= j < i ==> !(#[trigger] statuses@[j]).index_new && !statuses@[j].index_modified
                    && !statuses@[j].index_deleted,
        decreases n - i,
    {
        let s = statuses[i];
        if s.index_new || s.index_modified || s.index_deleted {
            assert(statuses@[i as int].index_new || statuses@[i as int].index_modified
                || statuses@[i as int].index_deleted);
            return true;
        }
        i += 1;
    }
    false
}

/// The message for a repository with staged changes.
pub open spec fn staged_changes_message() -> Seq<char> {
    "Git repository has staged changes. Please commit or unstage them first."@
}

/// The message for a repository without working directory.
pub open spec fn no_workdir_message() -> Seq<char> {
    "Git repository has no working directory"@
}

/// The text a commit is made with: the message and a trailer.
pub open spec fn commit_text(msg: Seq<char>) -> Seq<char> {
    msg + "\n\nAssisted-by: Acceptarium"@
}

/// The paths to stage: those inside the work tree, each relative to the
/// current directory; the others are left out.
pub open spec fn staged_paths(paths: Seq<Seq<Seq<char>>>, workdir: Seq<Seq<char>>, cwd: Seq<Seq<char>>) -> Seq<
    Seq<Seq<char>>,
>
    decreases paths.len(),
{
    if paths.len() == 0 {
        seq![]
    } else {
        let rest = staged_paths(paths.drop_last(), workdir, cwd);
        if spec_starts_with(paths.last(), workdir) {
            rest.push(relative_to_prefix(paths.last(), cwd))
        } else {
            rest
        }
    }
}

/// The views of a list of paths.
pub open spec fn path_views(v: Seq<FsPath>) -> Seq<Seq<Seq<char>>> {
    v.map_values(|p: FsPath| p@)
}

/// What a tracker does with the changes a store makes.
pub trait StorageTracker {
    /// Whether work may start, given whether the user allows a dirty tree
    /// and whether changes are staged.
    fn is_clean(&self, dirty: bool, staged: bool) -> Result<(), Error>;

    /// The paths to add to the index (none when the tracker stages
    /// nothing), given the work tree and the current directory.
    fn stage_paths(&self, paths: &Vec<FsPath>, workdir: Option<&FsPath>, cwd: &FsPath) -> Result<
        Option<Vec<FsPath>>,
        Error,
    >;

    /// The text to commit the staged changes with (none when the tracker
    /// does not commit).
    fn commit_staged(&self, subject: &str) -> Result<Option<String>, Error>;
}

/// Changes tracked in Git: staged and committed automatically as configured.
#[derive(Debug)]
pub struct GitTracker {
    pub stage: bool,
    pub commit: bool,
}

impl GitTracker {
    /// The tracker of a configuration; fails when it has no Git section.
    pub fn new(config: &Config) -> (r: Result<GitTracker, Error>)
        ensures
            match config.git {
                Some(g) => r matches Ok(t) && t.stage == g.stage && t.commit == g.commit,
                None => r matches Err(e) && (e matches Error::MissingVcsConfig { driver } && driver@
                    == "gittracker"@),
            },
    {
        match &config.git {
            Some(g) => Ok(GitTracker { stage: g.stage, commit: g.commit }),
            None => Err(Error::MissingVcsConfig { driver: owned("gittracker") }),
        }
    }
}

impl StorageTracker for GitTracker {
    /// Work may start unless changes are staged and a dirty tree is not
    /// allowed.
    fn is_clean(&self, dirty: bool, staged: bool) -> (r: Result<(), Error>)
        ensures
            r is Ok <==> (!staged || dirty),
            r matches Err(e) ==> is_filesystem_error(e, staged_changes_message()),
    {
        if dirty && staged {
            return Ok(());
        }
        if staged {
            Err(Error::Filesystem {
                message: owned(
                    "Git repository has staged changes. Please commit or unstage them first.",
                ),
            })
        } else {
            Ok(())
        }
    }

    /// The paths inside the work tree, relative to the current directory
    /// (see `staged_paths`); nothing when staging is off; an error when
    /// the repository has no work tree.
    fn stage_paths(&self, paths: &Vec<FsPath>, workdir: Option<&FsPath>, cwd: &FsPath) -> (r:
        Result<Option<Vec<FsPath>>, Error>)
        ensures
            !self.stage ==> r matches Ok(None),
            self.stage ==> match workdir {
                None => r matches Err(e) && is_filesystem_error(e, no_workdir_message()),
                Some(w) => r matches Ok(Some(v)) && path_views(v@) == staged_paths(
                    path_views(paths@),
                    w@,
                    cwd@,
                ),
            },
    {
        if !self.stage {
            return Ok(None);
        }
        let project_dir = match workdir {
            Some(w) => w,
            None => {
                return Err(
                    Error::Filesystem { message: owned("Git repository has no working directory") },
                );
            },
        };
        let mut out: Vec<FsPath> = Vec::new();
        let n = paths.len();
        let mut i: usize = 0;
        assert(path_views(paths@).take(0) =~= Seq::<Seq<Seq<char>>>::empty());
        while i < n
            invariant
                n == paths@.len(),
                i <= n,
                path_views(out@) == staged_paths(path_views(paths@).take(i as int), project_dir@, cwd@),
            decreases n - i,
        {
            let ghost before = path_views(out@);
            let ghost t = path_views(paths@).take(i + 1);
            assert(t.drop_last() =~= path_views(paths@).take(i as int));
            assert(t.last() == paths@[i as int]@);
            if is_in_project(&paths[i], project_dir) {
                let p = path_relative_to_prefix(&paths[i], cwd);
                out.push(p);
                assert(path_views(out@) =~= before.push(relative_to_prefix(paths@[i as int]@, cwd@)));
            }
            i += 1;
        }
        assert(path_views(paths@).take(n as int) =~= path_views(paths@));
        Ok(Some(out))
    }

    /// The message with the trailer when committing is on; nothing (the
    /// user is told to commit) when it is off.
    fn commit_staged(&self, subject: &str) -> (r: Result<Option<String>, Error>)
        ensures
            self.commit ==> (r matches Ok(Some(t)) && t@ == commit_text(subject@)),
            !self.commit ==> r matches Ok(None),
    {
        if self.commit {
            Ok(Some(concat(subject, "\n\nAssisted-by: Acceptarium")))
        } else {
            Ok(None)
        }
    }
}

/// Changes left for the user to track.
#[derive(Debug)]
pub struct ManualTracker {}

/// A commit message template read from JSON text.
/// Trusted: `serde_json::from_str` into a string. Its source reads a value
/// that begins with `[` as a sequence, which a string cannot be made from,
/// so such text always fails; nothing else is promised.
#[verifier::external_body]
fn template_from_json(text: &str) -> (r: Result<TemplateString, Error>)
    ensures
        text@.len() > 0 && text@[0] == '[' ==> r is Err,
        r matches Err(e) ==> e is SerdeJson,
{
    match serde_json::from_str::<String>(text) {
        Ok(s) => Ok(TemplateString(s)),
        Err(e) => Err(Error::SerdeJson { message: e.to_string() }),
    }
}

impl StorageTracker for ManualTracker {
    /// Work may always start.
    fn is_clean(&self, dirty: bool, staged: bool) -> (r: Result<(), Error>)
        ensures
            r is Ok,
    {
        Ok(())
    }

    /// Nothing is staged (the user is told what to add).
    fn stage_paths(&self, paths: &Vec<FsPath>, workdir: Option<&FsPath>, cwd: &FsPath) -> (r:
        Result<Option<Vec<FsPath>>, Error>)
        ensures
            r matches Ok(None),
    {
        Ok(None)
    }

    /// Composes the suggested commit message from its template, which is
    /// read as JSON text and so is refused: the result is that error.
    fn commit_staged(&self, subject: &str) -> (r: Result<Option<String>, Error>)
        ensures
            r matches Err(e) && e is SerdeJson,
    {
        proof {
            reveal_strlit("[acceptarium] {{ subject }}");
        }
        let template = template_from_json("[acceptarium] {{ subject }}")?;
        let mut msg = CommitMessage::new(template);
        msg.subject = Some(owned(subject));
        let _ = msg.render()?;
        Ok(None)
    }
}

} // verus!
