//! Status classification: each working-tree file is untracked, staged or
//! modified, by comparing the digest of its content with the staged one.
use crate::commands::ExecutableCommand;
use crate::error::KvcError;
use crate::hashing::{digest_of, generate_hash};
use crate::locator::{strip_root, strip_root_prefix};
use crate::staging_area::StagingArea;
use vstd::prelude::*;

verus! {

/// Where a working-tree file stands against the staging index.
#[derive(Clone, Copy, Debug, PartialEq, Eq, Hash, Structural)]
pub enum FileStatus {
    /// The index has no entry for its path.
    Untracked,
    /// The index holds the digest of its current content.
    Staged,
    /// The index holds another digest.
    Modified,
}

/// The status of a file whose content has `digest`, given what the index
/// holds for its path.
pub open spec fn classify(staged: Option<Seq<char>>, digest: Seq<char>) -> FileStatus {
    match staged {
        None => FileStatus::Untracked,
        Some(d) => if d == digest {
            FileStatus::Staged
        } else {
            FileStatus::Modified
        },
    }
}

/// The status of the file at `relative_path` whose content has digest
/// `file_hash`.
pub fn file_status(index: &StagingArea, relative_path: &str, file_hash: &str) -> (r: FileStatus)
    requires
        index.wf(),
    ensures
        r == classify(index@.get(relative_path@), file_hash@),
{
    match index.get(relative_path) {
        None => FileStatus::Untracked,
        Some(staged) => {
            let h = file_hash.to_owned();
            if staged == h {
                FileStatus::Staged
            } else {
                FileStatus::Modified
            }
        },
    }
}

/// The text of each path in a list.
pub open spec fn path_views(paths: Seq<String>) -> Seq<Seq<char>> {
    paths.map_values(|p: String| p@)
}

/// The repository-relative paths of the working tree, by status.
pub struct StatusReport {
    pub untracked: Vec<String>,
    pub staged: Vec<String>,
    pub modified: Vec<String>,
}

impl StatusReport {
    /// A report with no file in it.
    pub fn new() -> (r: StatusReport)
        ensures
            r.untracked@.len() == 0,
            r.staged@.len() == 0,
            r.modified@.len() == 0,
    {
        StatusReport { untracked: Vec::new(), staged: Vec::new(), modified: Vec::new() }
    }

    /// Whether no file at all was reported.
    pub fn is_empty(&self) -> (r: bool)
        ensures
            r == (self.untracked@.len() == 0 && self.staged@.len() == 0 && self.modified@.len()
                == 0),
    {
        self.untracked.len() == 0 && self.staged.len() == 0 && self.modified.len() == 0
    }

    /// Adds `path` to the list for `status`, leaving the other lists as they
    /// were.
    pub fn record(&mut self, path: String, status: FileStatus)
        ensures
            final(self).untracked@ == if status == FileStatus::Untracked {
                old(self).untracked@.push(path)
            } else {
                old(self).untracked@
            },
            final(self).staged@ == if status == FileStatus::Staged {
                old(self).staged@.push(path)
            } else {
                old(self).staged@
            },
            final(self).modified@ == if status == FileStatus::Modified {
                old(self).modified@.push(path)
            } else {
                old(self).modified@
            },
    {
        match status {
            FileStatus::Untracked => self.untracked.push(path),
            FileStatus::Staged => self.staged.push(path),
            FileStatus::Modified => self.modified.push(path),
        }
    }
}

/// Whether a repository-relative path lies in the metadata folder, which the
/// status walk leaves out.
pub open spec fn in_metadata_folder(relative: Seq<char>) -> bool {
    strip_root(".kvc"@, relative) is Some
}

/// Classifies the working tree of one repository.
pub struct StatusCommand {
    root_path: String,
}

impl StatusCommand {
    pub closed spec fn root(&self) -> Seq<char> {
        self.root_path@
    }

    /// The repository root.
    pub fn root_path(&self) -> (r: &String)
        ensures
            r@ == self.root(),
    {
        &self.root_path
    }

    /// Whether the walk skips the entry at `relative`: the metadata folder
    /// and everything in it.
    pub fn skips(relative: &str) -> (r: bool)
        ensures
            r == in_metadata_folder(relative@),
    {
        strip_root_prefix(".kvc", relative).is_some()
    }

    /// Classifies the file at `path`, inside the repository root, whose
    /// content is `file_content`, and adds its repository-relative path to
    /// the matching list of `files`. Fails with `InvalidPath`, changing
    /// nothing, when `path` is not inside the root.
    pub fn process_file(
        &self,
        path: &str,
        file_content: &[u8],
        index: &StagingArea,
        files: &mut StatusReport,
    ) -> (r: Result<(), KvcError>)
        requires
            index.wf(),
        ensures
            match strip_root(self.root(), path@) {
                Some(rel) => r is Ok && {
                    let s = classify(index@.get(rel), digest_of(file_content@));
                    &&& path_views(final(files).untracked@) == if s == FileStatus::Untracked {
                        path_views(old(files).untracked@).push(rel)
                    } else {
                        path_views(old(files).untracked@)
                    }
                    &&& path_views(final(files).staged@) == if s == FileStatus::Staged {
                        path_views(old(files).staged@).push(rel)
                    } else {
                        path_views(old(files).staged@)
                    }
                    &&& path_views(final(files).modified@) == if s == FileStatus::Modified {
                        path_views(old(files).modified@).push(rel)
                    } else {
                        path_views(old(files).modified@)
                    }
                },
                None => r == Err::<(), KvcError>(KvcError::InvalidPath) && path_views(
                    final(files).untracked@,
                ) == path_views(old(files).untracked@) && path_views(final(files).staged@)
                    == path_views(old(files).staged@) && path_views(final(files).modified@)
                    == path_views(old(files).modified@),
            },
    {
        let relative = match strip_root_prefix(self.root_path.as_str(), path) {
            Some(rel) => rel,
            None => {
                return Err(KvcError::InvalidPath);
            },
        };
        let file_hash = generate_hash(file_content);
        let status = file_status(index, relative.as_str(), file_hash.as_str());
        let ghost old_files = *files;
        let ghost rel = relative@;
        files.record(relative, status);
        assert(path_views(files.untracked@) =~= if status == FileStatus::Untracked {
            path_views(old_files.untracked@).push(rel)
        } else {
            path_views(old_files.untracked@)
        });
        assert(path_views(files.staged@) =~= if status == FileStatus::Staged {
            path_views(old_files.staged@).push(rel)
        } else {
            path_views(old_files.staged@)
        });
        assert(path_views(files.modified@) =~= if status == FileStatus::Modified {
            path_views(old_files.modified@).push(rel)
        } else {
            path_views(old_files.modified@)
        });
        Ok(())
    }
}

impl ExecutableCommand for StatusCommand {
    /// Status of the repository at `root_folder`; it takes no arguments.
    fn new(args: Vec<String>, root_folder: String) -> (r: Result<StatusCommand, KvcError>)
        ensures
            r matches Ok(c) && c.root() == root_folder@,
    {
        Ok(StatusCommand { root_path: root_folder })
    }
}

/// Status classification: a file staged at the digest of its content is
/// staged; once its content changes to one with another digest it is
/// modified; a path that was never added is untracked.
pub proof fn lemma_status_classification(
    index: Map<Seq<char>, Seq<char>>,
    path: Seq<char>,
    x: Seq<u8>,
    y: Seq<u8>,
)
    ensures
        classify(index.insert(path, digest_of(x)).get(path), digest_of(x)) == FileStatus::Staged,
        digest_of(y) != digest_of(x) ==> classify(
            index.insert(path, digest_of(x)).get(path),
            digest_of(y),
        ) == FileStatus::Modified,
        !index.contains_key(path) ==> classify(index.get(path), digest_of(x))
            == FileStatus::Untracked,
{
}

} // verus!
