//! Where the blessed and generated documents come from, as chosen by the
//! command-line arguments and the environment.

use vstd::prelude::*;
use crate::text::{chars_of, string_from_chars};
use crate::vcs::VcsRevision;

verus! {

/// The default upstream branch for Git.
pub const DEFAULT_GIT_BRANCH: &'static str = "origin/main";

/// The default upstream revset for Jujutsu.
pub const DEFAULT_JJ_REVSET: &'static str = "trunk()";

/// The version control system of the repository.
#[derive(Debug, Clone, Copy, PartialEq, Eq, Structural)]
pub enum RepoVcsKind {
    Git,
    Jj,
}

fn copy_str(s: &str) -> (res: String)
    ensures
        res@ == s@,
{
    let cs = chars_of(s);
    string_from_chars(cs.as_slice())
}

/// The default blessed branch (or revset) for the repository's system.
pub fn default_blessed_branch(kind: RepoVcsKind, git_branch: &str, jj_revset: &str) -> (res: String)
    ensures
        res@ == match kind {
            RepoVcsKind::Git => git_branch@,
            RepoVcsKind::Jj => jj_revset@,
        },
{
    match kind {
        RepoVcsKind::Git => copy_str(git_branch),
        RepoVcsKind::Jj => copy_str(jj_revset),
    }
}

/// Where the blessed documents come from.
#[derive(Debug, Clone, PartialEq, Eq)]
pub enum BlessedSource {
    /// The merge base between the working state and `revision`, in
    /// `directory`.
    VcsRevisionMergeBase { revision: VcsRevision, directory: String },
    /// This local directory (for testing and debugging).
    Directory { local_directory: String },
}

/// Where the generated documents come from.
#[derive(Debug, Clone, PartialEq, Eq)]
pub enum GeneratedSource {
    /// Generated from the API definitions.
    Generated,
    /// Loaded from this local directory.
    Directory { local_directory: String },
}

/// The text of an optional string.
pub open spec fn opt_view(o: Option<String>) -> Option<Seq<char>> {
    match o {
        Some(s) => Some(s@),
        None => None,
    }
}

impl GeneratedSource {
    /// The generated source chosen by `--generated-from-dir`.
    pub fn from_dir(generated_from_dir: Option<String>) -> (res: GeneratedSource)
        ensures
            res == match generated_from_dir {
                Some(d) => GeneratedSource::Directory { local_directory: d },
                None => GeneratedSource::Generated,
            },
    {
        match generated_from_dir {
            Some(local_directory) => GeneratedSource::Directory { local_directory },
            None => GeneratedSource::Generated,
        }
    }
}

/// The revision to take blessed documents from: the command-line value
/// (or its environment variable, which the argument parser reads) first,
/// then the legacy environment variable; `None` means the default branch.
pub fn resolve_blessed_from_vcs(cli_value: Option<&str>, legacy_env: Option<String>) -> (res: Option<String>)
    ensures
        opt_view(res) == match cli_value {
            Some(v) => Some(v@),
            None => opt_view(legacy_env),
        },
{
    match cli_value {
        Some(v) => Some(copy_str(v)),
        None => legacy_env,
    }
}

/// The blessed source chosen by the arguments: the directory if one was
/// given; otherwise the merge base with the resolved revision (or the
/// default branch), in the given path or else the documents' directory
/// relative to the repository root.
pub fn to_blessed_source(
    blessed_from_dir: Option<String>,
    blessed_from_vcs: Option<&str>,
    legacy_env: Option<String>,
    blessed_from_vcs_path: Option<String>,
    default_blessed_branch: &str,
    openapi_rel_dir: &str,
) -> (res: BlessedSource)
    requires
        blessed_from_dir is None || blessed_from_vcs is None,
    ensures
        match blessed_from_dir {
            Some(d) => res == BlessedSource::Directory { local_directory: d },
            None => match res {
                BlessedSource::VcsRevisionMergeBase { revision, directory } => {
                    &&& revision.0@ == match blessed_from_vcs {
                        Some(v) => v@,
                        None => match legacy_env {
                            Some(e) => e@,
                            None => default_blessed_branch@,
                        },
                    }
                    &&& directory@ == match blessed_from_vcs_path {
                        Some(p) => p@,
                        None => openapi_rel_dir@,
                    }
                },
                BlessedSource::Directory { .. } => false,
            },
        },
{
    if let Some(local_directory) = blessed_from_dir {
        return BlessedSource::Directory { local_directory };
    }
    let resolved = resolve_blessed_from_vcs(blessed_from_vcs, legacy_env);
    let revision = match resolved {
        Some(r) => r,
        None => copy_str(default_blessed_branch),
    };
    let directory = match blessed_from_vcs_path {
        Some(p) => p,
        None => copy_str(openapi_rel_dir),
    };
    BlessedSource::VcsRevisionMergeBase { revision: VcsRevision(revision), directory }
}

} // verus!
