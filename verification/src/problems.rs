//! Problems found while comparing the blessed, generated and local
//! OpenAPI documents of an API, and the fixes that resolve them.

use vstd::prelude::*;
use crate::compat::ApiCompatIssue;
use crate::names::{ApiIdent, ApiSpecFileName, SemVersion, VersionedApiSpecFileName};
use crate::text::{chars_of, push_chars, string_from_chars};

verus! {

/// A commit hash, as hexadecimal text.
#[derive(Debug, Clone, PartialEq, Eq)]
pub struct CommitHash {
    /// The hexadecimal digits of the hash.
    pub hex: String,
}

impl CommitHash {
    /// A copy of this hash.
    pub fn duplicate(&self) -> (res: Self)
        ensures
            res == *self,
    {
        CommitHash { hex: self.hex.clone() }
    }

    /// True when both hashes have the same text.
    pub fn same_as(&self, other: &CommitHash) -> (res: bool)
        ensures
            res == (self.hex@ == other.hex@),
    {
        self.hex == other.hex
    }
}

/// A reference to a document in version control history: the commit in
/// which it was first introduced and its path in the repository.
#[derive(Debug, Clone, PartialEq, Eq)]
pub struct GitStubRef {
    /// The commit.
    pub commit: CommitHash,
    /// The path within the repository.
    pub path: String,
}

impl GitStubRef {
    /// A copy of this reference.
    pub fn duplicate(&self) -> (res: Self)
        ensures
            res == *self,
    {
        GitStubRef { commit: self.commit.duplicate(), path: self.path.clone() }
    }
}

fn dup_opt_stub(g: &Option<GitStubRef>) -> (res: Option<GitStubRef>)
    ensures
        res == *g,
{
    match g {
        Some(x) => Some(x.duplicate()),
        None => None,
    }
}

/// Copies a byte vector.
pub fn copy_bytes(v: &Vec<u8>) -> (res: Vec<u8>)
    ensures
        res@ == v@,
{
    let mut out: Vec<u8> = Vec::new();
    let mut i: usize = 0;
    while i < v.len()
        invariant
            i <= v@.len(),
            out@ == v@.subrange(0, i as int),
        decreases v@.len() - i,
    {
        out.push(v[i]);
        i = i + 1;
        assert(v@.subrange(0, i as int) == v@.subrange(0, i - 1).push(v@[i - 1]));
    }
    assert(v@.subrange(0, v@.len() as int) == v@);
    out
}

/// An extra file associated with an API whose contents on disk differ from
/// what validation produced.
#[derive(Debug, Clone, PartialEq, Eq)]
pub enum CheckStale {
    /// The file exists with different contents.
    Modified { full_path: String, actual: Vec<u8>, expected: Vec<u8> },
    /// The file does not exist.
    New { expected: Vec<u8> },
}

/// Abstract value of a stale-file report.
pub open spec fn stale_view(c: CheckStale) -> (bool, Seq<char>, Seq<u8>, Seq<u8>) {
    match c {
        CheckStale::Modified { full_path, actual, expected } => (
            true,
            full_path@,
            actual@,
            expected@,
        ),
        CheckStale::New { expected } => (false, seq![], seq![], expected@),
    }
}

impl CheckStale {
    /// A copy of this report.
    pub fn duplicate(&self) -> (res: Self)
        ensures
            stale_view(res) == stale_view(*self),
    {
        match self {
            CheckStale::Modified { full_path, actual, expected } => CheckStale::Modified {
                full_path: full_path.clone(),
                actual: copy_bytes(actual),
                expected: copy_bytes(expected),
            },
            CheckStale::New { expected } => CheckStale::New { expected: copy_bytes(expected) },
        }
    }
}

/// Identifies the kind of a problem.
#[derive(Clone, Copy, Debug, Eq, PartialEq, Structural, Hash)]
pub enum ProblemKind {
    LocalSpecFileOrphaned,
    UnparseableLocalFile,
    BlessedVersionMissingLocal,
    BlessedVersionExtraLocalSpec,
    BlessedVersionCompareError,
    BlessedVersionBroken,
    BlessedLatestVersionBytewiseMismatch,
    LockstepMissingLocal,
    LockstepStale,
    LocalVersionMissingLocal,
    LocalVersionExtra,
    LocalVersionStale,
    GeneratedSourceMissing,
    GeneratedValidationError,
    ExtraFileStale,
    LatestLinkMissing,
    LatestLinkStale,
    BlessedVersionShouldBeGitStub,
    GitStubShouldBeJson,
    BlessedVersionCorruptedLocal,
    DuplicateLocalFile,
    GitStubCommitStale,
    GitStubFirstCommitUnknown,
}

/// A problem found while resolving the documents of one API version (or of
/// no particular version).
#[derive(Debug)]
#[allow(inconsistent_fields)]
pub enum Problem {
    /// A local versioned document does not correspond to a supported version.
    LocalSpecFileOrphaned { spec_file_name: VersionedApiSpecFileName },
    /// A local document could not be parsed.
    UnparseableLocalFile { path: String },
    /// A blessed, supported version has no local document.
    BlessedVersionMissingLocal { blessed: VersionedApiSpecFileName, git_stub: Option<GitStubRef> },
    /// A local document for a blessed version does not match the blessed one.
    BlessedVersionExtraLocalSpec { spec_file_name: VersionedApiSpecFileName },
    /// Comparing the generated document with the blessed one failed.
    BlessedVersionCompareError { error: String },
    /// The generated document is not compatible with the blessed one.
    BlessedVersionBroken { compatibility_issues: Vec<ApiCompatIssue> },
    /// For the latest blessed version, the generated document is compatible
    /// but not bytewise identical.
    BlessedLatestVersionBytewiseMismatch {
        blessed: VersionedApiSpecFileName,
        generated: ApiSpecFileName,
    },
    /// A lockstep API has no local document.
    LockstepMissingLocal { generated: ApiSpecFileName },
    /// A lockstep API's local document differs from the generated one.
    LockstepStale { found: ApiSpecFileName, generated: ApiSpecFileName },
    /// A locally-added version has no local document.
    LocalVersionMissingLocal { generated: ApiSpecFileName },
    /// Extra local documents for a locally-added version.
    LocalVersionExtra { spec_file_names: Vec<VersionedApiSpecFileName> },
    /// The local documents of a locally-added version are stale.
    LocalVersionStale { spec_files: Vec<ApiSpecFileName>, generated: ApiSpecFileName },
    /// No generated document was found for the API.
    GeneratedSourceMissing { api_ident: ApiIdent },
    /// The generated document failed validation.
    GeneratedValidationError { api_ident: ApiIdent, version: SemVersion, source: String },
    /// An extra file produced by validation is stale.
    ExtraFileStale { api_ident: ApiIdent, path: String, check_stale: CheckStale },
    /// The "latest" symlink is missing.
    LatestLinkMissing { api_ident: ApiIdent, link: VersionedApiSpecFileName },
    /// The "latest" symlink points at the wrong document.
    LatestLinkStale {
        api_ident: ApiIdent,
        found: VersionedApiSpecFileName,
        link: VersionedApiSpecFileName,
    },
    /// A blessed non-latest version is stored as JSON but should be a git ref.
    BlessedVersionShouldBeGitStub { local_file: ApiSpecFileName, git_stub: GitStubRef },
    /// A blessed version is stored as a git ref but should be JSON.
    GitStubShouldBeJson { local_file: ApiSpecFileName, blessed: VersionedApiSpecFileName },
    /// The local document of a blessed version is corrupted.
    BlessedVersionCorruptedLocal {
        local_file: ApiSpecFileName,
        blessed: VersionedApiSpecFileName,
        git_stub: Option<GitStubRef>,
    },
    /// Both a JSON document and a git ref exist for the same version.
    DuplicateLocalFile { local_file: ApiSpecFileName },
    /// A git ref names a commit that is no longer the expected one.
    GitStubCommitStale { local_file: ApiSpecFileName, git_stub: GitStubRef },
    /// The first commit of a blessed version could not be determined.
    GitStubFirstCommitUnknown { spec_file_name: VersionedApiSpecFileName, source: String },
}

/// The kind of a problem.
pub open spec fn kind_spec(p: Problem) -> ProblemKind {
    match p {
        Problem::LocalSpecFileOrphaned { .. } => ProblemKind::LocalSpecFileOrphaned,
        Problem::UnparseableLocalFile { .. } => ProblemKind::UnparseableLocalFile,
        Problem::BlessedVersionMissingLocal { .. } => ProblemKind::BlessedVersionMissingLocal,
        Problem::BlessedVersionExtraLocalSpec { .. } => ProblemKind::BlessedVersionExtraLocalSpec,
        Problem::BlessedVersionCompareError { .. } => ProblemKind::BlessedVersionCompareError,
        Problem::BlessedVersionBroken { .. } => ProblemKind::BlessedVersionBroken,
        Problem::BlessedLatestVersionBytewiseMismatch { .. } =>
            ProblemKind::BlessedLatestVersionBytewiseMismatch,
        Problem::LockstepMissingLocal { .. } => ProblemKind::LockstepMissingLocal,
        Problem::LockstepStale { .. } => ProblemKind::LockstepStale,
        Problem::LocalVersionMissingLocal { .. } => ProblemKind::LocalVersionMissingLocal,
        Problem::LocalVersionExtra { .. } => ProblemKind::LocalVersionExtra,
        Problem::LocalVersionStale { .. } => ProblemKind::LocalVersionStale,
        Problem::GeneratedSourceMissing { .. } => ProblemKind::GeneratedSourceMissing,
        Problem::GeneratedValidationError { .. } => ProblemKind::GeneratedValidationError,
        Problem::ExtraFileStale { .. } => ProblemKind::ExtraFileStale,
        Problem::LatestLinkMissing { .. } => ProblemKind::LatestLinkMissing,
        Problem::LatestLinkStale { .. } => ProblemKind::LatestLinkStale,
        Problem::BlessedVersionShouldBeGitStub { .. } => ProblemKind::BlessedVersionShouldBeGitStub,
        Problem::GitStubShouldBeJson { .. } => ProblemKind::GitStubShouldBeJson,
        Problem::BlessedVersionCorruptedLocal { .. } => ProblemKind::BlessedVersionCorruptedLocal,
        Problem::DuplicateLocalFile { .. } => ProblemKind::DuplicateLocalFile,
        Problem::GitStubCommitStale { .. } => ProblemKind::GitStubCommitStale,
        Problem::GitStubFirstCommitUnknown { .. } => ProblemKind::GitStubFirstCommitUnknown,
    }
}

/// Problems of these kinds have no automatic fix.
pub open spec fn unfixable_kind(k: ProblemKind) -> bool {
    k == ProblemKind::BlessedVersionCompareError || k == ProblemKind::BlessedVersionBroken || k
        == ProblemKind::BlessedLatestVersionBytewiseMismatch || k
        == ProblemKind::GeneratedSourceMissing || k == ProblemKind::GeneratedValidationError || k
        == ProblemKind::GitStubFirstCommitUnknown
}

/// A change to the local documents that resolves a problem.
#[derive(Debug)]
#[allow(inconsistent_fields)]
pub enum Fix {
    /// Delete these files.
    DeleteFiles { files: Vec<ApiSpecFileName> },
    /// Rewrite the lockstep document from the generated one.
    UpdateLockstepFile { generated: ApiSpecFileName },
    /// Remove the old files and write the generated document.
    UpdateVersionedFiles { old: Vec<ApiSpecFileName>, generated: ApiSpecFileName },
    /// Write an extra file with its expected contents.
    UpdateExtraFile { path: String, check_stale: CheckStale },
    /// Point the "latest" symlink at `link`.
    UpdateSymlink { api_ident: ApiIdent, link: VersionedApiSpecFileName },
    /// Convert a full JSON file to a git ref.
    ConvertToGitStub { local_file: ApiSpecFileName, git_stub: GitStubRef },
    /// Convert a git ref back to a full JSON file.
    ConvertToJson { local_file: ApiSpecFileName, blessed: VersionedApiSpecFileName },
    /// Regenerate a corrupted local file from the blessed content.
    RegenerateFromBlessed {
        local_file: ApiSpecFileName,
        blessed: VersionedApiSpecFileName,
        git_stub: Option<GitStubRef>,
    },
    /// Restore a missing blessed file, as JSON or as a git ref.
    RestoreFromBlessed { blessed: VersionedApiSpecFileName, git_stub: Option<GitStubRef> },
    /// Update a git ref whose commit has become stale.
    UpdateGitStub { local_file: ApiSpecFileName, git_stub: GitStubRef },
    /// Delete an unparseable file.
    DeleteUnparseableFile { path: String },
}

/// `f` is the fix of problem `p` (or `None` when `p` has no fix).
pub open spec fn fix_spec(p: Problem, f: Option<Fix>) -> bool {
    match p {
        Problem::LocalSpecFileOrphaned { spec_file_name } => f matches Some(
            Fix::DeleteFiles { files },
        ) && files@ == seq![ApiSpecFileName::Versioned(spec_file_name)],
        Problem::UnparseableLocalFile { path } => f matches Some(
            Fix::DeleteUnparseableFile { path: p2 },
        ) && p2@ == path@,
        Problem::BlessedVersionMissingLocal { blessed, git_stub } => f == Some(
            Fix::RestoreFromBlessed { blessed, git_stub },
        ),
        Problem::BlessedVersionExtraLocalSpec { spec_file_name } => f matches Some(
            Fix::DeleteFiles { files },
        ) && files@ == seq![ApiSpecFileName::Versioned(spec_file_name)],
        Problem::BlessedVersionCompareError { .. } => f is None,
        Problem::BlessedVersionBroken { .. } => f is None,
        Problem::BlessedLatestVersionBytewiseMismatch { .. } => f is None,
        Problem::LockstepMissingLocal { generated } => f == Some(
            Fix::UpdateLockstepFile { generated },
        ),
        Problem::LockstepStale { generated, .. } => f == Some(Fix::UpdateLockstepFile { generated }),
        Problem::LocalVersionMissingLocal { generated } => f matches Some(
            Fix::UpdateVersionedFiles { old, generated: g },
        ) && old@.len() == 0 && g == generated,
        Problem::LocalVersionExtra { spec_file_names } => f matches Some(
            Fix::DeleteFiles { files },
        ) && files@ == spec_file_names@.map_values(
            |n: VersionedApiSpecFileName| ApiSpecFileName::Versioned(n),
        ),
        Problem::LocalVersionStale { spec_files, generated } => f matches Some(
            Fix::UpdateVersionedFiles { old, generated: g },
        ) && old@ == spec_files@ && g == generated,
        Problem::GeneratedSourceMissing { .. } => f is None,
        Problem::GeneratedValidationError { .. } => f is None,
        Problem::ExtraFileStale { path, check_stale, .. } => f matches Some(
            Fix::UpdateExtraFile { path: p2, check_stale: c2 },
        ) && p2@ == path@ && stale_view(c2) == stale_view(check_stale),
        Problem::LatestLinkMissing { api_ident, link } => f == Some(
            Fix::UpdateSymlink { api_ident, link },
        ),
        Problem::LatestLinkStale { api_ident, link, .. } => f == Some(
            Fix::UpdateSymlink { api_ident, link },
        ),
        Problem::BlessedVersionShouldBeGitStub { local_file, git_stub } => f == Some(
            Fix::ConvertToGitStub { local_file, git_stub },
        ),
        Problem::GitStubShouldBeJson { local_file, blessed } => f == Some(
            Fix::ConvertToJson { local_file, blessed },
        ),
        Problem::BlessedVersionCorruptedLocal { local_file, blessed, git_stub } => f == Some(
            Fix::RegenerateFromBlessed { local_file, blessed, git_stub },
        ),
        Problem::DuplicateLocalFile { local_file } => f matches Some(Fix::DeleteFiles { files })
            && files@ == seq![local_file],
        Problem::GitStubCommitStale { local_file, git_stub } => f == Some(
            Fix::UpdateGitStub { local_file, git_stub },
        ),
        Problem::GitStubFirstCommitUnknown { .. } => f is None,
    }
}

fn single_name(n: ApiSpecFileName) -> (res: Vec<ApiSpecFileName>)
    ensures
        res@ == seq![n],
{
    let mut v: Vec<ApiSpecFileName> = Vec::new();
    v.push(n);
    v
}

impl Problem {
    /// The kind of this problem.
    pub fn kind(&self) -> (res: ProblemKind)
        ensures
            res == kind_spec(*self),
    {
        match self {
            Problem::LocalSpecFileOrphaned { .. } => ProblemKind::LocalSpecFileOrphaned,
            Problem::UnparseableLocalFile { .. } => ProblemKind::UnparseableLocalFile,
            Problem::BlessedVersionMissingLocal { .. } => ProblemKind::BlessedVersionMissingLocal,
            Problem::BlessedVersionExtraLocalSpec { .. } =>
                ProblemKind::BlessedVersionExtraLocalSpec,
            Problem::BlessedVersionCompareError { .. } => ProblemKind::BlessedVersionCompareError,
            Problem::BlessedVersionBroken { .. } => ProblemKind::BlessedVersionBroken,
            Problem::BlessedLatestVersionBytewiseMismatch { .. } =>
                ProblemKind::BlessedLatestVersionBytewiseMismatch,
            Problem::LockstepMissingLocal { .. } => ProblemKind::LockstepMissingLocal,
            Problem::LockstepStale { .. } => ProblemKind::LockstepStale,
            Problem::LocalVersionMissingLocal { .. } => ProblemKind::LocalVersionMissingLocal,
            Problem::LocalVersionExtra { .. } => ProblemKind::LocalVersionExtra,
            Problem::LocalVersionStale { .. } => ProblemKind::LocalVersionStale,
            Problem::GeneratedSourceMissing { .. } => ProblemKind::GeneratedSourceMissing,
            Problem::GeneratedValidationError { .. } => ProblemKind::GeneratedValidationError,
            Problem::ExtraFileStale { .. } => ProblemKind::ExtraFileStale,
            Problem::LatestLinkMissing { .. } => ProblemKind::LatestLinkMissing,
            Problem::LatestLinkStale { .. } => ProblemKind::LatestLinkStale,
            Problem::BlessedVersionShouldBeGitStub { .. } =>
                ProblemKind::BlessedVersionShouldBeGitStub,
            Problem::GitStubShouldBeJson { .. } => ProblemKind::GitStubShouldBeJson,
            Problem::BlessedVersionCorruptedLocal { .. } =>
                ProblemKind::BlessedVersionCorruptedLocal,
            Problem::DuplicateLocalFile { .. } => ProblemKind::DuplicateLocalFile,
            Problem::GitStubCommitStale { .. } => ProblemKind::GitStubCommitStale,
            Problem::GitStubFirstCommitUnknown { .. } => ProblemKind::GitStubFirstCommitUnknown,
        }
    }

    /// The fix for this problem, if it has one.
    pub fn fix(&self) -> (res: Option<Fix>)
        ensures
            fix_spec(*self, res),
    {
        match self {
            Problem::LocalSpecFileOrphaned { spec_file_name } => Some(
                Fix::DeleteFiles {
                    files: single_name(ApiSpecFileName::Versioned(spec_file_name.duplicate())),
                },
            ),
            Problem::UnparseableLocalFile { path } => Some(
                Fix::DeleteUnparseableFile { path: path.clone() },
            ),
            Problem::BlessedVersionMissingLocal { blessed, git_stub } => Some(
                Fix::RestoreFromBlessed {
                    blessed: blessed.duplicate(),
                    git_stub: dup_opt_stub(git_stub),
                },
            ),
            Problem::BlessedVersionExtraLocalSpec { spec_file_name } => Some(
                Fix::DeleteFiles {
                    files: single_name(ApiSpecFileName::Versioned(spec_file_name.duplicate())),
                },
            ),
            Problem::BlessedVersionCompareError { .. } => None,
            Problem::BlessedVersionBroken { .. } => None,
            Problem::BlessedLatestVersionBytewiseMismatch { .. } => None,
            Problem::LockstepMissingLocal { generated } => Some(
                Fix::UpdateLockstepFile { generated: generated.duplicate() },
            ),
            Problem::LockstepStale { generated, .. } => Some(
                Fix::UpdateLockstepFile { generated: generated.duplicate() },
            ),
            Problem::LocalVersionMissingLocal { generated } => Some(
                Fix::UpdateVersionedFiles { old: Vec::new(), generated: generated.duplicate() },
            ),
            Problem::LocalVersionExtra { spec_file_names } => {
                let mut files: Vec<ApiSpecFileName> = Vec::new();
                let mut i: usize = 0;
                while i < spec_file_names.len()
                    invariant
                        i <= spec_file_names@.len(),
                        files@ == spec_file_names@.subrange(0, i as int).map_values(
                            |n: VersionedApiSpecFileName| ApiSpecFileName::Versioned(n),
                        ),
                    decreases spec_file_names@.len() - i,
                {
                    files.push(ApiSpecFileName::Versioned(spec_file_names[i].duplicate()));
                    i = i + 1;
                    assert(spec_file_names@.subrange(0, i as int).map_values(
                        |n: VersionedApiSpecFileName| ApiSpecFileName::Versioned(n),
                    ) =~= spec_file_names@.subrange(0, i - 1).map_values(
                        |n: VersionedApiSpecFileName| ApiSpecFileName::Versioned(n),
                    ).push(ApiSpecFileName::Versioned(spec_file_names@[i - 1])));
                }
                assert(spec_file_names@.subrange(0, spec_file_names@.len() as int)
                    == spec_file_names@);
                Some(Fix::DeleteFiles { files })
            },
            Problem::LocalVersionStale { spec_files, generated } => {
                let mut old: Vec<ApiSpecFileName> = Vec::new();
                let mut i: usize = 0;
                while i < spec_files.len()
                    invariant
                        i <= spec_files@.len(),
                        old@ == spec_files@.subrange(0, i as int),
                    decreases spec_files@.len() - i,
                {
                    old.push(spec_files[i].duplicate());
                    i = i + 1;
                    assert(spec_files@.subrange(0, i as int) == spec_files@.subrange(0, i - 1).push(
                        spec_files@[i - 1],
                    ));
                }
                assert(spec_files@.subrange(0, spec_files@.len() as int) == spec_files@);
                Some(Fix::UpdateVersionedFiles { old, generated: generated.duplicate() })
            },
            Problem::GeneratedSourceMissing { .. } => None,
            Problem::GeneratedValidationError { .. } => None,
            Problem::ExtraFileStale { path, check_stale, .. } => Some(
                Fix::UpdateExtraFile { path: path.clone(), check_stale: check_stale.duplicate() },
            ),
            Problem::LatestLinkMissing { api_ident, link } => Some(
                Fix::UpdateSymlink { api_ident: api_ident.duplicate(), link: link.duplicate() },
            ),
            Problem::LatestLinkStale { api_ident, link, .. } => Some(
                Fix::UpdateSymlink { api_ident: api_ident.duplicate(), link: link.duplicate() },
            ),
            Problem::BlessedVersionShouldBeGitStub { local_file, git_stub } => Some(
                Fix::ConvertToGitStub {
                    local_file: local_file.duplicate(),
                    git_stub: git_stub.duplicate(),
                },
            ),
            Problem::GitStubShouldBeJson { local_file, blessed } => Some(
                Fix::ConvertToJson {
                    local_file: local_file.duplicate(),
                    blessed: blessed.duplicate(),
                },
            ),
            Problem::BlessedVersionCorruptedLocal { local_file, blessed, git_stub } => Some(
                Fix::RegenerateFromBlessed {
                    local_file: local_file.duplicate(),
                    blessed: blessed.duplicate(),
                    git_stub: dup_opt_stub(git_stub),
                },
            ),
            Problem::DuplicateLocalFile { local_file } => Some(
                Fix::DeleteFiles { files: single_name(local_file.duplicate()) },
            ),
            Problem::GitStubCommitStale { local_file, git_stub } => Some(
                Fix::UpdateGitStub {
                    local_file: local_file.duplicate(),
                    git_stub: git_stub.duplicate(),
                },
            ),
            Problem::GitStubFirstCommitUnknown { .. } => None,
        }
    }

    /// True when this problem has an automatic fix.
    pub fn is_fixable(&self) -> (res: bool)
        ensures
            res == !unfixable_kind(kind_spec(*self)),
            res == (exists|f: Fix| fix_spec(*self, Some(f))),
    {
        let f = self.fix();
        match f {
            Some(fx) => {
                assert(fix_spec(*self, Some(fx)));
                true
            },
            None => {
                assert forall|g: Fix| !fix_spec(*self, Some(g)) by {}
                false
            },
        }
    }
}

/// A problem has a fix exactly when its kind is not one of the kinds
/// that need a person: a failed or broken comparison with the blessed
/// document, a non-bytewise-identical latest version, a missing generated
/// document, a validation error, or an unknown first commit.
pub proof fn law_fixable_iff_kind(p: Problem, f: Option<Fix>)
    requires
        fix_spec(p, f),
    ensures
        (f is Some) == !unfixable_kind(kind_spec(p)),
{
}

} // verus!
