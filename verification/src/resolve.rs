//! The rules that decide, for one API version, which problems exist between
//! its blessed document (from upstream), its generated document (from the
//! current code) and its local documents (in the working tree).

use vstd::prelude::*;
use crate::compat::ApiCompatIssue;
use crate::names::{same_version, ApiIdent, ApiSpecFileName, SemVersion, VersionedApiSpecFileName, VersionedApiSpecKind};
use crate::problems::{kind_spec, unfixable_kind, CheckStale, CommitHash, GitStubRef, Problem};
use crate::text::{bytes_eq, chars_eq, chars_of, str_eq};

verus! {

/// A local document that could not be parsed.
#[derive(Debug)]
pub struct LocalApiUnparseable {
    /// The parsed file name.
    pub name: ApiSpecFileName,
    /// The raw file contents.
    pub contents: Vec<u8>,
}

/// A document found in the working tree.
#[derive(Debug)]
pub enum LocalApiSpecFile {
    /// A successfully parsed document.
    Valid {
        /// The file name.
        name: ApiSpecFileName,
        /// The file contents (for a git ref, the contents it refers to).
        contents: Vec<u8>,
        /// The commit named by the git ref this was loaded from, if any.
        git_stub_commit: Option<CommitHash>,
    },
    /// A file that exists but could not be parsed.
    Unparseable(LocalApiUnparseable),
}

impl LocalApiSpecFile {
    /// The file name.
    pub open spec fn name_view(&self) -> ApiSpecFileName {
        match self {
            LocalApiSpecFile::Valid { name, .. } => *name,
            LocalApiSpecFile::Unparseable(u) => u.name,
        }
    }

    /// The raw contents.
    pub open spec fn contents_view(&self) -> Seq<u8> {
        match self {
            LocalApiSpecFile::Valid { contents, .. } => contents@,
            LocalApiSpecFile::Unparseable(u) => u.contents@,
        }
    }

    /// The commit of the git ref this file was loaded from, if any.
    pub open spec fn commit_view(&self) -> Option<CommitHash> {
        match self {
            LocalApiSpecFile::Valid { git_stub_commit, .. } => *git_stub_commit,
            LocalApiSpecFile::Unparseable(_) => None,
        }
    }

    /// Returns the spec file name.
    pub fn spec_file_name(&self) -> (res: &ApiSpecFileName)
        ensures
            *res == self.name_view(),
    {
        match self {
            LocalApiSpecFile::Valid { name, .. } => name,
            LocalApiSpecFile::Unparseable(u) => &u.name,
        }
    }

    /// Returns the raw file contents (valid or not).
    pub fn contents(&self) -> (res: &[u8])
        ensures
            res@ == self.contents_view(),
    {
        match self {
            LocalApiSpecFile::Valid { contents, .. } => contents.as_slice(),
            LocalApiSpecFile::Unparseable(u) => u.contents.as_slice(),
        }
    }

    /// Returns the commit hash from the git ref this file was loaded from.
    pub fn git_stub_commit(&self) -> (res: Option<&CommitHash>)
        ensures
            match self.commit_view() {
                Some(c) => res == Some(&c),
                None => res is None,
            },
    {
        match self {
            LocalApiSpecFile::Valid { git_stub_commit, .. } => match git_stub_commit {
                Some(c) => Some(c),
                None => None,
            },
            LocalApiSpecFile::Unparseable(_) => None,
        }
    }

    /// Returns true if this file is unparseable.
    pub fn is_unparseable(&self) -> (res: bool)
        ensures
            res == (self is Unparseable),
    {
        match self {
            LocalApiSpecFile::Valid { .. } => false,
            LocalApiSpecFile::Unparseable(_) => true,
        }
    }
}

/// A document from the blessed (upstream) source; always versioned.
#[derive(Debug)]
pub struct BlessedApiSpecFile {
    versioned_name: VersionedApiSpecFileName,
    contents: Vec<u8>,
}

impl BlessedApiSpecFile {
    /// The versioned file name.
    pub closed spec fn name_view(&self) -> VersionedApiSpecFileName {
        self.versioned_name
    }

    /// The contents.
    pub closed spec fn contents_view(&self) -> Seq<u8> {
        self.contents@
    }

    /// Creates a blessed file; blessed files only exist for versioned APIs.
    pub fn new(name: ApiSpecFileName, contents: Vec<u8>) -> (res: Self)
        requires
            name is Versioned,
        ensures
            ApiSpecFileName::Versioned(res.name_view()) == name,
            res.contents_view() == contents@,
    {
        match name {
            ApiSpecFileName::Versioned(v) => BlessedApiSpecFile { versioned_name: v, contents },
            ApiSpecFileName::Lockstep(_) => vstd::pervasive::unreached(),
        }
    }

    /// Returns the versioned spec file name.
    pub fn versioned_spec_file_name(&self) -> (res: &VersionedApiSpecFileName)
        ensures
            *res == self.name_view(),
    {
        &self.versioned_name
    }

    /// Returns the contents.
    pub fn contents(&self) -> (res: &[u8])
        ensures
            res@ == self.contents_view(),
    {
        self.contents.as_slice()
    }
}

/// A document generated from the current API definitions.
#[derive(Debug)]
pub struct GeneratedApiSpecFile {
    /// The file name.
    pub name: ApiSpecFileName,
    /// The contents.
    pub contents: Vec<u8>,
}

/// What the first commit of the latest version is known to be.
#[derive(Debug)]
pub enum LatestFirstCommit {
    /// The latest version is not blessed.
    NotBlessed,
    /// The latest version is blessed and was introduced in this commit.
    Blessed(CommitHash),
    /// The latest version is blessed but its first commit is unknown.
    BlessedError,
}

/// How a blessed version should be stored.
#[derive(Debug)]
pub enum VersionStorageFormat {
    /// As a git ref.
    GitStub(GitStubRef),
    /// As a JSON file.
    Json,
    /// Unknown; the version should not be modified.
    Error,
}

/// The storage format of a blessed version whose potential git ref is
/// `current`: always a git ref while the latest version is not blessed; a
/// git ref when the latest version was first committed in a different
/// commit, JSON when in the same commit; and unknown when the latest
/// version's first commit is unknown.
pub open spec fn storage_format_spec(latest: LatestFirstCommit, current: GitStubRef) -> VersionStorageFormat {
    match latest {
        LatestFirstCommit::NotBlessed => VersionStorageFormat::GitStub(current),
        LatestFirstCommit::Blessed(c) => if current.commit.hex@ != c.hex@ {
            VersionStorageFormat::GitStub(current)
        } else {
            VersionStorageFormat::Json
        },
        LatestFirstCommit::BlessedError => VersionStorageFormat::Error,
    }
}

/// Returns the storage format for a blessed version, assuming git ref
/// storage is enabled and the version's potential git ref is `current`.
pub fn storage_format_for_blessed(latest: &LatestFirstCommit, current: GitStubRef) -> (res:
    VersionStorageFormat)
    ensures
        res == storage_format_spec(*latest, current),
{
    match latest {
        LatestFirstCommit::NotBlessed => VersionStorageFormat::GitStub(current),
        LatestFirstCommit::Blessed(c) => {
            if !current.commit.same_as(c) {
                VersionStorageFormat::GitStub(current)
            } else {
                VersionStorageFormat::Json
            }
        },
        LatestFirstCommit::BlessedError => VersionStorageFormat::Error,
    }
}

/// Outcome of comparing a blessed document with the generated one.
#[derive(Debug)]
pub enum CompatOutcome {
    /// The comparison ran; these are the non-trivial issues found.
    Issues(Vec<ApiCompatIssue>),
    /// The comparison failed with this message.
    CompareError(String),
}

/// Outcome of looking up the git ref for a blessed version.
#[derive(Debug)]
pub enum StubOutcome {
    /// No git ref information exists for this version.
    NoStub,
    /// The git ref the version would be stored as.
    Stub(GitStubRef),
    /// Determining the git ref failed with this message.
    Failed(String),
}

/// Settings that shape the resolution of one blessed version.
#[derive(Debug)]
pub struct BlessedVersionOptions {
    /// This is the latest version of the API.
    pub is_latest: bool,
    /// Trivial changes to the latest blessed version are allowed.
    pub allows_trivial_changes_for_latest: bool,
    /// Blessed non-latest versions may be stored as git refs.
    pub use_git_stub_storage: bool,
    /// What is known of the latest version's first commit.
    pub latest_first_commit: LatestFirstCommit,
}

/// The storage format must be determined (which may need version control
/// history) exactly when git ref storage is enabled and this is not the
/// latest version.
pub open spec fn storage_format_needed(opts: BlessedVersionOptions) -> bool {
    opts.use_git_stub_storage && !opts.is_latest
}

/// The hash in a versioned file name.
pub open spec fn name_hash(n: ApiSpecFileName) -> Seq<char> {
    match n {
        ApiSpecFileName::Versioned(v) => v.hash_view(),
        ApiSpecFileName::Lockstep(_) => seq![],
    }
}

/// How a local file relates to the blessed document with hash `bh`: 0 if
/// it is a valid file with that hash, 1 if it is unparseable with that
/// hash, 2 otherwise.
pub open spec fn local_class(l: LocalApiSpecFile, bh: Seq<char>) -> int {
    if name_hash(l.name_view()) == bh {
        if l is Unparseable {
            1
        } else {
            0
        }
    } else {
        2
    }
}

/// The local files with the given class.
pub open spec fn files_of_class(s: Seq<LocalApiSpecFile>, bh: Seq<char>, c: int) -> Seq<
    LocalApiSpecFile,
>
    decreases s.len(),
{
    if s.len() == 0 {
        seq![]
    } else if local_class(s.last(), bh) == c {
        files_of_class(s.drop_last(), bh, c).push(s.last())
    } else {
        files_of_class(s.drop_last(), bh, c)
    }
}

/// The versioned name inside a file name (an arbitrary value for lockstep
/// names, which do not occur here).
pub open spec fn versioned_of(n: ApiSpecFileName) -> VersionedApiSpecFileName {
    match n {
        ApiSpecFileName::Versioned(v) => v,
        ApiSpecFileName::Lockstep(_) => arbitrary(),
    }
}

/// Problems after comparing with the blessed document.
pub open spec fn after_compat(p0: Seq<Problem>, compat: CompatOutcome) -> Seq<Problem> {
    match compat {
        CompatOutcome::Issues(v) => if v@.len() > 0 {
            p0.push(Problem::BlessedVersionBroken { compatibility_issues: v })
        } else {
            p0
        },
        CompatOutcome::CompareError(e) => p0.push(Problem::BlessedVersionCompareError { error: e }),
    }
}

/// Problems after the bytewise check of the latest version: when nothing
/// else was found and trivial changes are not allowed, the generated
/// document must be identical to the blessed one.
pub open spec fn after_bytewise(
    p1: Seq<Problem>,
    opts: BlessedVersionOptions,
    blessed: BlessedApiSpecFile,
    generated: GeneratedApiSpecFile,
) -> Seq<Problem> {
    if opts.is_latest && !opts.allows_trivial_changes_for_latest && p1.len() == 0
        && generated.contents@ != blessed.contents_view() {
        p1.push(
            Problem::BlessedLatestVersionBytewiseMismatch {
                blessed: blessed.name_view(),
                generated: generated.name,
            },
        )
    } else {
        p1
    }
}

/// The problems and storage format from determining a version's storage
/// format.
pub open spec fn storage_spec(
    latest: LatestFirstCommit,
    blessed: BlessedApiSpecFile,
    stub: StubOutcome,
) -> (Seq<Problem>, VersionStorageFormat) {
    match stub {
        StubOutcome::NoStub => (seq![], VersionStorageFormat::Json),
        StubOutcome::Stub(g) => (seq![], storage_format_spec(latest, g)),
        StubOutcome::Failed(e) => (
            seq![
                Problem::GitStubFirstCommitUnknown {
                    spec_file_name: blessed.name_view(),
                    source: e,
                },
            ],
            VersionStorageFormat::Error,
        ),
    }
}

/// The git ref of a storage format, if it is one.
pub open spec fn stub_of(sf: VersionStorageFormat) -> Option<GitStubRef> {
    match sf {
        VersionStorageFormat::GitStub(g) => Some(g),
        _ => None,
    }
}

/// A stale-commit problem for a local git ref whose commit differs from the
/// expected one.
pub open spec fn staleness_spec(l: LocalApiSpecFile, expected: GitStubRef) -> Seq<Problem> {
    match l.commit_view() {
        Some(c) => if c.hex@ != expected.commit.hex@ {
            seq![Problem::GitStubCommitStale { local_file: l.name_view(), git_stub: expected }]
        } else {
            seq![]
        },
        None => seq![],
    }
}

/// For one of several matching local files, with git ref storage in use.
pub open spec fn multi_match_spec(sf: VersionStorageFormat, l: LocalApiSpecFile) -> Seq<Problem> {
    let is_ref = l.name_view().is_git_ref_view();
    match sf {
        VersionStorageFormat::GitStub(g) => if !is_ref {
            seq![Problem::DuplicateLocalFile { local_file: l.name_view() }]
        } else {
            staleness_spec(l, g)
        },
        VersionStorageFormat::Json => if is_ref {
            seq![Problem::DuplicateLocalFile { local_file: l.name_view() }]
        } else {
            seq![]
        },
        VersionStorageFormat::Error => seq![],
    }
}

/// For the only matching local file, with git ref storage in use.
pub open spec fn single_match_spec(
    sf: VersionStorageFormat,
    l: LocalApiSpecFile,
    blessed: BlessedApiSpecFile,
) -> Seq<Problem> {
    let is_ref = l.name_view().is_git_ref_view();
    match sf {
        VersionStorageFormat::GitStub(g) => if !is_ref {
            seq![Problem::BlessedVersionShouldBeGitStub { local_file: l.name_view(), git_stub: g }]
        } else {
            staleness_spec(l, g)
        },
        VersionStorageFormat::Json => if is_ref {
            seq![Problem::GitStubShouldBeJson { local_file: l.name_view(), blessed: blessed.name_view() }]
        } else {
            seq![]
        },
        VersionStorageFormat::Error => seq![],
    }
}

/// What is reported for each local file that a rule applies to.
#[derive(Debug)]
pub enum LocalRule {
    /// The file is corrupted: regenerate it from the blessed document, as a
    /// git ref when `git_stub` is given.
    Corrupted { blessed: VersionedApiSpecFileName, git_stub: Option<GitStubRef> },
    /// One of several matching files, where JSON is wanted: a git ref is
    /// redundant.
    RedundantGitRef,
    /// One of several matching files, checked against the storage format.
    AgainstFormat { format: VersionStorageFormat },
    /// The file does not match the blessed document.
    Extra,
}

/// The problems that rule `r` reports for local file `l`.
pub open spec fn rule_spec(r: LocalRule, l: LocalApiSpecFile) -> Seq<Problem> {
    match r {
        LocalRule::Corrupted { blessed, git_stub } => seq![
            Problem::BlessedVersionCorruptedLocal { local_file: l.name_view(), blessed, git_stub },
        ],
        LocalRule::RedundantGitRef => if l.name_view().is_git_ref_view() {
            seq![Problem::DuplicateLocalFile { local_file: l.name_view() }]
        } else {
            seq![]
        },
        LocalRule::AgainstFormat { format } => multi_match_spec(format, l),
        LocalRule::Extra => seq![
            Problem::BlessedVersionExtraLocalSpec { spec_file_name: versioned_of(l.name_view()) },
        ],
    }
}

/// The problems that rule `r` reports for the local files of class `c`
/// (matching 0, corrupted 1, other 2), in order.
pub open spec fn class_problems(s: Seq<LocalApiSpecFile>, bh: Seq<char>, c: int, r: LocalRule) -> Seq<
    Problem,
>
    decreases s.len(),
{
    if s.len() == 0 {
        seq![]
    } else {
        class_problems(s.drop_last(), bh, c, r) + if local_class(s.last(), bh) == c {
            rule_spec(r, s.last())
        } else {
            seq![]
        }
    }
}

/// Problems about the local files of a blessed version, after the
/// comparisons with the generated document.
pub open spec fn local_files_spec(
    p2: Seq<Problem>,
    opts: BlessedVersionOptions,
    blessed: BlessedApiSpecFile,
    stub: StubOutcome,
    local: Seq<LocalApiSpecFile>,
) -> Seq<Problem> {
    let bh = blessed.name_view().hash_view();
    let matching = files_of_class(local, bh, 0);
    let corrupted = files_of_class(local, bh, 1);
    let (errs, sf) = storage_spec(opts.latest_first_commit, blessed, stub);
    if matching.len() == 0 && corrupted.len() == 0 {
        if storage_format_needed(opts) {
            p2 + errs + match sf {
                VersionStorageFormat::GitStub(g) => seq![
                    Problem::BlessedVersionMissingLocal { blessed: blessed.name_view(), git_stub: Some(g) },
                ],
                VersionStorageFormat::Json => seq![
                    Problem::BlessedVersionMissingLocal { blessed: blessed.name_view(), git_stub: None },
                ],
                VersionStorageFormat::Error => seq![],
            }
        } else {
            p2.push(Problem::BlessedVersionMissingLocal { blessed: blessed.name_view(), git_stub: None })
        }
    } else if !storage_format_needed(opts) {
        p2 + class_problems(
            local,
            bh,
            1,
            LocalRule::Corrupted { blessed: blessed.name_view(), git_stub: None },
        ) + if matching.len() > 1 {
            class_problems(local, bh, 0, LocalRule::RedundantGitRef)
        } else if matching.len() == 1 && matching[0].name_view().is_git_ref_view() {
            seq![
                Problem::GitStubShouldBeJson {
                    local_file: matching[0].name_view(),
                    blessed: blessed.name_view(),
                },
            ]
        } else {
            seq![]
        }
    } else {
        p2 + errs + class_problems(
            local,
            bh,
            1,
            LocalRule::Corrupted { blessed: blessed.name_view(), git_stub: stub_of(sf) },
        ) + if matching.len() > 1 {
            class_problems(local, bh, 0, LocalRule::AgainstFormat { format: sf })
        } else if matching.len() == 1 {
            single_match_spec(sf, matching[0], blessed)
        } else {
            seq![]
        }
    }
}

/// All problems of a blessed version, starting from the validation problems
/// `p0`; local files that do not match the blessed document come last, as
/// extras.
pub open spec fn blessed_version_spec(
    p0: Seq<Problem>,
    compat: CompatOutcome,
    opts: BlessedVersionOptions,
    blessed: BlessedApiSpecFile,
    stub: StubOutcome,
    generated: GeneratedApiSpecFile,
    local: Seq<LocalApiSpecFile>,
) -> Seq<Problem> {
    let p2 = after_bytewise(after_compat(p0, compat), opts, blessed, generated);
    local_files_spec(p2, opts, blessed, stub, local) + class_problems(
        local,
        blessed.name_view().hash_view(),
        2,
        LocalRule::Extra,
    )
}

/// Which kind of resolution applies to an API version.
#[derive(Debug, Clone, Copy, PartialEq, Eq, Structural)]
pub enum ResolutionKind {
    /// A lockstep API.
    Lockstep,
    /// A versioned API whose version is blessed.
    Blessed,
    /// A version new to the current workspace (not present upstream).
    NewLocally,
}

impl ResolutionKind {
    /// The name shown for this kind.
    pub fn label(&self) -> (res: &'static str)
        ensures
            res@ == match *self {
                ResolutionKind::Lockstep => "lockstep"@,
                ResolutionKind::Blessed => "blessed"@,
                ResolutionKind::NewLocally => "added locally"@,
            },
    {
        match self {
            ResolutionKind::Lockstep => {
                proof {
                    reveal_strlit("lockstep");
                }
                "lockstep"
            },
            ResolutionKind::Blessed => {
                proof {
                    reveal_strlit("blessed");
                }
                "blessed"
            },
            ResolutionKind::NewLocally => {
                proof {
                    reveal_strlit("added locally");
                }
                "added locally"
            },
        }
    }
}

/// The outcome of resolving the documents of one API version.
#[derive(Debug)]
pub struct Resolution {
    kind: ResolutionKind,
    problems: Vec<Problem>,
}

/// True when some problem in `s` has no automatic fix.
pub open spec fn any_unfixable(s: Seq<Problem>) -> bool {
    exists|i: int| 0 <= i < s.len() && unfixable_kind(kind_spec(#[trigger] s[i]))
}

impl Resolution {
    /// The kind of this resolution.
    pub closed spec fn kind_view(&self) -> ResolutionKind {
        self.kind
    }

    /// The problems found, in the order they were found.
    pub closed spec fn problems_view(&self) -> Seq<Problem> {
        self.problems@
    }

    /// A resolution for a lockstep API.
    pub fn new_lockstep(problems: Vec<Problem>) -> (res: Self)
        ensures
            res.kind_view() == ResolutionKind::Lockstep,
            res.problems_view() == problems@,
    {
        Resolution { kind: ResolutionKind::Lockstep, problems }
    }

    /// A resolution for a blessed version.
    pub fn new_blessed(problems: Vec<Problem>) -> (res: Self)
        ensures
            res.kind_view() == ResolutionKind::Blessed,
            res.problems_view() == problems@,
    {
        Resolution { kind: ResolutionKind::Blessed, problems }
    }

    /// A resolution for a version added locally.
    pub fn new_new_locally(problems: Vec<Problem>) -> (res: Self)
        ensures
            res.kind_view() == ResolutionKind::NewLocally,
            res.problems_view() == problems@,
    {
        Resolution { kind: ResolutionKind::NewLocally, problems }
    }

    /// True when any problem was found.
    pub fn has_problems(&self) -> (res: bool)
        ensures
            res == (self.problems_view().len() > 0),
    {
        self.problems.len() > 0
    }

    /// Adds a problem at the end.
    pub fn add_problem(&mut self, problem: Problem)
        ensures
            final(self).kind_view() == old(self).kind_view(),
            final(self).problems_view() == old(self).problems_view().push(problem),
    {
        self.problems.push(problem);
    }

    /// True when some problem has no automatic fix.
    pub fn has_errors(&self) -> (res: bool)
        ensures
            res == any_unfixable(self.problems_view()),
    {
        let mut i: usize = 0;
        while i < self.problems.len()
            invariant
                i <= self.problems@.len(),
                forall|j: int| 0 <= j < i ==> !unfixable_kind(kind_spec(#[trigger] self.problems@[j])),
            decreases self.problems@.len() - i,
        {
            if !self.problems[i].is_fixable() {
                return true;
            }
            i = i + 1;
        }
        false
    }

    /// The problems found.
    pub fn problems(&self) -> (res: &[Problem])
        ensures
            res@ == self.problems_view(),
    {
        self.problems.as_slice()
    }

    /// The kind of this resolution.
    pub fn kind(&self) -> (res: ResolutionKind)
        ensures
            res == self.kind_view(),
    {
        self.kind
    }
}

impl VersionStorageFormat {
    /// A copy of this format.
    pub fn duplicate(&self) -> (res: Self)
        ensures
            res == *self,
    {
        match self {
            VersionStorageFormat::GitStub(g) => VersionStorageFormat::GitStub(g.duplicate()),
            VersionStorageFormat::Json => VersionStorageFormat::Json,
            VersionStorageFormat::Error => VersionStorageFormat::Error,
        }
    }

    /// The git ref of this format, if it is one.
    pub fn git_stub(&self) -> (res: Option<GitStubRef>)
        ensures
            res == stub_of(*self),
    {
        match self {
            VersionStorageFormat::GitStub(g) => Some(g.duplicate()),
            _ => None,
        }
    }
}

/// For every valid local file, its hash is the blessed one exactly when its
/// contents are the blessed ones.
pub open spec fn hashes_agree_with_contents(local: Seq<LocalApiSpecFile>, blessed: BlessedApiSpecFile) -> bool {
    forall|i: int|
        0 <= i < local.len() && local[i] is Valid ==> (name_hash(#[trigger] local[i].name_view())
            == blessed.name_view().hash_view() <==> local[i].contents_view()
            == blessed.contents_view())
}

/// Every local file has a versioned name.
pub open spec fn all_versioned(local: Seq<LocalApiSpecFile>) -> bool {
    forall|i: int| 0 <= i < local.len() ==> (#[trigger] local[i]).name_view() is Versioned
}

fn local_class_of(l: &LocalApiSpecFile, bh: &str) -> (c: u8)
    requires
        l.name_view() is Versioned,
    ensures
        c as int == local_class(*l, bh@),
{
    let h = match l.spec_file_name().hash() {
        Some(h) => h,
        None => vstd::pervasive::unreached(),
    };
    if str_eq(h, bh) {
        if l.is_unparseable() {
            1
        } else {
            0
        }
    } else {
        2
    }
}

/// Counts the matching and corrupted local files, and finds the first
/// matching one.
fn count_classes(local: &Vec<LocalApiSpecFile>, bh: &str) -> (res: (usize, usize, usize))
    requires
        all_versioned(local@),
    ensures
        res.0 == files_of_class(local@, bh@, 0).len(),
        res.1 == files_of_class(local@, bh@, 1).len(),
        res.0 > 0 ==> res.2 < local@.len() && files_of_class(local@, bh@, 0)[0] == local@[res.2 as int],
{
    let mut n_match: usize = 0;
    let mut n_corrupt: usize = 0;
    let mut first: usize = 0;
    let mut i: usize = 0;
    while i < local.len()
        invariant
            i <= local@.len(),
            all_versioned(local@),
            n_match == files_of_class(local@.subrange(0, i as int), bh@, 0).len(),
            n_corrupt == files_of_class(local@.subrange(0, i as int), bh@, 1).len(),
            n_match <= i,
            n_corrupt <= i,
            n_match > 0 ==> first < i && files_of_class(local@.subrange(0, i as int), bh@, 0)[0]
                == local@[first as int],
        decreases local@.len() - i,
    {
        let c = local_class_of(&local[i], bh);
        proof {
            assert(local@.subrange(0, i + 1).drop_last() =~= local@.subrange(0, i as int));
        }
        if c == 0 {
            if n_match == 0 {
                first = i;
            }
            n_match = n_match + 1;
        } else if c == 1 {
            n_corrupt = n_corrupt + 1;
        }
        i = i + 1;
    }
    proof {
        assert(local@.subrange(0, local@.len() as int) =~= local@);
    }
    (n_match, n_corrupt, first)
}

/// The problems that a rule reports for one local file.
fn rule_problems(r: &LocalRule, l: &LocalApiSpecFile) -> (res: Vec<Problem>)
    requires
        l.name_view() is Versioned,
    ensures
        res@ == rule_spec(*r, *l),
{
    let mut out: Vec<Problem> = Vec::new();
    match r {
        LocalRule::Corrupted { blessed, git_stub } => {
            out.push(
                Problem::BlessedVersionCorruptedLocal {
                    local_file: l.spec_file_name().duplicate(),
                    blessed: blessed.duplicate(),
                    git_stub: match git_stub {
                        Some(g) => Some(g.duplicate()),
                        None => None,
                    },
                },
            );
        },
        LocalRule::RedundantGitRef => {
            if l.spec_file_name().is_git_ref() {
                out.push(Problem::DuplicateLocalFile { local_file: l.spec_file_name().duplicate() });
            }
        },
        LocalRule::AgainstFormat { format } => {
            out = multi_match_problems(format, l);
        },
        LocalRule::Extra => {
            let v = match l.spec_file_name().as_versioned() {
                Some(v) => v.duplicate(),
                None => vstd::pervasive::unreached(),
            };
            out.push(Problem::BlessedVersionExtraLocalSpec { spec_file_name: v });
        },
    }
    out
}

/// Appends what rule `r` reports for each local file of class `c`.
fn push_class_problems(
    problems: &mut Vec<Problem>,
    local: &Vec<LocalApiSpecFile>,
    bh: &str,
    c: u8,
    r: &LocalRule,
)
    requires
        all_versioned(local@),
    ensures
        final(problems)@ == old(problems)@ + class_problems(local@, bh@, c as int, *r),
{
    let mut i: usize = 0;
    while i < local.len()
        invariant
            i <= local@.len(),
            all_versioned(local@),
            problems@ == old(problems)@ + class_problems(local@.subrange(0, i as int), bh@, c as int, *r),
        decreases local@.len() - i,
    {
        let lc = local_class_of(&local[i], bh);
        proof {
            assert(local@.subrange(0, i + 1).drop_last() =~= local@.subrange(0, i as int));
        }
        if lc == c {
            let mut more = rule_problems(r, &local[i]);
            problems.append(&mut more);
        }
        i = i + 1;
    }
    proof {
        assert(local@.subrange(0, local@.len() as int) =~= local@);
    }
}

fn staleness_problems(l: &LocalApiSpecFile, expected: &GitStubRef) -> (res: Vec<Problem>)
    ensures
        res@ == staleness_spec(*l, *expected),
{
    let mut out: Vec<Problem> = Vec::new();
    match l.git_stub_commit() {
        Some(c) => {
            if !c.same_as(&expected.commit) {
                out.push(
                    Problem::GitStubCommitStale {
                        local_file: l.spec_file_name().duplicate(),
                        git_stub: expected.duplicate(),
                    },
                );
            }
        },
        None => {},
    }
    out
}

fn multi_match_problems(sf: &VersionStorageFormat, l: &LocalApiSpecFile) -> (res: Vec<Problem>)
    ensures
        res@ == multi_match_spec(*sf, *l),
{
    let is_ref = l.spec_file_name().is_git_ref();
    let mut out: Vec<Problem> = Vec::new();
    match sf {
        VersionStorageFormat::GitStub(g) => {
            if !is_ref {
                out.push(Problem::DuplicateLocalFile { local_file: l.spec_file_name().duplicate() });
            } else {
                out = staleness_problems(l, g);
            }
        },
        VersionStorageFormat::Json => {
            if is_ref {
                out.push(Problem::DuplicateLocalFile { local_file: l.spec_file_name().duplicate() });
            }
        },
        VersionStorageFormat::Error => {},
    }
    out
}

fn single_match_problems(
    sf: &VersionStorageFormat,
    l: &LocalApiSpecFile,
    blessed: &BlessedApiSpecFile,
) -> (res: Vec<Problem>)
    ensures
        res@ == single_match_spec(*sf, *l, *blessed),
{
    let is_ref = l.spec_file_name().is_git_ref();
    let mut out: Vec<Problem> = Vec::new();
    match sf {
        VersionStorageFormat::GitStub(g) => {
            if !is_ref {
                out.push(
                    Problem::BlessedVersionShouldBeGitStub {
                        local_file: l.spec_file_name().duplicate(),
                        git_stub: g.duplicate(),
                    },
                );
            } else {
                out = staleness_problems(l, g);
            }
        },
        VersionStorageFormat::Json => {
            if is_ref {
                out.push(
                    Problem::GitStubShouldBeJson {
                        local_file: l.spec_file_name().duplicate(),
                        blessed: blessed.versioned_spec_file_name().duplicate(),
                    },
                );
            }
        },
        VersionStorageFormat::Error => {},
    }
    out
}

fn storage_format_of(latest: &LatestFirstCommit, blessed: &BlessedApiSpecFile, stub: StubOutcome) -> (res: (
    Vec<Problem>,
    VersionStorageFormat,
))
    ensures
        res.0@ == storage_spec(*latest, *blessed, stub).0,
        res.1 == storage_spec(*latest, *blessed, stub).1,
{
    let mut errs: Vec<Problem> = Vec::new();
    match stub {
        StubOutcome::NoStub => (errs, VersionStorageFormat::Json),
        StubOutcome::Stub(g) => (errs, storage_format_for_blessed(latest, g)),
        StubOutcome::Failed(e) => {
            errs.push(
                Problem::GitStubFirstCommitUnknown {
                    spec_file_name: blessed.versioned_spec_file_name().duplicate(),
                    source: e,
                },
            );
            (errs, VersionStorageFormat::Error)
        },
    }
}

/// Resolves a version that is blessed upstream: the generated document must
/// stay compatible with the blessed one (and, for the latest version, be
/// bytewise identical unless trivial changes are allowed), a local copy of
/// the blessed document must exist in the right storage format, and local
/// documents that do not match the blessed one are extra.
///
/// `validation` holds the problems found while validating the generated
/// document; `compat` is the outcome of comparing the blessed document with
/// the generated one; `stub` is consulted only when the storage format is
/// needed (see `storage_format_needed`).
pub fn resolve_api_version_blessed(
    validation: Vec<Problem>,
    compat: CompatOutcome,
    opts: &BlessedVersionOptions,
    blessed: &BlessedApiSpecFile,
    stub: StubOutcome,
    generated: &GeneratedApiSpecFile,
    local: &Vec<LocalApiSpecFile>,
) -> (res: Resolution)
    requires
        all_versioned(local@),
        hashes_agree_with_contents(local@, *blessed),
    ensures
        res.kind_view() == ResolutionKind::Blessed,
        res.problems_view() == blessed_version_spec(
            validation@,
            compat,
            *opts,
            *blessed,
            stub,
            *generated,
            local@,
        ),
{
    let ghost compat_v = compat;
    let ghost stub_v = stub;
    let mut problems = validation;
    match compat {
        CompatOutcome::Issues(issues) => {
            if issues.len() > 0 {
                problems.push(Problem::BlessedVersionBroken { compatibility_issues: issues });
            }
        },
        CompatOutcome::CompareError(error) => {
            problems.push(Problem::BlessedVersionCompareError { error });
        },
    }
    assert(problems@ == after_compat(validation@, compat_v));
    if opts.is_latest && !opts.allows_trivial_changes_for_latest && problems.len() == 0
        && !bytes_eq(generated.contents.as_slice(), blessed.contents()) {
        problems.push(
            Problem::BlessedLatestVersionBytewiseMismatch {
                blessed: blessed.versioned_spec_file_name().duplicate(),
                generated: generated.name.duplicate(),
            },
        );
    }
    let ghost p2 = problems@;
    assert(p2 == after_bytewise(after_compat(validation@, compat_v), *opts, *blessed, *generated));
    let bh = blessed.versioned_spec_file_name().hash();
    let (n_match, n_corrupt, first) = count_classes(local, bh);
    let needed = opts.use_git_stub_storage && !opts.is_latest;
    if n_match == 0 && n_corrupt == 0 {
        if needed {
            let (mut errs, sf) = storage_format_of(&opts.latest_first_commit, blessed, stub);
            problems.append(&mut errs);
            match sf {
                VersionStorageFormat::GitStub(g) => {
                    problems.push(
                        Problem::BlessedVersionMissingLocal {
                            blessed: blessed.versioned_spec_file_name().duplicate(),
                            git_stub: Some(g),
                        },
                    );
                },
                VersionStorageFormat::Json => {
                    problems.push(
                        Problem::BlessedVersionMissingLocal {
                            blessed: blessed.versioned_spec_file_name().duplicate(),
                            git_stub: None,
                        },
                    );
                },
                VersionStorageFormat::Error => {},
            }
        } else {
            problems.push(
                Problem::BlessedVersionMissingLocal {
                    blessed: blessed.versioned_spec_file_name().duplicate(),
                    git_stub: None,
                },
            );
        }
    } else if !needed {
        let corrupted_rule = LocalRule::Corrupted {
            blessed: blessed.versioned_spec_file_name().duplicate(),
            git_stub: None,
        };
        push_class_problems(&mut problems, local, bh, 1, &corrupted_rule);
        if n_match > 1 {
            push_class_problems(&mut problems, local, bh, 0, &LocalRule::RedundantGitRef);
        } else if n_match == 1 && local[first].spec_file_name().is_git_ref() {
            problems.push(
                Problem::GitStubShouldBeJson {
                    local_file: local[first].spec_file_name().duplicate(),
                    blessed: blessed.versioned_spec_file_name().duplicate(),
                },
            );
        }
    } else {
        let (mut errs, sf) = storage_format_of(&opts.latest_first_commit, blessed, stub);
        problems.append(&mut errs);
        let corrupted_rule = LocalRule::Corrupted {
            blessed: blessed.versioned_spec_file_name().duplicate(),
            git_stub: sf.git_stub(),
        };
        push_class_problems(&mut problems, local, bh, 1, &corrupted_rule);
        if n_match > 1 {
            push_class_problems(
                &mut problems,
                local,
                bh,
                0,
                &LocalRule::AgainstFormat { format: sf },
            );
        } else if n_match == 1 {
            let mut more = single_match_problems(&sf, &local[first], blessed);
            problems.append(&mut more);
        }
    }
    assert(problems@ == local_files_spec(p2, *opts, *blessed, stub_v, local@));
    push_class_problems(&mut problems, local, bh, 2, &LocalRule::Extra);
    Resolution::new_blessed(problems)
}

/// Whether an extra file produced by validation is up to date.
#[derive(Debug)]
pub enum ExtraFileStatus {
    /// The file on disk has the expected contents.
    Fresh,
    /// The file on disk is missing or differs.
    Stale(CheckStale),
}

/// The outcome of validating a generated document.
#[derive(Debug)]
pub enum ValidationOutcome {
    /// Validation failed with this message.
    Failed(String),
    /// Validation passed; these are the extra files it produced, by path.
    Checked(Vec<(String, ExtraFileStatus)>),
}

/// Problems for the stale extra files among `files`, in order.
pub open spec fn stale_file_problems(ident: ApiIdent, files: Seq<(String, ExtraFileStatus)>) -> Seq<
    Problem,
>
    decreases files.len(),
{
    if files.len() == 0 {
        seq![]
    } else {
        stale_file_problems(ident, files.drop_last()) + match files.last().1 {
            ExtraFileStatus::Fresh => seq![],
            ExtraFileStatus::Stale(c) => seq![
                Problem::ExtraFileStale { api_ident: ident, path: files.last().0, check_stale: c },
            ],
        }
    }
}

/// Problems from validating a generated document.
pub open spec fn validation_spec(ident: ApiIdent, version: SemVersion, outcome: ValidationOutcome) -> Seq<
    Problem,
> {
    match outcome {
        ValidationOutcome::Failed(e) => seq![
            Problem::GeneratedValidationError { api_ident: ident, version, source: e },
        ],
        ValidationOutcome::Checked(files) => stale_file_problems(ident, files@),
    }
}

/// The problems found by validating the generated document of `version`: a
/// validation error, or one problem per stale extra file.
pub fn validation_problems(
    ident: &ApiIdent,
    version: &SemVersion,
    outcome: ValidationOutcome,
) -> (res: Vec<Problem>)
    ensures
        res@ == validation_spec(*ident, *version, outcome),
{
    let mut out: Vec<Problem> = Vec::new();
    match outcome {
        ValidationOutcome::Failed(source) => {
            out.push(
                Problem::GeneratedValidationError {
                    api_ident: ident.duplicate(),
                    version: version.duplicate(),
                    source,
                },
            );
        },
        ValidationOutcome::Checked(files) => {
            let n: usize = files.len();
            let ghost all = files@;
            let mut rest = files;
            let mut k: usize = 0;
            while rest.len() > 0
                invariant
                    k + rest@.len() == all.len(),
                    all.len() == n,
                    rest@ == all.subrange(k as int, all.len() as int),
                    out@ == stale_file_problems(*ident, all.subrange(0, k as int)),
                decreases rest@.len(),
            {
                let (path, status) = rest.remove(0);
                proof {
                    assert(all.subrange(0, k + 1).drop_last() =~= all.subrange(0, k as int));
                    assert(all.subrange(0, k + 1).last() == all[k as int]);
                }
                match status {
                    ExtraFileStatus::Fresh => {},
                    ExtraFileStatus::Stale(check_stale) => {
                        out.push(
                            Problem::ExtraFileStale {
                                api_ident: ident.duplicate(),
                                path,
                                check_stale,
                            },
                        );
                    },
                }
                k = k + 1;
                proof {
                    assert(rest@ =~= all.subrange(k as int, all.len() as int));
                }
            }
            proof {
                assert(all.subrange(0, all.len() as int) =~= all);
            }
        },
    }
    out
}

/// Names of the local files whose contents differ from `contents`, in order.
pub open spec fn unmatched_names(s: Seq<LocalApiSpecFile>, contents: Seq<u8>) -> Seq<ApiSpecFileName>
    decreases s.len(),
{
    if s.len() == 0 {
        seq![]
    } else if s.last().contents_view() == contents {
        unmatched_names(s.drop_last(), contents)
    } else {
        unmatched_names(s.drop_last(), contents).push(s.last().name_view())
    }
}

/// Some local file has exactly these contents.
pub open spec fn has_matching(s: Seq<LocalApiSpecFile>, contents: Seq<u8>) -> bool {
    exists|i: int| 0 <= i < s.len() && (#[trigger] s[i]).contents_view() == contents
}

/// The problems of a version added locally: `out` is `p0` followed by at
/// most one problem. Without a local file with the generated contents, the
/// document is missing (no local files) or stale (listing every local
/// file); with one, any other local files are extra.
pub open spec fn local_version_spec(
    out: Seq<Problem>,
    p0: Seq<Problem>,
    generated: GeneratedApiSpecFile,
    local: Seq<LocalApiSpecFile>,
) -> bool {
    let c = generated.contents@;
    let others = unmatched_names(local, c);
    if !has_matching(local, c) {
        if local.len() == 0 {
            out == p0.push(Problem::LocalVersionMissingLocal { generated: generated.name })
        } else {
            &&& out.len() == p0.len() + 1
            &&& out.subrange(0, p0.len() as int) == p0
            &&& out.last() matches Problem::LocalVersionStale { spec_files, generated: g }
            &&& spec_files@ == others
            &&& g == generated.name
        }
    } else if others.len() > 0 {
        &&& out.len() == p0.len() + 1
        &&& out.subrange(0, p0.len() as int) == p0
        &&& out.last() matches Problem::LocalVersionExtra { spec_file_names }
        &&& spec_file_names@ == others.map_values(|n: ApiSpecFileName| versioned_of(n))
    } else {
        out == p0
    }
}

/// The unmatched names are those of the local files whose contents differ,
/// so there are as many as local files exactly when none matches.
proof fn lemma_unmatched_len(s: Seq<LocalApiSpecFile>, c: Seq<u8>)
    ensures
        unmatched_names(s, c).len() <= s.len(),
        (unmatched_names(s, c).len() == s.len()) == !has_matching(s, c),
        !has_matching(s, c) ==> unmatched_names(s, c) == s.map_values(
            |l: LocalApiSpecFile| l.name_view(),
        ),
    decreases s.len(),
{
    if s.len() > 0 {
        let t = s.drop_last();
        lemma_unmatched_len(t, c);
        if has_matching(t, c) {
            let i = choose|i: int| 0 <= i < t.len() && (#[trigger] t[i]).contents_view() == c;
            assert(s[i] == t[i]);
        }
        if s.last().contents_view() == c {
            assert(s[s.len() - 1] == s.last());
        }
        if has_matching(s, c) {
            let i = choose|i: int| 0 <= i < s.len() && (#[trigger] s[i]).contents_view() == c;
            if i < s.len() - 1 {
                assert(t[i] == s[i]);
                assert(has_matching(t, c));
            }
        }
        if !has_matching(s, c) {
            assert forall|i: int| 0 <= i < t.len() implies (#[trigger] t[i]).contents_view() != c by {
                assert(s[i] == t[i]);
            }
            assert(s.map_values(|l: LocalApiSpecFile| l.name_view()) =~= t.map_values(
                |l: LocalApiSpecFile| l.name_view(),
            ).push(s.last().name_view()));
        }
    }
}

/// Resolves a version that is not blessed upstream: some local document
/// must have the generated contents, and no other local document may exist.
/// `validation` holds the problems found while validating the generated
/// document.
pub fn resolve_api_version_local(
    validation: Vec<Problem>,
    generated: &GeneratedApiSpecFile,
    local: &Vec<LocalApiSpecFile>,
) -> (res: Resolution)
    requires
        all_versioned(local@),
    ensures
        res.kind_view() == ResolutionKind::NewLocally,
        local_version_spec(res.problems_view(), validation@, *generated, local@),
{
    let ghost c = generated.contents@;
    let mut names: Vec<ApiSpecFileName> = Vec::new();
    let mut vnames: Vec<VersionedApiSpecFileName> = Vec::new();
    let mut i: usize = 0;
    while i < local.len()
        invariant
            i <= local@.len(),
            all_versioned(local@),
            c == generated.contents@,
            names@ == unmatched_names(local@.subrange(0, i as int), c),
            vnames@ == names@.map_values(|n: ApiSpecFileName| versioned_of(n)),
        decreases local@.len() - i,
    {
        proof {
            assert(local@.subrange(0, i + 1).drop_last() =~= local@.subrange(0, i as int));
        }
        if !bytes_eq(local[i].contents(), generated.contents.as_slice()) {
            let n = local[i].spec_file_name().duplicate();
            let v = match local[i].spec_file_name().as_versioned() {
                Some(v) => v.duplicate(),
                None => vstd::pervasive::unreached(),
            };
            proof {
                assert(versioned_of(n) == v);
            }
            names.push(n);
            vnames.push(v);
            proof {
                assert(vnames@ =~= names@.map_values(|n: ApiSpecFileName| versioned_of(n)));
            }
        }
        i = i + 1;
    }
    proof {
        assert(local@.subrange(0, local@.len() as int) =~= local@);
        lemma_unmatched_len(local@, c);
    }
    let mut problems = validation;
    if names.len() == local.len() {
        if local.len() == 0 {
            problems.push(Problem::LocalVersionMissingLocal { generated: generated.name.duplicate() });
        } else {
            problems.push(
                Problem::LocalVersionStale { spec_files: names, generated: generated.name.duplicate() },
            );
            assert(problems@.subrange(0, validation@.len() as int) =~= validation@);
        }
    } else if names.len() > 0 {
        problems.push(Problem::LocalVersionExtra { spec_file_names: vnames });
        assert(problems@.subrange(0, validation@.len() as int) =~= validation@);
    }
    Resolution::new_new_locally(problems)
}

/// The problems of a lockstep API: `p0`, then a missing or stale local
/// document, unless the single local document has the generated contents.
pub open spec fn lockstep_spec(
    p0: Seq<Problem>,
    generated: GeneratedApiSpecFile,
    local: Seq<LocalApiSpecFile>,
) -> Seq<Problem> {
    if local.len() == 0 {
        p0.push(Problem::LockstepMissingLocal { generated: generated.name })
    } else if local[0].contents_view() == generated.contents@ {
        p0
    } else {
        p0.push(Problem::LockstepStale { found: local[0].name_view(), generated: generated.name })
    }
}

/// Resolves a lockstep API, which has at most one local document.
/// `validation` holds the problems found while validating the generated
/// document.
pub fn resolve_api_lockstep(
    validation: Vec<Problem>,
    generated: &GeneratedApiSpecFile,
    local: &Vec<LocalApiSpecFile>,
) -> (res: Resolution)
    requires
        local@.len() <= 1,
    ensures
        res.kind_view() == ResolutionKind::Lockstep,
        res.problems_view() == lockstep_spec(validation@, *generated, local@),
{
    let mut problems = validation;
    if local.len() == 0 {
        problems.push(Problem::LockstepMissingLocal { generated: generated.name.duplicate() });
    } else if !bytes_eq(local[0].contents(), generated.contents.as_slice()) {
        problems.push(
            Problem::LockstepStale {
                found: local[0].spec_file_name().duplicate(),
                generated: generated.name.duplicate(),
            },
        );
    }
    Resolution::new_lockstep(problems)
}

/// The resolution of a version whose generated document is missing: a
/// single unfixable problem.
pub fn generated_source_missing(ident: &ApiIdent, kind: ResolutionKind) -> (res: Resolution)
    ensures
        res.kind_view() == kind,
        res.problems_view() == seq![Problem::GeneratedSourceMissing { api_ident: *ident }],
{
    let mut problems: Vec<Problem> = Vec::new();
    problems.push(Problem::GeneratedSourceMissing { api_ident: ident.duplicate() });
    Resolution { kind, problems }
}

/// Two versioned file names are equal part by part.
pub open spec fn same_file_name(a: VersionedApiSpecFileName, b: VersionedApiSpecFileName) -> bool {
    &&& a.ident_view() == b.ident_view()
    &&& same_version(a.version_view(), b.version_view())
    &&& a.hash_view() == b.hash_view()
    &&& a.kind_view() == b.kind_view()
}

/// The problem with the "latest" link of a versioned API, if any.
/// `latest_generated` is the generated document of the latest version,
/// `kind` that version's resolution, `blessed_link` the blessed document
/// of that version (when it is blessed) and `latest_local` the local
/// document the link points at (if there is a link). A blessed latest
/// version is linked to its blessed document; otherwise to the generated
/// one. A link to a blessed document of the same version is left alone,
/// since the generated document may differ from it in trivial ways.
pub open spec fn latest_link_spec(
    ident: ApiIdent,
    latest_generated: VersionedApiSpecFileName,
    kind: ResolutionKind,
    blessed_link: Option<VersionedApiSpecFileName>,
    latest_local: Option<VersionedApiSpecFileName>,
) -> Option<Problem> {
    let link = if kind == ResolutionKind::Blessed {
        blessed_link.unwrap()
    } else {
        latest_generated
    };
    match latest_local {
        Some(found) => if same_file_name(found, latest_generated) {
            None
        } else if kind == ResolutionKind::Blessed && same_version(
            latest_generated.version_view(),
            found.version_view(),
        ) {
            None
        } else {
            Some(Problem::LatestLinkStale { api_ident: ident, found, link })
        },
        None => Some(Problem::LatestLinkMissing { api_ident: ident, link }),
    }
}

/// Checks the "latest" link of a versioned API (see `latest_link_spec`).
pub fn latest_link_problem(
    ident: &ApiIdent,
    latest_generated: &VersionedApiSpecFileName,
    kind: ResolutionKind,
    blessed_link: Option<&VersionedApiSpecFileName>,
    latest_local: Option<&VersionedApiSpecFileName>,
) -> (res: Option<Problem>)
    requires
        kind != ResolutionKind::Lockstep,
        kind == ResolutionKind::Blessed ==> blessed_link is Some,
    ensures
        res == latest_link_spec(
            *ident,
            *latest_generated,
            kind,
            match blessed_link {
                Some(b) => Some(*b),
                None => None,
            },
            match latest_local {
                Some(l) => Some(*l),
                None => None,
            },
        ),
{
    let link = if kind == ResolutionKind::Blessed {
        match blessed_link {
            Some(b) => b.duplicate(),
            None => vstd::pervasive::unreached(),
        }
    } else {
        latest_generated.duplicate()
    };
    match latest_local {
        Some(found) => {
            if found.same_as(latest_generated) {
                None
            } else if kind == ResolutionKind::Blessed && latest_generated.version().same_as(
                found.version(),
            ) {
                None
            } else {
                Some(
                    Problem::LatestLinkStale {
                        api_ident: ident.duplicate(),
                        found: found.duplicate(),
                        link,
                    },
                )
            }
        },
        None => Some(Problem::LatestLinkMissing { api_ident: ident.duplicate(), link }),
    }
}

} // verus!
