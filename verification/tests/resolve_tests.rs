use dropshot_api_manager::listing::DisplayableVec;
use dropshot_api_manager::names::{
    ApiIdent, ApiSpecFileName, LockstepApiSpecFileName, SemVersion, VersionedApiSpecFileName,
};
use dropshot_api_manager::problems::{CheckStale, CommitHash, GitStubRef, Problem, ProblemKind};
use dropshot_api_manager::resolve::{
    latest_link_problem, resolve_api_lockstep, resolve_api_version_blessed,
    resolve_api_version_local, storage_format_for_blessed, validation_problems,
    BlessedApiSpecFile, BlessedVersionOptions, CompatOutcome, ExtraFileStatus,
    GeneratedApiSpecFile, LatestFirstCommit, LocalApiSpecFile, LocalApiUnparseable,
    ResolutionKind, StubOutcome, ValidationOutcome, VersionStorageFormat,
};

// Test commit hashes.
const COMMIT_A: &str = "aaaaaaaaaaaaaaaaaaaaaaaaaaaaaaaaaaaaaaaa";
const COMMIT_B: &str = "bbbbbbbbbbbbbbbbbbbbbbbbbbbbbbbbbbbbbbbb";

fn commit(s: &str) -> CommitHash {
    CommitHash::parse(s).unwrap()
}

fn git_stub(s: &str) -> GitStubRef {
    GitStubRef { commit: commit(s), path: "test/path.json".to_string() }
}

#[test]
fn test_displayable_vec() {
    let v = DisplayableVec(Vec::<usize>::new());
    assert_eq!(v.to_string(), "");

    let v = DisplayableVec(vec![8]);
    assert_eq!(v.to_string(), "8");

    let v = DisplayableVec(vec![8, 12, 14]);
    assert_eq!(v.to_string(), "8, 12, 14");
}

#[test]
fn test_storage_format_for_blessed() {
    let current = git_stub(COMMIT_A);

    assert!(
        matches!(
            storage_format_for_blessed(&LatestFirstCommit::NotBlessed, current.clone()),
            VersionStorageFormat::GitStub(_)
        ),
        "latest NotBlessed => always GitStub"
    );

    let latest = LatestFirstCommit::Blessed(commit(COMMIT_A));
    assert!(
        matches!(storage_format_for_blessed(&latest, current.clone()), VersionStorageFormat::Json),
        "latest Blessed with same commit => Json"
    );

    let latest = LatestFirstCommit::Blessed(commit(COMMIT_B));
    assert!(
        matches!(
            storage_format_for_blessed(&latest, current.clone()),
            VersionStorageFormat::GitStub(_)
        ),
        "latest Blessed with different commit => GitStub"
    );

    assert!(
        matches!(
            storage_format_for_blessed(&LatestFirstCommit::BlessedError, current),
            VersionStorageFormat::Error
        ),
        "latest BlessedError => Error"
    );
}

fn ident() -> ApiIdent {
    ApiIdent::from_str("api")
}

fn version(s: &str) -> SemVersion {
    SemVersion::parse(s).unwrap()
}

fn vname(v: &str, hash: &str) -> VersionedApiSpecFileName {
    VersionedApiSpecFileName::new(ident(), version(v), hash.to_string())
}

fn vref(v: &str, hash: &str) -> VersionedApiSpecFileName {
    VersionedApiSpecFileName::new_git_ref(ident(), version(v), hash.to_string())
}

fn local(n: VersionedApiSpecFileName, contents: &[u8]) -> LocalApiSpecFile {
    LocalApiSpecFile::Valid {
        name: ApiSpecFileName::Versioned(n),
        contents: contents.to_vec(),
        git_stub_commit: None,
    }
}

fn local_ref(n: VersionedApiSpecFileName, contents: &[u8], c: &str) -> LocalApiSpecFile {
    LocalApiSpecFile::Valid {
        name: ApiSpecFileName::Versioned(n),
        contents: contents.to_vec(),
        git_stub_commit: Some(commit(c)),
    }
}

fn opts(is_latest: bool, git_stubs: bool, latest: LatestFirstCommit) -> BlessedVersionOptions {
    BlessedVersionOptions {
        is_latest,
        allows_trivial_changes_for_latest: false,
        use_git_stub_storage: git_stubs,
        latest_first_commit: latest,
    }
}

fn kinds(problems: &[Problem]) -> Vec<ProblemKind> {
    problems.iter().map(|p| p.kind()).collect()
}

fn blessed(v: &str, hash: &str, contents: &[u8]) -> BlessedApiSpecFile {
    BlessedApiSpecFile::new(ApiSpecFileName::Versioned(vname(v, hash)), contents.to_vec())
}

fn generated(v: &str, hash: &str, contents: &[u8]) -> GeneratedApiSpecFile {
    GeneratedApiSpecFile { name: ApiSpecFileName::Versioned(vname(v, hash)), contents: contents.to_vec() }
}

#[test]
fn blessed_version_up_to_date_has_no_problems() {
    let b = blessed("1.0.0", "aaaa", b"doc");
    let g = generated("1.0.0", "aaaa", b"doc");
    let locals = vec![local(vname("1.0.0", "aaaa"), b"doc")];
    let r = resolve_api_version_blessed(
        Vec::new(),
        CompatOutcome::Issues(Vec::new()),
        &opts(true, false, LatestFirstCommit::NotBlessed),
        &b,
        StubOutcome::NoStub,
        &g,
        &locals,
    );
    assert_eq!(r.kind(), ResolutionKind::Blessed);
    assert!(!r.has_problems());
}

#[test]
fn blessed_latest_bytewise_mismatch_and_extra_local() {
    let b = blessed("1.0.0", "aaaa", b"doc");
    let g = generated("1.0.0", "bbbb", b"doc2");
    let locals = vec![local(vname("1.0.0", "aaaa"), b"doc"), local(vname("1.0.0", "bbbb"), b"doc2")];
    let r = resolve_api_version_blessed(
        Vec::new(),
        CompatOutcome::Issues(Vec::new()),
        &opts(true, false, LatestFirstCommit::NotBlessed),
        &b,
        StubOutcome::NoStub,
        &g,
        &locals,
    );
    assert_eq!(
        kinds(r.problems()),
        vec![
            ProblemKind::BlessedLatestVersionBytewiseMismatch,
            ProblemKind::BlessedVersionExtraLocalSpec
        ]
    );
    assert!(r.has_errors());
}

#[test]
fn blessed_compare_error_skips_bytewise_check() {
    let b = blessed("1.0.0", "aaaa", b"doc");
    let g = generated("1.0.0", "bbbb", b"doc2");
    let locals = vec![local(vname("1.0.0", "aaaa"), b"doc")];
    let r = resolve_api_version_blessed(
        Vec::new(),
        CompatOutcome::CompareError("boom".to_string()),
        &opts(true, false, LatestFirstCommit::NotBlessed),
        &b,
        StubOutcome::NoStub,
        &g,
        &locals,
    );
    assert_eq!(kinds(r.problems()), vec![ProblemKind::BlessedVersionCompareError]);
}

#[test]
fn blessed_missing_local_restores_as_git_stub_when_older() {
    let b = blessed("1.0.0", "aaaa", b"doc");
    let g = generated("1.0.0", "aaaa", b"doc");
    let r = resolve_api_version_blessed(
        Vec::new(),
        CompatOutcome::Issues(Vec::new()),
        &opts(false, true, LatestFirstCommit::Blessed(commit(COMMIT_B))),
        &b,
        StubOutcome::Stub(git_stub(COMMIT_A)),
        &g,
        &Vec::new(),
    );
    match &r.problems()[..] {
        [Problem::BlessedVersionMissingLocal { git_stub: Some(g), .. }] => {
            assert_eq!(g.commit.hex, COMMIT_A)
        }
        other => panic!("unexpected problems: {other:?}"),
    }
}

#[test]
fn blessed_first_commit_unknown_is_reported_without_restore() {
    let b = blessed("1.0.0", "aaaa", b"doc");
    let g = generated("1.0.0", "aaaa", b"doc");
    let r = resolve_api_version_blessed(
        Vec::new(),
        CompatOutcome::Issues(Vec::new()),
        &opts(false, true, LatestFirstCommit::NotBlessed),
        &b,
        StubOutcome::Failed("no history".to_string()),
        &g,
        &Vec::new(),
    );
    assert_eq!(kinds(r.problems()), vec![ProblemKind::GitStubFirstCommitUnknown]);
}

#[test]
fn blessed_json_should_become_git_stub_and_stale_stub_is_updated() {
    let b = blessed("1.0.0", "aaaa", b"doc");
    let g = generated("1.0.0", "aaaa", b"doc");
    let o = opts(false, true, LatestFirstCommit::Blessed(commit(COMMIT_B)));
    let json = vec![local(vname("1.0.0", "aaaa"), b"doc")];
    let r = resolve_api_version_blessed(
        Vec::new(),
        CompatOutcome::Issues(Vec::new()),
        &o,
        &b,
        StubOutcome::Stub(git_stub(COMMIT_A)),
        &g,
        &json,
    );
    assert_eq!(kinds(r.problems()), vec![ProblemKind::BlessedVersionShouldBeGitStub]);

    let stale = vec![local_ref(vref("1.0.0", "aaaa"), b"doc", COMMIT_B)];
    let r = resolve_api_version_blessed(
        Vec::new(),
        CompatOutcome::Issues(Vec::new()),
        &o,
        &b,
        StubOutcome::Stub(git_stub(COMMIT_A)),
        &g,
        &stale,
    );
    assert_eq!(kinds(r.problems()), vec![ProblemKind::GitStubCommitStale]);
}

#[test]
fn blessed_duplicate_and_corrupted_files() {
    let b = blessed("1.0.0", "aaaa", b"doc");
    let g = generated("1.0.0", "aaaa", b"doc");
    let both = vec![
        local(vname("1.0.0", "aaaa"), b"doc"),
        local_ref(vref("1.0.0", "aaaa"), b"doc", COMMIT_A),
    ];
    let r = resolve_api_version_blessed(
        Vec::new(),
        CompatOutcome::Issues(Vec::new()),
        &opts(true, false, LatestFirstCommit::NotBlessed),
        &b,
        StubOutcome::NoStub,
        &g,
        &both,
    );
    assert_eq!(kinds(r.problems()), vec![ProblemKind::DuplicateLocalFile]);

    let corrupted = vec![LocalApiSpecFile::Unparseable(LocalApiUnparseable {
        name: ApiSpecFileName::Versioned(vname("1.0.0", "aaaa")),
        contents: b"<<<<<<<".to_vec(),
    })];
    let r = resolve_api_version_blessed(
        Vec::new(),
        CompatOutcome::Issues(Vec::new()),
        &opts(true, false, LatestFirstCommit::NotBlessed),
        &b,
        StubOutcome::NoStub,
        &g,
        &corrupted,
    );
    assert_eq!(kinds(r.problems()), vec![ProblemKind::BlessedVersionCorruptedLocal]);
    assert!(!r.has_errors());
}

#[test]
fn local_version_missing_stale_and_extra() {
    let g = generated("2.0.0", "cccc", b"new");
    let r = resolve_api_version_local(Vec::new(), &g, &Vec::new());
    assert_eq!(r.kind(), ResolutionKind::NewLocally);
    assert_eq!(kinds(r.problems()), vec![ProblemKind::LocalVersionMissingLocal]);

    let stale = vec![local(vname("2.0.0", "dddd"), b"old")];
    let r = resolve_api_version_local(Vec::new(), &g, &stale);
    assert_eq!(kinds(r.problems()), vec![ProblemKind::LocalVersionStale]);

    let extra = vec![local(vname("2.0.0", "cccc"), b"new"), local(vname("2.0.0", "dddd"), b"old")];
    let r = resolve_api_version_local(Vec::new(), &g, &extra);
    match &r.problems()[..] {
        [Problem::LocalVersionExtra { spec_file_names }] => {
            assert_eq!(spec_file_names.len(), 1);
            assert_eq!(spec_file_names[0].hash(), "dddd");
        }
        other => panic!("unexpected problems: {other:?}"),
    }

    let fresh = vec![local(vname("2.0.0", "cccc"), b"new")];
    assert!(!resolve_api_version_local(Vec::new(), &g, &fresh).has_problems());
}

#[test]
fn lockstep_missing_stale_and_fresh() {
    let name = ApiSpecFileName::Lockstep(LockstepApiSpecFileName::new(ident()));
    let g = GeneratedApiSpecFile { name: name.clone(), contents: b"doc".to_vec() };
    let r = resolve_api_lockstep(Vec::new(), &g, &Vec::new());
    assert_eq!(r.kind(), ResolutionKind::Lockstep);
    assert_eq!(kinds(r.problems()), vec![ProblemKind::LockstepMissingLocal]);
    let stale = vec![LocalApiSpecFile::Valid {
        name: name.clone(),
        contents: b"old".to_vec(),
        git_stub_commit: None,
    }];
    assert_eq!(kinds(resolve_api_lockstep(Vec::new(), &g, &stale).problems()), vec![ProblemKind::LockstepStale]);
    let fresh = vec![LocalApiSpecFile::Valid { name, contents: b"doc".to_vec(), git_stub_commit: None }];
    assert!(!resolve_api_lockstep(Vec::new(), &g, &fresh).has_problems());
}

#[test]
fn latest_link_cases() {
    let lg = vname("2.0.0", "bbbb");
    let blessed_link = vname("2.0.0", "aaaa");
    // Up to date.
    assert!(latest_link_problem(&ident(), &lg, ResolutionKind::NewLocally, None, Some(&lg)).is_none());
    // Blessed version with trivial changes: the link stays.
    assert!(latest_link_problem(
        &ident(),
        &lg,
        ResolutionKind::Blessed,
        Some(&blessed_link),
        Some(&blessed_link)
    )
    .is_none());
    // Link to an older version: point it at the blessed document.
    let old = vname("1.0.0", "eeee");
    match latest_link_problem(&ident(), &lg, ResolutionKind::Blessed, Some(&blessed_link), Some(&old)) {
        Some(Problem::LatestLinkStale { link, found, .. }) => {
            assert_eq!(link, blessed_link);
            assert_eq!(found, old);
        }
        other => panic!("unexpected: {other:?}"),
    }
    // No link at all, version added locally.
    match latest_link_problem(&ident(), &lg, ResolutionKind::NewLocally, None, None) {
        Some(Problem::LatestLinkMissing { link, .. }) => assert_eq!(link, lg),
        other => panic!("unexpected: {other:?}"),
    }
}

#[test]
fn validation_outcomes() {
    let v = version("1.0.0");
    let failed = validation_problems(&ident(), &v, ValidationOutcome::Failed("bad".to_string()));
    assert_eq!(kinds(&failed), vec![ProblemKind::GeneratedValidationError]);
    let checked = validation_problems(
        &ident(),
        &v,
        ValidationOutcome::Checked(vec![
            ("a.txt".to_string(), ExtraFileStatus::Fresh),
            ("b.txt".to_string(), ExtraFileStatus::Stale(CheckStale::New { expected: b"x".to_vec() })),
        ]),
    );
    match &checked[..] {
        [Problem::ExtraFileStale { path, .. }] => assert_eq!(path, "b.txt"),
        other => panic!("unexpected: {other:?}"),
    }
}
