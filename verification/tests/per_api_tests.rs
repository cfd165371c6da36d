use dropshot_api_manager::names::{ApiIdent, ApiSpecFileName, SemVersion, VersionedApiSpecFileName};
use dropshot_api_manager::per_api::{latest_first_commit, resolve_api_versioned, ApiSettings, VersionInput, VersionInputs};
use dropshot_api_manager::problems::{CommitHash, GitStubRef, Problem, ProblemKind};
use dropshot_api_manager::resolve::{
    BlessedApiSpecFile, CompatOutcome, GeneratedApiSpecFile, LatestFirstCommit, LocalApiSpecFile,
    ResolutionKind, StubOutcome,
};

fn v(s: &str) -> SemVersion {
    SemVersion::parse(s).unwrap()
}

fn name(ver: &str, hash: &str) -> VersionedApiSpecFileName {
    VersionedApiSpecFileName::new(ApiIdent::from_str("api"), v(ver), hash.to_string())
}

fn local(ver: &str, hash: &str, contents: &[u8]) -> LocalApiSpecFile {
    LocalApiSpecFile::Valid {
        name: ApiSpecFileName::Versioned(name(ver, hash)),
        contents: contents.to_vec(),
        git_stub_commit: None,
    }
}

#[test]
fn first_commit_of_latest() {
    let c = CommitHash::parse("0123456789abcdef0123456789abcdef01234567").unwrap();
    let g = GitStubRef { commit: c.clone(), path: "p".to_string() };
    assert!(matches!(latest_first_commit(false, StubOutcome::NoStub), (LatestFirstCommit::NotBlessed, None)));
    assert!(matches!(latest_first_commit(true, StubOutcome::NoStub), (LatestFirstCommit::BlessedError, None)));
    match latest_first_commit(true, StubOutcome::Stub(g)) {
        (LatestFirstCommit::Blessed(x), None) => assert_eq!(x, c),
        other => panic!("unexpected: {other:?}"),
    }
    assert!(matches!(
        latest_first_commit(true, StubOutcome::Failed("e".to_string())),
        (LatestFirstCommit::BlessedError, Some(_))
    ));
}

#[test]
fn versions_and_latest_link() {
    let versions = vec![
        VersionInput {
            version: v("1.0.0"),
            inputs: VersionInputs::Blessed {
                validation: Vec::new(),
                compat: CompatOutcome::Issues(Vec::new()),
                blessed: BlessedApiSpecFile::new(ApiSpecFileName::Versioned(name("1.0.0", "aaaa")), b"one".to_vec()),
                stub: StubOutcome::NoStub,
                generated: GeneratedApiSpecFile {
                    name: ApiSpecFileName::Versioned(name("1.0.0", "aaaa")),
                    contents: b"one".to_vec(),
                },
                local: vec![local("1.0.0", "aaaa", b"one")],
            },
        },
        VersionInput {
            version: v("2.0.0"),
            inputs: VersionInputs::Local {
                validation: Vec::new(),
                generated: GeneratedApiSpecFile {
                    name: ApiSpecFileName::Versioned(name("2.0.0", "bbbb")),
                    contents: b"two".to_vec(),
                },
                local: Vec::new(),
            },
        },
    ];
    let settings = ApiSettings { allows_trivial_changes_for_latest: false, use_git_stub_storage: false };
    let resolved = resolve_api_versioned(
        &ApiIdent::from_str("api"),
        &settings,
        &LatestFirstCommit::NotBlessed,
        Some("ignored: latest is not blessed".to_string()),
        versions,
        Some((name("2.0.0", "bbbb"), Some(name("1.0.0", "aaaa")))),
    );
    assert_eq!(resolved.by_version.len(), 2);
    assert_eq!(resolved.by_version[0].1.kind(), ResolutionKind::Blessed);
    assert!(!resolved.by_version[0].1.has_problems());
    assert_eq!(resolved.by_version[1].1.kind(), ResolutionKind::NewLocally);
    let kinds: Vec<ProblemKind> = resolved.by_version[1].1.problems().iter().map(|p| p.kind()).collect();
    assert_eq!(kinds, vec![ProblemKind::LocalVersionMissingLocal]);
    match &resolved.symlink {
        Some(Problem::LatestLinkStale { link, .. }) => assert_eq!(*link, name("2.0.0", "bbbb")),
        other => panic!("unexpected: {other:?}"),
    }
}
