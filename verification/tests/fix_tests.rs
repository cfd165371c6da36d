use dropshot_api_manager::names::{ApiIdent, ApiSpecFileName, LockstepApiSpecFileName, SemVersion, VersionedApiSpecFileName};
use dropshot_api_manager::problems::{CheckStale, CommitHash, Fix, GitStubRef, Problem};

fn name(hash: &str) -> VersionedApiSpecFileName {
    VersionedApiSpecFileName::new(ApiIdent::from_str("api"), SemVersion::parse("1.0.0").unwrap(), hash.to_string())
}

fn stub() -> GitStubRef {
    GitStubRef {
        commit: CommitHash::parse("0123456789abcdef0123456789abcdef01234567").unwrap(),
        path: "openapi/api/api-1.0.0-aaaa.json".to_string(),
    }
}

#[test]
fn fix_descriptions() {
    let delete = Fix::DeleteFiles {
        files: vec![ApiSpecFileName::Versioned(name("aaaa")), ApiSpecFileName::Versioned(name("bbbb"))],
    };
    assert_eq!(
        delete.description(),
        "delete files: api/api-1.0.0-aaaa.json, api/api-1.0.0-bbbb.json\n"
    );
    let update = Fix::UpdateVersionedFiles {
        old: vec![ApiSpecFileName::Versioned(name("aaaa"))],
        generated: ApiSpecFileName::Versioned(name("bbbb")),
    };
    assert_eq!(
        update.description(),
        "remove old file: api/api-1.0.0-aaaa.json\nwrite new file api/api-1.0.0-bbbb.json from generated\n"
    );
    let restore = Fix::RestoreFromBlessed { blessed: name("aaaa"), git_stub: Some(stub()) };
    assert_eq!(
        restore.description(),
        "restore api/api-1.0.0-aaaa.json.gitref from blessed content as Git stub\n"
    );
    let lockstep = Fix::UpdateLockstepFile {
        generated: ApiSpecFileName::Lockstep(LockstepApiSpecFileName::new(ApiIdent::from_str("api"))),
    };
    assert_eq!(lockstep.description(), "rewrite lockstep file api.json from generated\n");
    let extra = Fix::UpdateExtraFile { path: "x.txt".to_string(), check_stale: CheckStale::New { expected: Vec::new() } };
    assert_eq!(extra.description(), "write new file x.txt from generated\n");
    let symlink = Fix::UpdateSymlink { api_ident: ApiIdent::from_str("api"), link: name("aaaa").to_git_ref() };
    assert_eq!(symlink.description(), "update symlink to point to api-1.0.0-aaaa.json\n");
    let update_stub = Fix::UpdateGitStub { local_file: ApiSpecFileName::Versioned(name("aaaa").to_git_ref()), git_stub: stub() };
    assert_eq!(
        update_stub.description(),
        "update Git stub api/api-1.0.0-aaaa.json.gitref to commit 0123456789abcdef0123456789abcdef01234567\n"
    );
}

#[test]
fn fix_paths_written() {
    let convert = Fix::ConvertToGitStub { local_file: ApiSpecFileName::Versioned(name("aaaa")), git_stub: stub() };
    assert_eq!(convert.path_written().unwrap(), "api/api-1.0.0-aaaa.json.gitref");
    let to_json = Fix::ConvertToJson { local_file: ApiSpecFileName::Versioned(name("aaaa").to_git_ref()), blessed: name("aaaa") };
    assert_eq!(to_json.path_written().unwrap(), "api/api-1.0.0-aaaa.json");
    let regen = Fix::RegenerateFromBlessed { local_file: ApiSpecFileName::Versioned(name("aaaa")), blessed: name("aaaa"), git_stub: None };
    assert_eq!(regen.path_written().unwrap(), "api/api-1.0.0-aaaa.json");
    assert!(Fix::DeleteUnparseableFile { path: "x".to_string() }.path_written().is_none());
}

#[test]
fn problems_have_matching_fixes() {
    let p = Problem::DuplicateLocalFile { local_file: ApiSpecFileName::Versioned(name("aaaa")) };
    match p.fix() {
        Some(Fix::DeleteFiles { files }) => assert_eq!(files, vec![ApiSpecFileName::Versioned(name("aaaa"))]),
        other => panic!("unexpected: {other:?}"),
    }
    let unfixable = Problem::BlessedVersionCompareError { error: "x".to_string() };
    assert!(unfixable.fix().is_none());
}
