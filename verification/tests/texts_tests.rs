use dropshot_api_manager::fixes::{FileContents, FileOp};
use dropshot_api_manager::humanize::line_text;
use dropshot_api_manager::resolve::ResolutionKind;
use dropshot_api_manager::titles::{api_doc_line, api_doc_version_line};
use dropshot_api_manager::wrap::StyleRole;
use dropshot_api_manager::names::{ApiIdent, ApiSpecFileName, LockstepApiSpecFileName, SemVersion, VersionedApiSpecFileName};
use dropshot_api_manager::problems::{CheckStale, CommitHash, Fix, GitStubRef, Problem};
use dropshot_api_manager::summary::{
    check_header_text, check_summary_text, generate_result_after_fixes, generate_result_after_recheck,
    generate_status_text, CheckTally, GenerateResult,
};

fn name(hash: &str) -> VersionedApiSpecFileName {
    VersionedApiSpecFileName::new(ApiIdent::from_str("api"), SemVersion::parse("1.0.0").unwrap(), hash.to_string())
}

fn stub() -> GitStubRef {
    GitStubRef {
        commit: CommitHash::parse("0123456789abcdef0123456789abcdef01234567").unwrap(),
        path: "openapi/api/api-1.0.0-aaaa.json".to_string(),
    }
}

#[test]
fn check_texts() {
    assert_eq!(check_header_text(1), "1 OpenAPI document...");
    assert_eq!(check_header_text(3), "3 OpenAPI documents...");
    let t = CheckTally { fresh: 2, stale: 1, failed: 0, other: 1 };
    assert_eq!(check_summary_text(3, &t), "3 documents checked: 2 fresh, 1 stale, 0 failed, 1 other problem");
}

#[test]
fn generate_texts_and_results() {
    assert_eq!(generate_status_text(2, 1, 1, 0), "2 documents: 1 change made, 1 unchanged, 0 failed");
    assert_eq!(generate_status_text(1, 0, 0, 1), "1 document: 0 changes made, 0 unchanged, 1 failed");
    assert_eq!(generate_result_after_fixes(0), None);
    assert_eq!(generate_result_after_fixes(2), Some(GenerateResult::Failures));
    assert_eq!(generate_result_after_recheck(0), Some(GenerateResult::Success));
    assert_eq!(generate_result_after_recheck(1), None);
    assert_eq!(GenerateResult::Success.to_exit_code(), 0);
    assert_eq!(GenerateResult::Failures.to_exit_code(), 100);
}

#[test]
fn problem_messages() {
    let p = Problem::UnparseableLocalFile { path: "api/x.json".to_string() };
    assert_eq!(
        p.message(),
        "A local OpenAPI document could not be parsed: api/x.json. This may happen if the file has merge \
         conflict markers or is otherwise corrupted. This tool can delete this file and regenerate the correct \
         one for you."
    );
    let p = Problem::LatestLinkMissing { api_ident: ApiIdent::from_str("api"), link: name("aaaa") };
    assert_eq!(p.message(), "\"Latest\" symlink for versioned API \"api\" is missing");
    let p = Problem::LatestLinkStale { api_ident: ApiIdent::from_str("api"), found: name("aaaa"), link: name("bbbb") };
    assert_eq!(
        p.message(),
        "\"Latest\" symlink for versioned API \"api\" is stale: points to api-1.0.0-aaaa.json, but should be \
         api-1.0.0-bbbb.json"
    );
    let lockstep = ApiSpecFileName::Lockstep(LockstepApiSpecFileName::new(ApiIdent::from_str("api")));
    let p = Problem::LockstepStale { found: lockstep.clone(), generated: lockstep };
    assert_eq!(
        p.message(),
        "For this lockstep API, OpenAPI document generated from the current code does not match the local \
         file: \"api.json\".  This tool can update the local file for you."
    );
    let p = Problem::GeneratedValidationError {
        api_ident: ApiIdent::from_str("api"),
        version: SemVersion::parse("1.2.3").unwrap(),
        source: "bad".to_string(),
    };
    assert_eq!(p.message(), "Generated OpenAPI document for API \"api\" version 1.2.3 is not valid");
}

#[test]
fn git_stub_file_contents() {
    assert_eq!(stub().file_contents(), "0123456789abcdef0123456789abcdef01234567:openapi/api/api-1.0.0-aaaa.json\n");
}

#[test]
fn plans_of_fixes() {
    let plan = Fix::ConvertToGitStub { local_file: ApiSpecFileName::Versioned(name("aaaa")), git_stub: stub() }.plan();
    assert_eq!(plan.len(), 2);
    match &plan[0] {
        FileOp::Write { path, contents: FileContents::Text(t), repo_relative } => {
            assert_eq!(path, "api/api-1.0.0-aaaa.json.gitref");
            assert_eq!(t, &stub().file_contents());
            assert!(!repo_relative);
        },
        other => panic!("unexpected: {other:?}"),
    }
    match &plan[1] {
        FileOp::Remove { path, missing_ok } => {
            assert_eq!(path, "api/api-1.0.0-aaaa.json");
            assert!(!missing_ok);
        },
        other => panic!("unexpected: {other:?}"),
    }

    let plan = Fix::UpdateVersionedFiles {
        old: vec![ApiSpecFileName::Versioned(name("aaaa")), ApiSpecFileName::Versioned(name("bbbb"))],
        generated: ApiSpecFileName::Versioned(name("cccc")),
    }
    .plan();
    assert_eq!(plan.len(), 3);
    assert!(matches!(&plan[0], FileOp::Remove { path, missing_ok: false } if path == "api/api-1.0.0-aaaa.json"));
    assert!(matches!(&plan[1], FileOp::Remove { path, missing_ok: false } if path == "api/api-1.0.0-bbbb.json"));
    assert!(matches!(
        &plan[2],
        FileOp::Write { path, contents: FileContents::Generated(_), repo_relative: false } if path == "api/api-1.0.0-cccc.json"
    ));

    let plan = Fix::UpdateSymlink { api_ident: ApiIdent::from_str("api"), link: name("aaaa").to_git_ref() }.plan();
    assert!(matches!(
        &plan[0],
        FileOp::Symlink { path, target } if path == "api/api-latest.json" && target == "api-1.0.0-aaaa.json"
    ));

    let plan = Fix::UpdateExtraFile {
        path: "x.txt".to_string(),
        check_stale: CheckStale::Modified { full_path: "/r/x.txt".to_string(), actual: vec![1], expected: vec![2, 3] },
    }
    .plan();
    assert!(matches!(
        &plan[0],
        FileOp::Write { path, contents: FileContents::Bytes(b), repo_relative: true } if path == "x.txt" && b == &vec![2u8, 3]
    ));

    let plan = Fix::RegenerateFromBlessed {
        local_file: ApiSpecFileName::Versioned(name("aaaa")),
        blessed: name("aaaa"),
        git_stub: None,
    }
    .plan();
    assert!(matches!(&plan[0], FileOp::Remove { missing_ok: true, .. }));
    assert!(matches!(&plan[1], FileOp::Write { contents: FileContents::Blessed(_), .. }));
}

#[test]
fn api_titles() {
    let dns = ApiIdent::from_str("dns-server");
    let v3 = SemVersion::parse("3.0.0").unwrap();
    assert_eq!(
        line_text(&api_doc_line(&dns, "DNS Server", true, 3, &v3)),
        "dns-server (DNS Server, versioned (3 supported), latest = 3.0.0)"
    );
    let wicketd = ApiIdent::from_str("wicketd");
    let v001 = SemVersion::parse("0.0.1").unwrap();
    assert_eq!(line_text(&api_doc_line(&wicketd, "Wicket", false, 1, &v001)), "wicketd (Wicket, lockstep, v0.0.1)");
    let v1 = SemVersion::parse("1.0.0").unwrap();
    assert_eq!(
        line_text(&api_doc_version_line(&dns, &v1, false, ResolutionKind::Blessed, "DNS Server")),
        "dns-server (versioned v1.0.0 (blessed)): DNS Server"
    );
    assert_eq!(
        line_text(&api_doc_version_line(&dns, &v1, false, ResolutionKind::NewLocally, "DNS Server")),
        "dns-server (versioned v1.0.0 (added locally)): DNS Server"
    );
    let line = api_doc_version_line(&wicketd, &v001, true, ResolutionKind::Lockstep, "Wicket");
    assert_eq!(line_text(&line), "wicketd (lockstep v0.0.1): Wicket");
    assert_eq!(line.spans()[0].style, StyleRole::Filename);
}
