use dropshot_api_manager::names::{ApiIdent, SemVersion};
use dropshot_api_manager::plural;
use dropshot_api_manager::problems::{Problem, ProblemKind};
use dropshot_api_manager::resolve::Resolution;
use dropshot_api_manager::summary::{
    check_result, tally_check, CheckResult, CheckTally, ItemStatus, FAILURE_EXIT_CODE,
    NEEDS_UPDATE_EXIT_CODE,
};

fn missing() -> Problem {
    Problem::GeneratedSourceMissing { api_ident: ApiIdent::from_str("api") }
}

fn orphan_fixable() -> Problem {
    Problem::UnparseableLocalFile { path: "api/x.json".to_string() }
}

#[test]
fn exit_codes() {
    assert_eq!(CheckResult::Success.to_exit_code(), 0);
    assert_eq!(CheckResult::NeedsUpdate.to_exit_code(), NEEDS_UPDATE_EXIT_CODE);
    assert_eq!(CheckResult::Failures.to_exit_code(), FAILURE_EXIT_CODE);
    assert_eq!(NEEDS_UPDATE_EXIT_CODE, 4);
    assert_eq!(FAILURE_EXIT_CODE, 100);
}

#[test]
fn statuses_of_resolutions() {
    assert_eq!(Resolution::new_blessed(Vec::new()).status(), ItemStatus::Fresh);
    assert_eq!(Resolution::new_blessed(vec![orphan_fixable()]).status(), ItemStatus::Stale);
    assert_eq!(Resolution::new_blessed(vec![orphan_fixable(), missing()]).status(), ItemStatus::Failed);
}

#[test]
fn tally_and_result() {
    let rs = vec![
        Resolution::new_blessed(Vec::new()),
        Resolution::new_new_locally(vec![orphan_fixable()]),
    ];
    let links = vec![None, Some(orphan_fixable())];
    let others: Vec<Problem> = Vec::new();
    let t = tally_check(&rs, &links, &others);
    assert_eq!(t, CheckTally { fresh: 2, stale: 1, failed: 0, other: 1 });
    assert_eq!(check_result(&t), CheckResult::NeedsUpdate);

    let others = vec![missing()];
    let t = tally_check(&rs, &links, &others);
    assert_eq!(t.failed, 1);
    assert_eq!(check_result(&t), CheckResult::Failures);

    let clean = vec![Resolution::new_lockstep(Vec::new())];
    let t = tally_check(&clean, &vec![None], &Vec::new());
    assert_eq!(check_result(&t), CheckResult::Success);
}

#[test]
fn plural_words() {
    assert_eq!(plural::files(1), "file");
    assert_eq!(plural::files(0), "files");
    assert_eq!(plural::changes(2), "changes");
    assert_eq!(plural::documents(1), "document");
    assert_eq!(plural::errors(3), "errors");
    assert_eq!(plural::paths(1), "path");
    assert_eq!(plural::problems(2), "problems");
    assert_eq!(plural::schemas(1), "schema");
}

#[test]
fn kinds_and_fixability() {
    assert_eq!(missing().kind(), ProblemKind::GeneratedSourceMissing);
    assert!(!missing().is_fixable());
    assert!(orphan_fixable().is_fixable());
    let _ = SemVersion::parse("1.2.3").unwrap();
}
