use dropshot_api_manager::diffing::{diff_plan, DiffAction};
use dropshot_api_manager::generate::{count_outcomes, generate_plan, GenerateAction};
use dropshot_api_manager::names::{ApiIdent, ApiSpecFileName, SemVersion, VersionedApiSpecFileName};
use dropshot_api_manager::overview::{ApiResolved, ApiVersions, Resolved};
use dropshot_api_manager::problems::{Fix, Problem};
use dropshot_api_manager::per_api::{resolve_apis, ApiInputs};
use dropshot_api_manager::resolve::{GeneratedApiSpecFile, Resolution, ResolutionKind};
use dropshot_api_manager::stubs::{read_git_stub, StubReading};
use dropshot_api_manager::summary::GenerateResult;

fn v(s: &str) -> SemVersion {
    SemVersion::parse(s).unwrap()
}

fn id(s: &str) -> ApiIdent {
    ApiIdent::from_str(s)
}

fn name(version: &str, hash: &str) -> VersionedApiSpecFileName {
    VersionedApiSpecFileName::new(id("api"), v(version), hash.to_string())
}

fn resolved(problems_v2: Vec<Problem>) -> Resolved {
    let supported = vec![ApiVersions { ident: id("api"), versions: vec![v("1.0.0"), v("2.0.0")] }];
    let apis = vec![ApiResolved {
        ident: id("api"),
        by_version: vec![
            (v("1.0.0"), Resolution::new_blessed(Vec::new())),
            (v("2.0.0"), Resolution::new_new_locally(problems_v2)),
        ],
        symlink: Some(Problem::LatestLinkMissing { api_ident: id("api"), link: name("2.0.0", "cccc") }),
    }];
    Resolved::new(&supported, &Vec::new(), &Vec::new(), &Vec::new(), apis)
}

#[test]
fn plan_reports_unchanged_versions_and_fixes_the_rest_in_order() {
    let missing = Problem::LocalVersionMissingLocal { generated: ApiSpecFileName::Versioned(name("2.0.0", "cccc")) };
    let plan = generate_plan(&resolved(vec![missing])).unwrap();
    assert_eq!(plan.len(), 3);
    match &plan[0] {
        GenerateAction::Unchanged { ident, version } => {
            assert_eq!(ident.as_str(), "api");
            assert_eq!(version.to_text(), "1.0.0");
        }
        other => panic!("unexpected {other:?}"),
    }
    match &plan[1] {
        GenerateAction::Update { version, fixes, .. } => {
            assert_eq!(version.to_text(), "2.0.0");
            assert_eq!(fixes.len(), 1);
            assert!(matches!(fixes[0], Fix::UpdateVersionedFiles { .. }));
        }
        other => panic!("unexpected {other:?}"),
    }
    assert!(matches!(plan[2], GenerateAction::UpdateLink { .. }));
}

#[test]
fn plan_fails_when_a_problem_cannot_be_fixed() {
    let missing = Problem::GeneratedSourceMissing { api_ident: id("api") };
    assert!(matches!(generate_plan(&resolved(vec![missing])), Err(GenerateResult::Failures)));
}

#[test]
fn outcomes_are_counted() {
    let missing = Problem::LocalVersionMissingLocal { generated: ApiSpecFileName::Versioned(name("2.0.0", "cccc")) };
    let plan = generate_plan(&resolved(vec![missing])).unwrap();
    let counts = count_outcomes(&plan, &vec![true, false]);
    assert_eq!(counts.unchanged, 1);
    assert_eq!(counts.updated, 1);
    assert_eq!(counts.errors, 1);
}

#[test]
fn diff_steps_merge_versions_in_order() {
    let local = vec![(v("1.0.0"), b"a".to_vec()), (v("2.0.0"), b"b".to_vec())];
    let blessed = vec![(v("1.0.0"), b"a".to_vec()), (v("1.5.0"), b"c".to_vec())];
    let steps = diff_plan(&local, &blessed);
    assert_eq!(steps.len(), 3);
    assert_eq!((steps[0].local, steps[0].blessed, steps[0].action), (Some(0), Some(0), DiffAction::Nothing));
    assert_eq!((steps[1].local, steps[1].blessed, steps[1].action), (None, Some(1), DiffAction::Removed));
    assert_eq!(
        (steps[2].local, steps[2].blessed, steps[2].previous, steps[2].action),
        (Some(1), None, Some(1), DiffAction::AddedSincePrevious)
    );
}

#[test]
fn diff_of_a_first_version_shows_it_whole() {
    let local = vec![(v("1.0.0-rc.1"), b"x".to_vec()), (v("1.0.0"), b"y".to_vec())];
    let steps = diff_plan(&local, &Vec::new());
    assert_eq!(steps.len(), 2);
    assert!(steps.iter().all(|s| s.action == DiffAction::AddedWhole && s.previous.is_none()));
    assert_eq!(steps[0].local, Some(0));
}

#[test]
fn unparsed_stub_carries_the_parser_message() {
    match read_git_stub("no-colon") {
        StubReading::NotParsed { message } => assert!(!message.is_empty()),
        other => panic!("unexpected {other:?}"),
    }
}

#[test]
fn every_managed_api_is_resolved() {
    use_resolve_apis();
}

fn use_resolve_apis() {
    let b_name = ApiSpecFileName::Lockstep(dropshot_api_manager::names::LockstepApiSpecFileName::new(id("b")));
    let inputs = vec![
        ApiInputs::Lockstep { ident: id("a"), version: v("1.0.0"), validation: Vec::new(), generated: None, local: Vec::new() },
        ApiInputs::Lockstep {
            ident: id("b"),
            version: v("1.0.0"),
            validation: Vec::new(),
            generated: Some(GeneratedApiSpecFile { name: b_name, contents: b"{}".to_vec() }),
            local: Vec::new(),
        },
    ];
    let resolved = resolve_apis(inputs, &Vec::new(), &Vec::new(), &Vec::new());
    assert_eq!(resolved.nexpected_documents(), 2);
    let a = resolved.resolution_for_api_version(&id("a"), &v("1.0.0")).unwrap();
    assert_eq!(a.kind(), ResolutionKind::Lockstep);
    assert!(matches!(a.problems(), [Problem::GeneratedSourceMissing { .. }]));
    let b = resolved.resolution_for_api_version(&id("b"), &v("1.0.0")).unwrap();
    assert!(matches!(b.problems(), [Problem::LockstepMissingLocal { .. }]));
    let summaries = resolved.problem_summaries();
    assert_eq!(summaries.len(), 2);
}

fn plain(pieces: &[dropshot_api_manager::render::OutPiece]) -> String {
    use_pieces(pieces)
}

fn use_pieces(pieces: &[dropshot_api_manager::render::OutPiece]) -> String {
    let mut out = String::new();
    for p in pieces {
        match p {
            dropshot_api_manager::render::OutPiece::Text { text, .. } => out.push_str(text),
            dropshot_api_manager::render::OutPiece::Spaces(n) => out.push_str(&" ".repeat(*n)),
            dropshot_api_manager::render::OutPiece::Newline => out.push('\n'),
        }
    }
    out
}

#[test]
fn unified_diff_marks_removed_and_added_lines() {
    let pieces = dropshot_api_manager::unidiff::diff_pieces("x.json", "y.json", "a\nb\n", "a\nc\n", 3, true);
    assert_eq!(plain(&pieces), "--- a/x.json\n+++ b/y.json\n@@ -1,2 +1,2 @@\n a\n-b\n+c\n");
}

#[test]
fn identical_texts_have_only_the_header() {
    let pieces = dropshot_api_manager::unidiff::diff_pieces("x", "x", "same\n", "same\n", 3, true);
    assert_eq!(plain(&pieces), "--- a/x\n+++ b/x\n");
}

#[test]
fn check_tally_counts_versions_links_and_other_problems() {
    let missing = Problem::LocalVersionMissingLocal { generated: ApiSpecFileName::Versioned(name("2.0.0", "cccc")) };
    let tally = dropshot_api_manager::summary::tally_resolved(&resolved(vec![missing]));
    assert_eq!((tally.fresh, tally.stale, tally.failed, tally.other), (1, 1, 0, 1));
    assert_eq!(
        dropshot_api_manager::summary::check_result(&tally),
        dropshot_api_manager::summary::CheckResult::NeedsUpdate
    );
}

#[test]
fn versions_of_an_api_without_generated_documents_are_new_locally() {
    let inputs = vec![ApiInputs::VersionedWithoutGenerated { ident: id("api"), versions: vec![v("1.0.0"), v("2.0.0")] }];
    let resolved = resolve_apis(inputs, &Vec::new(), &Vec::new(), &Vec::new());
    for version in ["1.0.0", "2.0.0"] {
        let r = resolved.resolution_for_api_version(&id("api"), &v(version)).unwrap();
        assert_eq!(r.kind(), ResolutionKind::NewLocally);
        assert!(matches!(r.problems(), [Problem::GeneratedSourceMissing { .. }]));
    }
    assert!(resolved.symlink_problem(&id("api")).is_none());
}
