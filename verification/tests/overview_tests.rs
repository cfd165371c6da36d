use dropshot_api_manager::names::{ApiIdent, ApiSpecFileName, SemVersion, VersionedApiSpecFileName};
use dropshot_api_manager::overview::{
    orphaned_local_specs, paths_written, removed_blessed_versions, unparseable_problems,
    ApiResolved, ApiVersions, LocalApiFiles, Note, ProblemSummary, Resolved, UnparseableFile,
};
use dropshot_api_manager::problems::{Problem, ProblemKind};
use dropshot_api_manager::resolve::Resolution;

fn v(s: &str) -> SemVersion {
    SemVersion::parse(s).unwrap()
}

fn id(s: &str) -> ApiIdent {
    ApiIdent::from_str(s)
}

fn supported() -> Vec<ApiVersions> {
    vec![ApiVersions { ident: id("api"), versions: vec![v("1.0.0"), v("2.0.0")] }]
}

#[test]
fn removed_versions_are_noted() {
    let blessed = vec![
        ApiVersions { ident: id("api"), versions: vec![v("0.9.0"), v("1.0.0")] },
        ApiVersions { ident: id("gone"), versions: vec![v("1.0.0")] },
    ];
    let notes = removed_blessed_versions(&supported(), &blessed);
    assert_eq!(notes.len(), 2);
    match &notes[0] {
        Note::BlessedVersionRemoved { api_ident, version } => {
            assert_eq!(api_ident.as_str(), "api");
            assert_eq!(version.to_text(), "0.9.0");
        }
    }
    assert_eq!(
        notes[1].message(),
        "API gone version 1.0.0: formerly blessed version has been removed.  This version will no \
         longer be supported!  This will break upgrade from software that still uses this \
         version.  If this is unexpected, check the list of supported versions in Rust for a \
         possible mismerge."
    );
}

#[test]
fn orphaned_local_documents() {
    let name = VersionedApiSpecFileName::new(id("api"), v("0.9.0"), "aaaa".to_string());
    let local = vec![
        LocalApiFiles {
            ident: id("api"),
            versions: vec![
                (v("0.9.0"), vec![ApiSpecFileName::Versioned(name.clone())]),
                (v("1.0.0"), Vec::new()),
            ],
        },
        // Local files of an API that is not supported at all are not orphans.
        LocalApiFiles {
            ident: id("other"),
            versions: vec![(
                v("1.0.0"),
                vec![ApiSpecFileName::Versioned(VersionedApiSpecFileName::new(
                    id("other"),
                    v("1.0.0"),
                    "bbbb".to_string(),
                ))],
            )],
        },
    ];
    let orphans = orphaned_local_specs(&supported(), &local);
    assert_eq!(orphans.len(), 1);
    assert_eq!(orphans[0].problem.kind(), ProblemKind::LocalSpecFileOrphaned);
    assert_eq!(orphans[0].version.as_ref().unwrap().to_text(), "0.9.0");
}

#[test]
fn unparseable_files_overwritten_by_a_fix_are_not_reported() {
    let restored = VersionedApiSpecFileName::new(id("api"), v("1.0.0"), "aaaa".to_string());
    let apis = vec![ApiResolved {
        ident: id("api"),
        by_version: vec![(
            v("1.0.0"),
            Resolution::new_blessed(vec![Problem::BlessedVersionMissingLocal {
                blessed: restored,
                git_stub: None,
            }]),
        )],
        symlink: None,
    }];
    let written = paths_written(&apis);
    assert_eq!(written, vec!["api/api-1.0.0-aaaa.json".to_string()]);
    let files = vec![
        UnparseableFile { api_ident: id("api"), path: "api/api-1.0.0-aaaa.json".to_string() },
        UnparseableFile { api_ident: id("api"), path: "api/api-0.1.0-ffff.json".to_string() },
    ];
    let problems = unparseable_problems(&written, &files);
    assert_eq!(problems.len(), 1);
    match &problems[0].problem {
        Problem::UnparseableLocalFile { path } => assert_eq!(path, "api/api-0.1.0-ffff.json"),
        other => panic!("unexpected: {other:?}"),
    }
}

#[test]
fn resolved_summaries_and_lookups() {
    let apis = vec![ApiResolved {
        ident: id("api"),
        by_version: vec![
            (v("1.0.0"), Resolution::new_blessed(Vec::new())),
            (
                v("2.0.0"),
                Resolution::new_new_locally(vec![Problem::GeneratedSourceMissing { api_ident: id("api") }]),
            ),
        ],
        symlink: Some(Problem::LatestLinkMissing {
            api_ident: id("api"),
            link: VersionedApiSpecFileName::new(id("api"), v("2.0.0"), "cccc".to_string()),
        }),
    }];
    let resolved = Resolved::new(&supported(), &Vec::new(), &Vec::new(), &Vec::new(), apis);
    assert_eq!(resolved.nexpected_documents(), 2);
    assert!(resolved.has_unfixable_problems());
    assert!(resolved.resolution_for_api_version(&id("api"), &v("1.0.0")).is_some());
    assert!(resolved.resolution_for_api_version(&id("api"), &v("3.0.0")).is_none());
    assert!(resolved.symlink_problem(&id("api")).is_some());
    assert!(resolved.symlink_problem(&id("nope")).is_none());
    assert_eq!(
        resolved.problem_summaries(),
        vec![
            ProblemSummary::new("api", "2.0.0", ProblemKind::GeneratedSourceMissing),
            ProblemSummary::for_api("api", ProblemKind::LatestLinkMissing),
        ]
    );
}

#[test]
fn problem_summary_needs_a_valid_version() {
    assert!(ProblemSummary::try_new("api", "not-a-version", ProblemKind::LockstepStale).is_none());
    let s = ProblemSummary::try_new("api", "1.0.0", ProblemKind::LockstepStale).unwrap();
    assert_eq!(s.version.unwrap().to_text(), "1.0.0");
}
