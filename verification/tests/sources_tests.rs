use dropshot_api_manager::sources::{
    default_blessed_branch, resolve_blessed_from_vcs, to_blessed_source, BlessedSource, GeneratedSource, RepoVcsKind,
    DEFAULT_GIT_BRANCH, DEFAULT_JJ_REVSET,
};
use dropshot_api_manager::vcs::VcsRevision;

fn merge_base(revision: &str, directory: &str) -> BlessedSource {
    BlessedSource::VcsRevisionMergeBase { revision: VcsRevision(revision.to_string()), directory: directory.to_string() }
}

#[test]
fn test_blessed_args() {
    // A Git repository whose default branch was set to `upstream/dev`, with
    // documents in `foo-openapi`.
    let branch = default_blessed_branch(RepoVcsKind::Git, "upstream/dev", DEFAULT_JJ_REVSET);
    let rel_dir = "foo-openapi";

    let source = to_blessed_source(None, None, None, None, &branch, rel_dir);
    assert_eq!(source, merge_base("upstream/dev", "foo-openapi"));

    // Override branch only.
    let source = to_blessed_source(None, Some("my/other/main"), None, None, &branch, rel_dir);
    assert_eq!(source, merge_base("my/other/main", "foo-openapi"));

    // Override branch and directory.
    let source = to_blessed_source(
        None,
        Some("my/other/main"),
        None,
        Some("other_openapi/bar".to_string()),
        &branch,
        rel_dir,
    );
    assert_eq!(source, merge_base("my/other/main", "other_openapi/bar"));

    // Override with a local directory.
    let source = to_blessed_source(Some("/tmp".to_string()), None, None, None, &branch, rel_dir);
    assert_eq!(source, BlessedSource::Directory { local_directory: "/tmp".to_string() });
}

#[test]
fn legacy_variable_is_a_fallback() {
    assert_eq!(resolve_blessed_from_vcs(Some("a"), Some("b".to_string())), Some("a".to_string()));
    assert_eq!(resolve_blessed_from_vcs(None, Some("b".to_string())), Some("b".to_string()));
    assert_eq!(resolve_blessed_from_vcs(None, None), None);
    let source = to_blessed_source(None, None, Some("legacy".to_string()), None, "origin/main", "openapi");
    assert_eq!(source, merge_base("legacy", "openapi"));
}

#[test]
fn defaults_by_system() {
    assert_eq!(default_blessed_branch(RepoVcsKind::Git, DEFAULT_GIT_BRANCH, DEFAULT_JJ_REVSET), "origin/main");
    assert_eq!(default_blessed_branch(RepoVcsKind::Jj, DEFAULT_GIT_BRANCH, DEFAULT_JJ_REVSET), "trunk()");
    assert_eq!(GeneratedSource::from_dir(None), GeneratedSource::Generated);
    assert_eq!(
        GeneratedSource::from_dir(Some("out".to_string())),
        GeneratedSource::Directory { local_directory: "out".to_string() }
    );
}
