use dropshot_api_manager::problems::{CommitHash, GitStubRef};
use dropshot_api_manager::stubs::{read_git_stub, step_after_check, BlessedGitStub, StubReading, StubStep};

const SHA1: &str = "0123456789abcdef0123456789abcdef01234567";

#[test]
fn canonical_stub_is_usable() {
    let text = format!("{SHA1}:openapi/api/api-1.0.0-def456.json\n");
    assert_eq!(
        read_git_stub(&text),
        StubReading::Usable(GitStubRef {
            commit: CommitHash { hex: SHA1.to_string() },
            path: "openapi/api/api-1.0.0-def456.json".to_string(),
        })
    );
}

#[test]
fn non_canonical_stubs_need_rewriting() {
    // No trailing newline.
    assert_eq!(read_git_stub(&format!("{SHA1}:path/file.json")), StubReading::NeedsRewrite);
    // Surrounding white space.
    assert_eq!(read_git_stub(&format!("  {SHA1}:path/file.json\n")), StubReading::NeedsRewrite);
    // Backslashes in the path.
    assert_eq!(read_git_stub(&format!("{SHA1}:path\\file.json\n")), StubReading::NeedsRewrite);
    // Upper-case hash.
    assert_eq!(read_git_stub(&format!("{}:path/file.json\n", SHA1.to_uppercase())), StubReading::NeedsRewrite);
}

#[test]
fn other_text_is_not_a_stub() {
    assert!(matches!(read_git_stub("no-colon"), StubReading::NotParsed { .. }));
    assert!(matches!(read_git_stub(""), StubReading::NotParsed { .. }));
    assert!(matches!(read_git_stub(&format!("{SHA1}:../escape.json\n")), StubReading::NotParsed { .. }));
}

#[test]
fn steps_to_a_blessed_commit() {
    use_steps();
}

fn hash(c: char) -> CommitHash {
    CommitHash { hex: std::iter::repeat(c).take(40).collect() }
}

fn use_steps() {
    let known = BlessedGitStub::Known { commit: hash('a'), path: "openapi/x.json".to_string() };
    assert_eq!(known.first_step(None), StubStep::Use(hash('a')));
    assert_eq!(
        known.first_step(Some(hash('b'))),
        StubStep::CheckAncestor { commit: hash('a'), merge_base: hash('b') }
    );
    assert_eq!(step_after_check(true, hash('a'), hash('b')), StubStep::Use(hash('a')));
    assert_eq!(step_after_check(false, hash('a'), hash('b')), StubStep::FindFirstCommit { from: hash('b') });
    let lazy = BlessedGitStub::Lazy { commit: hash('c'), path: "openapi/y.json".to_string() };
    assert_eq!(lazy.first_step(Some(hash('b'))), StubStep::FindFirstCommit { from: hash('c') });
    assert_eq!(lazy.path(), "openapi/y.json");
}
