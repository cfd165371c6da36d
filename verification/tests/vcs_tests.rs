use dropshot_api_manager::problems::CommitHash;
use dropshot_api_manager::vcs::{
    first_commit_from_output, git_is_ancestor_from_status, git_ls_tree_entries, git_merge_base_from_output,
    jj_file_list_entries, jj_is_ancestor_from_output, jj_merge_base_from_output, paths_under, revset_quote,
    shallow_from_output, VcsOutputError,
};

const SHA1: &str = "0123456789abcdef0123456789abcdef01234567";

#[test]
fn test_revset_quote() {
    assert_eq!(revset_quote("trunk()"), r#""trunk()""#);
    assert_eq!(revset_quote("main"), r#""main""#);

    // Dashes, parentheses, and other revset-significant characters
    // should pass through unescaped since they're inside quotes.
    assert_eq!(revset_quote("my-feature"), r#""my-feature""#);
    assert_eq!(revset_quote("path/to/file.json"), r#""path/to/file.json""#);

    // Quotes and backslashes are escaped.
    assert_eq!(revset_quote(r#"they said "hello""#), r#""they said \"hello\"""#);
    assert_eq!(revset_quote(r"path\to\file"), r#""path\\to\\file""#);

    assert_eq!(revset_quote(r#"a\"b"#), r#""a\\\"b""#);
    assert_eq!(revset_quote(""), r#""""#);
}

#[test]
fn commit_hash_parse_lowercases_and_checks_length() {
    let upper = SHA1.to_uppercase();
    let h = CommitHash::parse(&upper).expect("valid hash");
    assert_eq!(h.hex, SHA1);
    assert!(CommitHash::parse("abc123").is_none());
    assert!(CommitHash::parse("g123456789abcdef0123456789abcdef01234567").is_none());
    let sha256 = "0123456789abcdef0123456789abcdef0123456789abcdef0123456789abcdef";
    assert_eq!(CommitHash::parse(sha256).unwrap().hex, sha256);
}

#[test]
fn git_merge_base_output() {
    let h = git_merge_base_from_output(&format!("{SHA1}\n")).unwrap();
    assert_eq!(h.hex, SHA1);
    assert_eq!(
        git_merge_base_from_output(&format!("{SHA1}\n{SHA1}\n")),
        Err(VcsOutputError::MultipleMergeBases)
    );
    assert_eq!(
        git_merge_base_from_output("not-a-hash\n"),
        Err(VcsOutputError::InvalidCommitHash { text: "not-a-hash".to_string() })
    );
}

#[test]
fn jj_merge_base_output() {
    assert_eq!(jj_merge_base_from_output("  \n"), Err(VcsOutputError::NoMergeBase));
    assert_eq!(
        jj_merge_base_from_output(&format!("{SHA1}\n{SHA1}\n")),
        Err(VcsOutputError::MultipleMergeBases)
    );
    assert_eq!(jj_merge_base_from_output(&format!("{SHA1}\n")).unwrap().hex, SHA1);
}

#[test]
fn jj_ancestor_output() {
    assert_eq!(jj_is_ancestor_from_output(""), Ok(false));
    assert_eq!(jj_is_ancestor_from_output(&format!("{SHA1}\n")), Ok(true));
    assert_eq!(
        jj_is_ancestor_from_output("oops"),
        Err(VcsOutputError::UnexpectedAncestorOutput { text: "oops".to_string() })
    );
}

#[test]
fn first_commit_output() {
    let out = format!("{SHA1}\r\n{}\n", "f".repeat(40));
    assert_eq!(first_commit_from_output(&out).unwrap().hex, SHA1);
    assert_eq!(first_commit_from_output("\n"), Err(VcsOutputError::NoCommitFound));
}

#[test]
fn shallow_output() {
    assert!(shallow_from_output("true\n"));
    assert!(!shallow_from_output("false\n"));
}

#[test]
fn ancestry_from_exit_status() {
    assert_eq!(git_is_ancestor_from_status(Some(0)), Ok(true));
    assert_eq!(git_is_ancestor_from_status(Some(1)), Ok(false));
    assert_eq!(git_is_ancestor_from_status(Some(128)), Err(VcsOutputError::UnexpectedExitCode { code: 128 }));
    assert_eq!(git_is_ancestor_from_status(None), Err(VcsOutputError::TerminatedBySignal));
}

#[test]
fn listed_paths() {
    let listed = git_ls_tree_entries("openapi/a.json\0openapi/b/b-1.0.0-abc.json\0\n");
    assert_eq!(listed, vec!["openapi/a.json".to_string(), "openapi/b/b-1.0.0-abc.json".to_string()]);
    assert_eq!(
        paths_under(&listed, "openapi"),
        Ok(vec!["a.json".to_string(), "b/b-1.0.0-abc.json".to_string()])
    );
    assert_eq!(
        paths_under(&vec!["other/x.json".to_string()], "openapi"),
        Err(VcsOutputError::PathOutsideDirectory { path: "other/x.json".to_string() })
    );
    let lines = jj_file_list_entries("openapi/a.json\r\n\nopenapi/b.json\n");
    assert_eq!(lines, vec!["openapi/a.json".to_string(), "openapi/b.json".to_string()]);
    assert!(git_ls_tree_entries("  \n").is_empty());
}
