//! Reading a Git stub file: its text is parsed by `git_stub`, and a stub
//! that is not in canonical form is reported rather than used.

use vstd::prelude::*;
use crate::problems::{CommitHash, GitStubRef};
use crate::text::is_suffix;

verus! {

/// What `git_stub::GitStub::from_str` makes of a stub's text: the commit
/// (as its `Display` writes it), the path, and whether the text needs
/// rewriting to canonical form; or, when it is rejected, the error's
/// message (as its `Display` writes it).
pub uninterp spec fn git_stub_parse_of(text: Seq<char>) -> Result<(Seq<char>, Seq<char>, bool), Seq<char>>;

/// Calls `git_stub::GitStub::from_str`.
///
/// Trusted: the result is `git_stub_parse_of` of the text, and a text that
/// does not end in a line feed is never canonical (the source checks
/// `ends_with('\n')` first). The parsing rules (trimming, the `commit:path`
/// split, the checks on the path's components) are not restated.
#[verifier::external_body]
fn parse_git_stub_call(text: &str) -> (res: Result<(String, String, bool), String>)
    ensures
        match res {
            Ok((c, p, n)) => git_stub_parse_of(text@) == Ok::<(Seq<char>, Seq<char>, bool), Seq<char>>((c@, p@, n)),
            Err(e) => git_stub_parse_of(text@) == Err::<(Seq<char>, Seq<char>, bool), Seq<char>>(e@),
        },
        !is_suffix("\n"@, text@) ==> (res matches Ok((_, _, n)) ==> n),
{
    match text.parse::<git_stub::GitStub>() {
        Ok(stub) => Ok((stub.commit().to_string(), stub.path().as_str().to_string(), stub.needs_rewrite())),
        Err(error) => Err(error.to_string()),
    }
}

/// What a Git stub file's text gives.
#[derive(Debug, Clone, PartialEq, Eq)]
pub enum StubReading {
    /// A canonical stub.
    Usable(GitStubRef),
    /// A stub that must be rewritten to canonical form (forward slashes,
    /// one trailing newline, lower-case hash) before it is used.
    NeedsRewrite,
    /// Text that is not a stub, with the parser's message.
    NotParsed { message: String },
}

/// Reads a Git stub file's text: a stub in canonical form is usable; one
/// that parses but is not canonical needs rewriting; anything else is not
/// a stub, with the parser's message.
pub fn read_git_stub(text: &str) -> (res: StubReading)
    ensures
        match git_stub_parse_of(text@) {
            Err(e) => res is NotParsed && res->NotParsed_message@ == e,
            Ok((c, p, n)) => if n {
                res is NeedsRewrite
            } else {
                res matches StubReading::Usable(g) && g.commit.hex@ == c && g.path@ == p
            },
        },
        !is_suffix("\n"@, text@) ==> !(res is Usable),
{
    match parse_git_stub_call(text) {
        Ok((commit, path, needs_rewrite)) => {
            if needs_rewrite {
                StubReading::NeedsRewrite
            } else {
                StubReading::Usable(GitStubRef { commit: CommitHash { hex: commit }, path })
            }
        },
        Err(message) => StubReading::NotParsed { message },
    }
}

/// Where the commit of a blessed document comes from.
#[derive(Debug, Clone, PartialEq, Eq)]
pub enum BlessedGitStub {
    /// Read from a `.gitstub` file: the commit it names.
    Known { commit: CommitHash, path: String },
    /// A JSON file: the commit that introduced it is searched from
    /// `commit` (typically the merge base) when it is needed.
    Lazy { commit: CommitHash, path: String },
}

/// The next step in finding the commit of a blessed document.
#[derive(Debug, Clone, PartialEq, Eq)]
pub enum StubStep {
    /// Use this commit.
    Use(CommitHash),
    /// Ask whether `commit` is an ancestor of `merge_base`.
    CheckAncestor { commit: CommitHash, merge_base: CommitHash },
    /// Search for the commit that first added the file, from `from`.
    FindFirstCommit { from: CommitHash },
}

impl BlessedGitStub {
    /// The path of the document in the repository.
    pub fn path(&self) -> (res: &String)
        ensures
            res == match self {
                BlessedGitStub::Known { path, .. } => path,
                BlessedGitStub::Lazy { path, .. } => path,
            },
    {
        match self {
            BlessedGitStub::Known { path, .. } => path,
            BlessedGitStub::Lazy { path, .. } => path,
        }
    }

    /// The first step: a known commit is used as it is when there is no
    /// merge base, and otherwise checked against it; a lazy one is searched
    /// for.
    pub fn first_step(&self, merge_base: Option<CommitHash>) -> (res: StubStep)
        ensures
            res == match *self {
                BlessedGitStub::Known { commit, .. } => match merge_base {
                    None => StubStep::Use(commit),
                    Some(mb) => StubStep::CheckAncestor { commit, merge_base: mb },
                },
                BlessedGitStub::Lazy { commit, .. } => StubStep::FindFirstCommit { from: commit },
            },
    {
        match self {
            BlessedGitStub::Known { commit, .. } => match merge_base {
                None => StubStep::Use(commit.duplicate()),
                Some(mb) => StubStep::CheckAncestor { commit: commit.duplicate(), merge_base: mb },
            },
            BlessedGitStub::Lazy { commit, .. } => StubStep::FindFirstCommit { from: commit.duplicate() },
        }
    }
}

/// The step after the ancestry check: a commit still in the merge base's
/// history is used; a stale one (after a rebase, say) is searched for
/// again from the merge base.
pub fn step_after_check(is_ancestor: bool, commit: CommitHash, merge_base: CommitHash) -> (res: StubStep)
    ensures
        res == if is_ancestor {
            StubStep::Use(commit)
        } else {
            StubStep::FindFirstCommit { from: merge_base }
        },
{
    if is_ancestor {
        StubStep::Use(commit)
    } else {
        StubStep::FindFirstCommit { from: merge_base }
    }
}

} // verus!
