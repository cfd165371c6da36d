//! Revisions, commit hashes, and what is read from the output of the
//! version control commands (Git and Jujutsu).

use vstd::prelude::*;
use crate::problems::CommitHash;
use crate::pointer::{lemma_split_nonempty, split_spec};
use crate::text::{chars_of, slice_chars, string_from_chars};

verus! {

/// A Git revision: a commit, branch name, tag name, etc. (not validated).
#[derive(Debug, Clone, PartialEq, Eq, PartialOrd, Ord)]
pub struct GitRevision(pub String);

/// A revision in either Git or Jujutsu syntax (not validated).
#[derive(Debug, Clone, PartialEq, Eq, PartialOrd, Ord)]
pub struct VcsRevision(pub String);

impl GitRevision {
    /// The revision's text.
    pub fn as_str(&self) -> (res: &str)
        ensures
            res@ == self.0@,
    {
        self.0.as_str()
    }
}

impl VcsRevision {
    /// The revision's text.
    pub fn as_str(&self) -> (res: &str)
        ensures
            res@ == self.0@,
    {
        self.0.as_str()
    }
}

/// `c` as it appears inside a quoted revset string.
pub open spec fn revset_char(c: char) -> Seq<char> {
    if c == '"' || c == '\\' {
        seq!['\\', c]
    } else {
        seq![c]
    }
}

/// The characters of `s` as they appear inside a quoted revset string.
pub open spec fn revset_body(s: Seq<char>) -> Seq<char>
    decreases s.len(),
{
    if s.len() == 0 {
        seq![]
    } else {
        revset_body(s.drop_last()) + revset_char(s.last())
    }
}

/// Quotes a string for a Jujutsu revset: double quotes around it, with `"`
/// and `\` escaped by a backslash.
pub fn revset_quote(s: &str) -> (res: String)
    ensures
        res@ == seq!['"'] + revset_body(s@) + seq!['"'],
{
    let cs = chars_of(s);
    let mut out: Vec<char> = Vec::new();
    out.push('"');
    let mut i: usize = 0;
    while i < cs.len()
        invariant
            i <= cs@.len(),
            cs@ == s@,
            out@ == seq!['"'] + revset_body(cs@.subrange(0, i as int)),
        decreases cs@.len() - i,
    {
        let c = cs[i];
        if c == '"' || c == '\\' {
            out.push('\\');
        }
        out.push(c);
        proof {
            assert(cs@.subrange(0, i + 1).drop_last() =~= cs@.subrange(0, i as int));
        }
        i = i + 1;
        assert(out@ =~= seq!['"'] + revset_body(cs@.subrange(0, i as int)));
    }
    out.push('"');
    assert(cs@.subrange(0, cs@.len() as int) =~= cs@);
    string_from_chars(out.as_slice())
}

/// Unicode white space, as `char::is_whitespace` defines it.
pub open spec fn is_white_space(c: char) -> bool {
    ||| c == '\t'
    ||| c == '\n'
    ||| c == '\x0B'
    ||| c == '\x0C'
    ||| c == '\r'
    ||| c == ' '
    ||| c == '\u{85}'
    ||| c == '\u{A0}'
    ||| c == '\u{1680}'
    ||| ('\u{2000}' <= c && c <= '\u{200A}')
    ||| c == '\u{2028}'
    ||| c == '\u{2029}'
    ||| c == '\u{202F}'
    ||| c == '\u{205F}'
    ||| c == '\u{3000}'
}

fn white_space(c: char) -> (res: bool)
    ensures
        res == is_white_space(c),
{
    c == '\t' || c == '\n' || c == '\x0B' || c == '\x0C' || c == '\r' || c == ' ' || c == '\u{85}'
        || c == '\u{A0}' || c == '\u{1680}' || ('\u{2000}' <= c && c <= '\u{200A}') || c
        == '\u{2028}' || c == '\u{2029}' || c == '\u{202F}' || c == '\u{205F}' || c == '\u{3000}'
}

/// `s` without leading white space.
pub open spec fn trim_start_ws(s: Seq<char>) -> Seq<char>
    decreases s.len(),
{
    if s.len() > 0 && is_white_space(s[0]) {
        trim_start_ws(s.subrange(1, s.len() as int))
    } else {
        s
    }
}

/// `s` without trailing white space.
pub open spec fn trim_end_ws(s: Seq<char>) -> Seq<char>
    decreases s.len(),
{
    if s.len() > 0 && is_white_space(s.last()) {
        trim_end_ws(s.drop_last())
    } else {
        s
    }
}

/// `s` without leading or trailing white space.
pub open spec fn trim_ws(s: Seq<char>) -> Seq<char> {
    trim_end_ws(trim_start_ws(s))
}

/// Removes leading and trailing white space.
pub fn trim_white_space(s: &[char]) -> (res: Vec<char>)
    ensures
        res@ == trim_ws(s@),
{
    let mut lo: usize = 0;
    assert(s@.subrange(0, s@.len() as int) == s@);
    while lo < s.len() && white_space(s[lo])
        invariant
            lo <= s@.len(),
            trim_start_ws(s@) == trim_start_ws(s@.subrange(lo as int, s@.len() as int)),
        decreases s@.len() - lo,
    {
        assert(s@.subrange(lo as int, s@.len() as int).subrange(1, s@.len() - lo) == s@.subrange(
            lo + 1,
            s@.len() as int,
        ));
        lo = lo + 1;
    }
    let ghost st = s@.subrange(lo as int, s@.len() as int);
    assert(trim_start_ws(st) == st);
    let mut hi: usize = s.len();
    while hi > lo && white_space(s[hi - 1])
        invariant
            lo <= hi <= s@.len(),
            trim_end_ws(st) == trim_end_ws(s@.subrange(lo as int, hi as int)),
        decreases hi,
    {
        assert(s@.subrange(lo as int, hi as int).drop_last() == s@.subrange(lo as int, hi - 1));
        hi = hi - 1;
    }
    slice_chars(s, lo, hi)
}

/// An ASCII hexadecimal digit.
pub open spec fn is_hex_digit(c: char) -> bool {
    ('0' <= c && c <= '9') || ('a' <= c && c <= 'f') || ('A' <= c && c <= 'F')
}

/// A hexadecimal digit in lower case.
pub open spec fn hex_lower(c: char) -> char {
    if 'A' <= c && c <= 'F' {
        (c as u32 + 32) as char
    } else {
        c
    }
}

/// A commit hash parsed from `s`: 40 (SHA-1) or 64 (SHA-256) hexadecimal
/// digits in either case, written back in lower case.
pub open spec fn commit_hash_spec(s: Seq<char>) -> Option<Seq<char>> {
    if (s.len() == 40 || s.len() == 64) && (forall|i: int| 0 <= i < s.len() ==> is_hex_digit(#[trigger] s[i])) {
        Some(s.map_values(|c: char| hex_lower(c)))
    } else {
        None
    }
}

/// Parses a commit hash with `git_stub::GitCommitHash`'s `FromStr` and
/// writes it back with its `Display`.
///
/// Trusted: the hash is accepted when it has 40 or 64 bytes that are all
/// hexadecimal digits (as `hex::decode_to_slice` requires), and is
/// displayed as lower-case hexadecimal (as `hex::encode` writes it).
#[verifier::external_body]
fn parse_commit_hash_call(s: &str) -> (res: Option<String>)
    ensures
        match res {
            Some(h) => commit_hash_spec(s@) == Some(h@),
            None => commit_hash_spec(s@) is None,
        },
{
    match s.parse::<git_stub::GitCommitHash>() {
        Ok(h) => Some(h.to_string()),
        Err(_) => None,
    }
}

impl CommitHash {
    /// Parses a commit hash (see `commit_hash_spec`).
    pub fn parse(s: &str) -> (res: Option<CommitHash>)
        ensures
            match res {
                Some(h) => commit_hash_spec(s@) == Some(h.hex@),
                None => commit_hash_spec(s@) is None,
            },
    {
        match parse_commit_hash_call(s) {
            Some(hex) => Some(CommitHash { hex }),
            None => None,
        }
    }
}

/// What went wrong reading the output of a version control command.
#[derive(Debug, Clone, PartialEq, Eq)]
pub enum VcsOutputError {
    /// No merge base was found.
    NoMergeBase,
    /// More than one merge base was found.
    MultipleMergeBases,
    /// The output is not a commit hash.
    InvalidCommitHash { text: String },
    /// The ancestry check printed something other than a commit hash.
    UnexpectedAncestorOutput { text: String },
    /// No commit was found that added the file.
    NoCommitFound,
    /// A listed path is not inside the listed directory.
    PathOutsideDirectory { path: String },
    /// The ancestry check exited with a code other than 0 or 1.
    UnexpectedExitCode { code: i32 },
    /// The ancestry check was terminated by a signal.
    TerminatedBySignal,
}

/// `s` holds `c`.
pub open spec fn has_char(s: Seq<char>, c: char) -> bool {
    s.contains(c)
}

fn find_char(s: &[char], c: char) -> (res: Option<usize>)
    ensures
        match res {
            Some(i) => i < s@.len() && s@[i as int] == c && forall|j: int| 0 <= j < i ==> s@[j] != c,
            None => !s@.contains(c),
        },
{
    let mut i: usize = 0;
    while i < s.len()
        invariant
            i <= s@.len(),
            forall|j: int| 0 <= j < i ==> s@[j] != c,
        decreases s@.len() - i,
    {
        if s[i] == c {
            return Some(i);
        }
        i = i + 1;
    }
    None
}

fn hash_from_chars(t: &Vec<char>) -> (res: Result<CommitHash, VcsOutputError>)
    ensures
        match commit_hash_spec(t@) {
            Some(h) => res matches Ok(c) && c.hex@ == h,
            None => res matches Err(VcsOutputError::InvalidCommitHash { text }) && text@ == t@,
        },
{
    let text = string_from_chars(t.as_slice());
    match CommitHash::parse(text.as_str()) {
        Some(h) => Ok(h),
        None => Err(VcsOutputError::InvalidCommitHash { text }),
    }
}

/// The merge base printed by `git merge-base --all`: the trimmed output
/// must be a single commit hash (white space inside means several merge
/// bases).
pub fn git_merge_base_from_output(stdout: &str) -> (res: Result<CommitHash, VcsOutputError>)
    ensures
        ({
            let t = trim_ws(stdout@);
            if t.contains(' ') || t.contains('\n') {
                res == Err::<CommitHash, VcsOutputError>(VcsOutputError::MultipleMergeBases)
            } else {
                match commit_hash_spec(t) {
                    Some(h) => res matches Ok(c) && c.hex@ == h,
                    None => res matches Err(VcsOutputError::InvalidCommitHash { text }) && text@ == t,
                }
            }
        }),
{
    let t = trim_white_space(chars_of(stdout).as_slice());
    if find_char(t.as_slice(), ' ').is_some() || find_char(t.as_slice(), '\n').is_some() {
        return Err(VcsOutputError::MultipleMergeBases);
    }
    hash_from_chars(&t)
}

/// The merge base printed by `jj log`: the trimmed output must be exactly
/// one line holding a commit hash.
pub fn jj_merge_base_from_output(stdout: &str) -> (res: Result<CommitHash, VcsOutputError>)
    ensures
        ({
            let t = trim_ws(stdout@);
            if t.len() == 0 {
                res == Err::<CommitHash, VcsOutputError>(VcsOutputError::NoMergeBase)
            } else if t.contains('\n') {
                res == Err::<CommitHash, VcsOutputError>(VcsOutputError::MultipleMergeBases)
            } else {
                match commit_hash_spec(t) {
                    Some(h) => res matches Ok(c) && c.hex@ == h,
                    None => res matches Err(VcsOutputError::InvalidCommitHash { text }) && text@ == t,
                }
            }
        }),
{
    let t = trim_white_space(chars_of(stdout).as_slice());
    if t.len() == 0 {
        return Err(VcsOutputError::NoMergeBase);
    }
    if find_char(t.as_slice(), '\n').is_some() {
        return Err(VcsOutputError::MultipleMergeBases);
    }
    hash_from_chars(&t)
}

/// The answer of the Jujutsu ancestry check: no output means "not an
/// ancestor", a hexadecimal commit id means "an ancestor".
pub fn jj_is_ancestor_from_output(stdout: &str) -> (res: Result<bool, VcsOutputError>)
    ensures
        ({
            let t = trim_ws(stdout@);
            if t.len() == 0 {
                res == Ok::<bool, VcsOutputError>(false)
            } else if forall|i: int| 0 <= i < t.len() ==> is_hex_digit(#[trigger] t[i]) {
                res == Ok::<bool, VcsOutputError>(true)
            } else {
                res matches Err(VcsOutputError::UnexpectedAncestorOutput { text }) && text@ == t
            }
        }),
{
    let t = trim_white_space(chars_of(stdout).as_slice());
    if t.len() == 0 {
        return Ok(false);
    }
    let mut i: usize = 0;
    while i < t.len()
        invariant
            i <= t@.len(),
            t@ == trim_ws(stdout@),
            forall|j: int| 0 <= j < i ==> is_hex_digit(#[trigger] t@[j]),
        decreases t@.len() - i,
    {
        let c = t[i];
        if !(('0' <= c && c <= '9') || ('a' <= c && c <= 'f') || ('A' <= c && c <= 'F')) {
            assert(!is_hex_digit(t@[i as int]));
            return Err(VcsOutputError::UnexpectedAncestorOutput { text: string_from_chars(t.as_slice()) });
        }
        i = i + 1;
    }
    Ok(true)
}

/// The first line of `s` as `str::lines` yields it: up to the first line
/// feed, without a carriage return before it; `None` for empty text.
pub open spec fn first_line(s: Seq<char>) -> Option<Seq<char>> {
    if s.len() == 0 {
        None
    } else {
        let line = if s.contains('\n') {
            s.subrange(0, s.index_of_first('\n').unwrap())
        } else {
            s
        };
        Some(
            if line.len() > 0 && line.last() == '\r' {
                line.drop_last()
            } else {
                line
            },
        )
    }
}

/// The commit that added a file, as `git log --diff-filter=A --format=%H`
/// or the equivalent `jj log` prints it: the first line of the trimmed
/// output (the most recent such commit).
pub fn first_commit_from_output(stdout: &str) -> (res: Result<CommitHash, VcsOutputError>)
    ensures
        match first_line(trim_ws(stdout@)) {
            None => res == Err::<CommitHash, VcsOutputError>(VcsOutputError::NoCommitFound),
            Some(line) => match commit_hash_spec(line) {
                Some(h) => res matches Ok(c) && c.hex@ == h,
                None => res matches Err(VcsOutputError::InvalidCommitHash { text }) && text@ == line,
            },
        },
{
    let t = trim_white_space(chars_of(stdout).as_slice());
    if t.len() == 0 {
        return Err(VcsOutputError::NoCommitFound);
    }
    let end = match find_char(t.as_slice(), '\n') {
        Some(i) => {
            proof {
                assert(t@.contains('\n'));
                t@.index_of_first_ensures('\n');
                let r = t@.index_of_first('\n').unwrap();
                if r < i {
                    assert(t@[r] == '\n');
                }
                if r > i {
                    assert(t@[i as int] == '\n');
                }
                assert(r == i);
            }
            i
        },
        None => {
            assert(t@.subrange(0, t@.len() as int) =~= t@);
            t.len()
        },
    };
    let whole = slice_chars(t.as_slice(), 0, end);
    let ghost first = t@.subrange(0, end as int);
    assert(whole@ == first);
    if whole.len() > 0 && whole[whole.len() - 1] == '\r' {
        let line = slice_chars(whole.as_slice(), 0, whole.len() - 1);
        assert(line@ =~= first.drop_last());
        hash_from_chars(&line)
    } else {
        hash_from_chars(&whole)
    }
}

/// True when `git rev-parse --is-shallow-repository` printed `true`.
pub fn shallow_from_output(stdout: &str) -> (res: bool)
    ensures
        res == (trim_ws(stdout@) == "true"@),
{
    let t = trim_white_space(chars_of(stdout).as_slice());
    proof {
        reveal_strlit("true");
    }
    let expected = chars_of("true");
    crate::text::chars_eq(t.as_slice(), expected.as_slice())
}

/// The answer of `git merge-base --is-ancestor` from its exit code: 0 is
/// yes, 1 is no, any other code (or none, for a signal) is an error.
pub fn git_is_ancestor_from_status(code: Option<i32>) -> (res: Result<bool, VcsOutputError>)
    ensures
        res == match code {
            Some(0) => Ok(true),
            Some(1) => Ok(false),
            Some(c) => Err(VcsOutputError::UnexpectedExitCode { code: c }),
            None => Err(VcsOutputError::TerminatedBySignal),
        },
{
    match code {
        Some(0) => Ok(true),
        Some(1) => Ok(false),
        Some(c) => Err(VcsOutputError::UnexpectedExitCode { code: c }),
        None => Err(VcsOutputError::TerminatedBySignal),
    }
}

/// The pieces that are not empty, in order.
pub open spec fn nonempty(ps: Seq<Seq<char>>) -> Seq<Seq<char>>
    decreases ps.len(),
{
    if ps.len() == 0 {
        seq![]
    } else if ps.last().len() > 0 {
        nonempty(ps.drop_last()).push(ps.last())
    } else {
        nonempty(ps.drop_last())
    }
}

/// `p` without one trailing carriage return.
pub open spec fn drop_cr(p: Seq<char>) -> Seq<char> {
    if p.len() > 0 && p.last() == '\r' {
        p.drop_last()
    } else {
        p
    }
}

/// The lines of `s` as `str::lines` splits them: at each line feed, with a
/// carriage return before it removed (the piece after the last line feed
/// is kept as it is, and may be empty).
pub open spec fn line_pieces(s: Seq<char>) -> Seq<Seq<char>> {
    let parts = split_spec(s, '\n');
    parts.drop_last().map_values(|p: Seq<char>| drop_cr(p)).push(parts.last())
}

/// The texts of vectors of characters.
pub open spec fn char_vecs_view(v: Seq<Vec<char>>) -> Seq<Seq<char>> {
    v.map_values(|c: Vec<char>| c@)
}

/// The texts of strings.
pub open spec fn texts_view(v: Seq<String>) -> Seq<Seq<char>> {
    v.map_values(|c: String| c@)
}

fn split_all(s: &[char], d: char) -> (res: Vec<Vec<char>>)
    ensures
        char_vecs_view(res@) == split_spec(s@, d),
{
    let mut done: Vec<Vec<char>> = Vec::new();
    let mut cur: Vec<char> = Vec::new();
    let mut i: usize = 0;
    while i < s.len()
        invariant
            i <= s@.len(),
            char_vecs_view(done@) == split_spec(s@.subrange(0, i as int), d).drop_last(),
            cur@ == split_spec(s@.subrange(0, i as int), d).last(),
            split_spec(s@.subrange(0, i as int), d).len() >= 1,
        decreases s@.len() - i,
    {
        let ghost prev = split_spec(s@.subrange(0, i as int), d);
        let ghost d0 = done@;
        proof {
            assert(s@.subrange(0, i + 1).drop_last() =~= s@.subrange(0, i as int));
            assert(s@.subrange(0, i + 1).last() == s@[i as int]);
        }
        if s[i] == d {
            let piece = cur;
            done.push(piece);
            cur = Vec::new();
            proof {
                assert(char_vecs_view(done@) =~= char_vecs_view(d0).push(prev.last()));
                assert(prev.drop_last().push(prev.last()) =~= prev);
            }
        } else {
            cur.push(s[i]);
            proof {
                let next = prev.update(prev.len() - 1, prev.last().push(s@[i as int]));
                assert(next.drop_last() =~= prev.drop_last());
            }
        }
        i = i + 1;
    }
    let ghost parts = split_spec(s@, d);
    proof {
        assert(s@.subrange(0, s@.len() as int) =~= s@);
    }
    let ghost d1 = done@;
    done.push(cur);
    proof {
        assert(char_vecs_view(done@) =~= char_vecs_view(d1).push(parts.last()));
        assert(parts.drop_last().push(parts.last()) =~= parts);
    }
    done
}

fn keep_nonempty(ps: &Vec<Vec<char>>) -> (res: Vec<String>)
    ensures
        texts_view(res@) == nonempty(char_vecs_view(ps@)),
{
    let ghost pv = char_vecs_view(ps@);
    let mut out: Vec<String> = Vec::new();
    let mut i: usize = 0;
    while i < ps.len()
        invariant
            i <= ps@.len(),
            pv == char_vecs_view(ps@),
            texts_view(out@) == nonempty(pv.subrange(0, i as int)),
        decreases ps@.len() - i,
    {
        let ghost o0 = out@;
        proof {
            assert(pv.subrange(0, i + 1).drop_last() =~= pv.subrange(0, i as int));
            assert(pv.subrange(0, i + 1).last() == pv[i as int]);
            assert(pv[i as int] == ps@[i as int]@);
        }
        if ps[i].len() > 0 {
            out.push(string_from_chars(ps[i].as_slice()));
            proof {
                assert(texts_view(out@) =~= texts_view(o0).push(pv[i as int]));
            }
        }
        i = i + 1;
    }
    assert(pv.subrange(0, pv.len() as int) =~= pv);
    out
}

/// The paths listed by `git ls-tree -z`: the trimmed output split at NUL
/// characters, without empty pieces.
pub fn git_ls_tree_entries(stdout: &str) -> (res: Vec<String>)
    ensures
        texts_view(res@) == nonempty(split_spec(trim_ws(stdout@), '\0')),
{
    let cs = chars_of(stdout);
    let t = trim_white_space(cs.as_slice());
    let parts = split_all(t.as_slice(), '\0');
    keep_nonempty(&parts)
}

fn drop_cr_chars(p: &Vec<char>) -> (res: Vec<char>)
    ensures
        res@ == drop_cr(p@),
{
    if p.len() > 0 && p[p.len() - 1] == '\r' {
        slice_chars(p.as_slice(), 0, p.len() - 1)
    } else {
        assert(p@.subrange(0, p@.len() as int) =~= p@);
        slice_chars(p.as_slice(), 0, p.len())
    }
}

/// The paths listed by `jj file list`: its non-empty lines.
pub fn jj_file_list_entries(stdout: &str) -> (res: Vec<String>)
    ensures
        texts_view(res@) == nonempty(line_pieces(stdout@)),
{
    let cs = chars_of(stdout);
    let parts = split_all(cs.as_slice(), '\n');
    let ghost pv = char_vecs_view(parts@);
    let ghost target = line_pieces(stdout@);
    proof {
        lemma_split_nonempty(stdout@, '\n');
        assert(target.len() == pv.len());
    }
    let n = parts.len();
    let mut lines: Vec<Vec<char>> = Vec::new();
    let mut i: usize = 0;
    while i < n
        invariant
            i <= n,
            n == parts@.len(),
            n >= 1,
            pv == char_vecs_view(parts@),
            pv == split_spec(stdout@, '\n'),
            target == line_pieces(stdout@),
            target.len() == n,
            char_vecs_view(lines@) == target.subrange(0, i as int),
        decreases n - i,
    {
        let ghost l0 = lines@;
        proof {
            assert(pv[i as int] == parts@[i as int]@);
        }
        if i + 1 < n {
            let line = drop_cr_chars(&parts[i]);
            lines.push(line);
            proof {
                assert(pv.drop_last()[i as int] == pv[i as int]);
                assert(target[i as int] == drop_cr(pv[i as int]));
            }
        } else {
            let line = slice_chars(parts[i].as_slice(), 0, parts[i].len());
            lines.push(line);
            proof {
                assert(target[i as int] == pv.last());
                assert(parts@[i as int]@.subrange(0, parts@[i as int]@.len() as int) =~= parts@[i as int]@);
            }
        }
        proof {
            assert(char_vecs_view(lines@) =~= char_vecs_view(l0).push(target[i as int]));
            assert(target.subrange(0, i + 1) =~= target.subrange(0, i as int).push(target[i as int]));
        }
        i = i + 1;
    }
    assert(target.subrange(0, n as int) =~= target);
    keep_nonempty(&lines)
}

/// The path that `camino::Utf8Path::strip_prefix` leaves of `path` after
/// the directory `base`, or none when `base` is not a prefix of it.
pub uninterp spec fn strip_prefix_of(path: Seq<char>, base: Seq<char>) -> Option<Seq<char>>;

/// Calls `camino::Utf8Path::strip_prefix`.
///
/// Trusted: the result is `strip_prefix_of` of the two texts; the
/// component-wise comparison that decides it is not restated.
#[verifier::external_body]
fn strip_prefix_call(path: &str, base: &str) -> (res: Option<String>)
    ensures
        match res {
            Some(r) => strip_prefix_of(path@, base@) == Some(r@),
            None => strip_prefix_of(path@, base@) is None,
        },
{
    camino::Utf8Path::new(path).strip_prefix(base).ok().map(|p| p.as_str().to_string())
}

/// Every listed path is inside `dir`.
pub open spec fn all_under(entries: Seq<Seq<char>>, dir: Seq<char>) -> bool {
    forall|i: int| 0 <= i < entries.len() ==> (#[trigger] strip_prefix_of(entries[i], dir)) is Some
}

/// The listed paths relative to `dir`.
pub open spec fn relative_to(entries: Seq<Seq<char>>, dir: Seq<char>) -> Seq<Seq<char>> {
    entries.map_values(|e: Seq<char>| strip_prefix_of(e, dir).unwrap())
}

/// Makes listed paths relative to the listed directory; the first path not
/// inside it is an error.
pub fn paths_under(entries: &Vec<String>, directory: &str) -> (res: Result<Vec<String>, VcsOutputError>)
    ensures
        match res {
            Ok(v) => all_under(texts_view(entries@), directory@) && texts_view(v@) == relative_to(
                texts_view(entries@),
                directory@,
            ),
            Err(e) => exists|i: int|
                0 <= i < entries@.len() && strip_prefix_of(#[trigger] entries@[i]@, directory@) is None && (forall|
                    j: int,
                | 0 <= j < i ==> (#[trigger] strip_prefix_of(entries@[j]@, directory@)) is Some) && e
                    == VcsOutputError::PathOutsideDirectory { path: entries@[i] },
        },
{
    let ghost ev = texts_view(entries@);
    let mut out: Vec<String> = Vec::new();
    let mut i: usize = 0;
    while i < entries.len()
        invariant
            i <= entries@.len(),
            ev == texts_view(entries@),
            forall|j: int| 0 <= j < i ==> (#[trigger] strip_prefix_of(entries@[j]@, directory@)) is Some,
            texts_view(out@) == relative_to(ev.subrange(0, i as int), directory@),
        decreases entries@.len() - i,
    {
        let ghost o0 = out@;
        match strip_prefix_call(entries[i].as_str(), directory) {
            Some(r) => {
                out.push(r);
                proof {
                    assert(ev[i as int] == entries@[i as int]@);
                    assert(ev.subrange(0, i + 1) =~= ev.subrange(0, i as int).push(ev[i as int]));
                    assert(texts_view(out@) =~= texts_view(o0).push(r@));
                    assert(strip_prefix_of(ev[i as int], directory@) == Some(r@));
                    assert(relative_to(ev.subrange(0, i + 1), directory@) =~= relative_to(ev.subrange(0, i as int), directory@).push(
                        r@,
                    ));
                }
            },
            None => {
                return Err(VcsOutputError::PathOutsideDirectory { path: entries[i].clone() });
            },
        }
        i = i + 1;
    }
    proof {
        assert(ev.subrange(0, ev.len() as int) =~= ev);
        assert forall|k: int| 0 <= k < ev.len() implies (#[trigger] strip_prefix_of(ev[k], directory@)) is Some by {
            assert(ev[k] == entries@[k]@);
        }
    }
    Ok(out)
}

/// The merge base to use in the middle of a merge: the one computed from
/// `MERGE_HEAD` when the one from `HEAD` is its ancestor (it is the more
/// recent), otherwise the one from `HEAD`.
pub fn merge_base_during_merge(
    mb_head: CommitHash,
    mb_merge_head: CommitHash,
    head_base_is_ancestor: bool,
) -> (res: CommitHash)
    ensures
        res == if head_base_is_ancestor {
            mb_merge_head
        } else {
            mb_head
        },
{
    if head_base_is_ancestor {
        mb_merge_head
    } else {
        mb_head
    }
}

} // verus!
