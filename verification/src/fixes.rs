//! What a fix writes, and how a fix is described to the user.

use vstd::prelude::*;
use crate::listing::{join_texts, texts_of, DisplayText, DisplayableVec};
use crate::names::{
    versioned_basename_spec, versioned_json_basename_spec, ApiSpecFileName, VersionedApiSpecKind,
};
use crate::plural::{files, noun_for};
use crate::names::{latest_symlink_spec, VersionedApiSpecFileName};
use crate::problems::{CheckStale, Fix, GitStubRef};
use crate::text::{chars_of, push_chars, push_str_chars, string_from_chars};

verus! {

/// The path of `n` relative to the documents root when stored in kind `k`
/// (lockstep names have a single form).
pub open spec fn path_as_kind(n: ApiSpecFileName, k: VersionedApiSpecKind) -> Seq<char> {
    match n {
        ApiSpecFileName::Lockstep(_) => n.path_view(),
        ApiSpecFileName::Versioned(v) => v.ident_view() + "/"@ + versioned_basename_spec(
            v.ident_view(),
            v.version_view(),
            v.hash_view(),
            k,
        ),
    }
}

/// The path (relative to the documents root, or for extra files to the
/// repository root) that a fix writes, if it writes one.
pub open spec fn fix_path_written(f: Fix) -> Option<Seq<char>> {
    match f {
        Fix::DeleteFiles { .. } => None,
        Fix::UpdateLockstepFile { generated } => Some(generated.path_view()),
        Fix::UpdateVersionedFiles { generated, .. } => Some(generated.path_view()),
        Fix::UpdateExtraFile { path, .. } => Some(path@),
        Fix::UpdateSymlink { .. } => None,
        Fix::ConvertToGitStub { local_file, .. } => Some(
            path_as_kind(local_file, VersionedApiSpecKind::GitRef),
        ),
        Fix::ConvertToJson { local_file, .. } => Some(
            path_as_kind(local_file, VersionedApiSpecKind::Json),
        ),
        Fix::RegenerateFromBlessed { local_file, git_stub, .. } => if git_stub is Some {
            Some(path_as_kind(local_file, VersionedApiSpecKind::GitRef))
        } else {
            Some(local_file.path_view())
        },
        Fix::RestoreFromBlessed { blessed, git_stub } => if git_stub is Some {
            Some(path_as_kind(ApiSpecFileName::Versioned(blessed), VersionedApiSpecKind::GitRef))
        } else {
            Some(ApiSpecFileName::Versioned(blessed).path_view())
        },
        Fix::UpdateGitStub { local_file, .. } => Some(local_file.path_view()),
        Fix::DeleteUnparseableFile { .. } => None,
    }
}

/// `n` with its path in kind `k`.
fn path_in_kind(n: &ApiSpecFileName, git_ref: bool) -> (res: String)
    ensures
        res@ == path_as_kind(
            *n,
            if git_ref {
                VersionedApiSpecKind::GitRef
            } else {
                VersionedApiSpecKind::Json
            },
        ),
{
    if git_ref {
        n.to_git_ref_filename().path_text()
    } else {
        n.to_json_filename().path_text()
    }
}

/// The lines describing a fix; each ends with a newline.
pub open spec fn fix_text(f: Fix) -> Seq<char> {
    match f {
        Fix::DeleteFiles { files } => "delete "@ + noun_for(files@.len() as usize, "file"@, "files"@)
            + ": "@ + join_texts(texts_of(files@), ", "@) + "\n"@,
        Fix::UpdateLockstepFile { generated } => "rewrite lockstep file "@ + generated.path_view()
            + " from generated\n"@,
        Fix::UpdateVersionedFiles { old, generated } => (if old@.len() > 0 {
            "remove old "@ + noun_for(old@.len() as usize, "file"@, "files"@) + ": "@ + join_texts(
                texts_of(old@),
                ", "@,
            ) + "\n"@
        } else {
            seq![]
        }) + "write new file "@ + generated.path_view() + " from generated\n"@,
        Fix::UpdateExtraFile { path, check_stale } => (match check_stale {
            CheckStale::Modified { .. } => "rewrite"@,
            CheckStale::New { .. } => "write new"@,
        }) + " file "@ + path@ + " from generated\n"@,
        Fix::UpdateSymlink { link, .. } => "update symlink to point to "@
            + versioned_json_basename_spec(link.ident_view(), link.version_view(), link.hash_view())
            + "\n"@,
        Fix::ConvertToGitStub { local_file, .. } => "convert "@ + local_file.path_view()
            + " to Git stub\n"@,
        Fix::ConvertToJson { local_file, .. } => "convert "@ + local_file.path_view()
            + " from Git stub to JSON\n"@,
        Fix::RegenerateFromBlessed { local_file, git_stub, .. } => "regenerate "@
            + local_file.path_view() + " from blessed content"@ + (if git_stub is Some {
            " as Git stub"@
        } else {
            seq![]
        }) + "\n"@,
        Fix::RestoreFromBlessed { blessed, git_stub } => "restore "@ + (if git_stub is Some {
            path_as_kind(ApiSpecFileName::Versioned(blessed), VersionedApiSpecKind::GitRef)
        } else {
            ApiSpecFileName::Versioned(blessed).path_view()
        }) + " from blessed content"@ + (if git_stub is Some {
            " as Git stub"@
        } else {
            seq![]
        }) + "\n"@,
        Fix::UpdateGitStub { local_file, git_stub } => "update Git stub "@ + local_file.path_view()
            + " to commit "@ + git_stub.commit.hex@ + "\n"@,
        Fix::DeleteUnparseableFile { path } => "delete unparseable file "@ + path@ + "\n"@,
    }
}

fn push_string(out: &mut Vec<char>, s: &String)
    ensures
        final(out)@ == old(out)@ + s@,
{
    push_chars(out, chars_of(s.as_str()).as_slice());
}

fn push_names(out: &mut Vec<char>, names: &Vec<ApiSpecFileName>)
    ensures
        final(out)@ == old(out)@ + join_texts(texts_of(names@), ", "@),
{
    let mut copy: Vec<ApiSpecFileName> = Vec::new();
    let mut i: usize = 0;
    while i < names.len()
        invariant
            i <= names@.len(),
            copy@ == names@.subrange(0, i as int),
        decreases names@.len() - i,
    {
        copy.push(names[i].duplicate());
        i = i + 1;
        assert(copy@ =~= names@.subrange(0, i as int));
    }
    assert(copy@ =~= names@);
    let list = DisplayableVec(copy);
    let text = list.to_string();
    push_string(out, &text);
}

impl Fix {
    /// The path this fix writes, if any (see `fix_path_written`).
    pub fn path_written(&self) -> (res: Option<String>)
        ensures
            match res {
                Some(p) => fix_path_written(*self) == Some(p@),
                None => fix_path_written(*self) is None,
            },
    {
        match self {
            Fix::DeleteFiles { .. } => None,
            Fix::UpdateLockstepFile { generated } => Some(generated.path_text()),
            Fix::UpdateVersionedFiles { generated, .. } => Some(generated.path_text()),
            Fix::UpdateExtraFile { path, .. } => Some(path.clone()),
            Fix::UpdateSymlink { .. } => None,
            Fix::ConvertToGitStub { local_file, .. } => Some(path_in_kind(local_file, true)),
            Fix::ConvertToJson { local_file, .. } => Some(path_in_kind(local_file, false)),
            Fix::RegenerateFromBlessed { local_file, git_stub, .. } => {
                if git_stub.is_some() {
                    Some(path_in_kind(local_file, true))
                } else {
                    Some(local_file.path_text())
                }
            },
            Fix::RestoreFromBlessed { blessed, git_stub } => {
                let n = ApiSpecFileName::Versioned(blessed.duplicate());
                if git_stub.is_some() {
                    Some(path_in_kind(&n, true))
                } else {
                    Some(n.path_text())
                }
            },
            Fix::UpdateGitStub { local_file, .. } => Some(local_file.path_text()),
            Fix::DeleteUnparseableFile { .. } => None,
        }
    }

    /// The description of this fix, one line per step, each ending with a
    /// newline.
    pub fn description(&self) -> (res: String)
        ensures
            res@ == fix_text(*self),
    {
        let mut out: Vec<char> = Vec::new();
        match self {
            Fix::DeleteFiles { files: names } => {
                push_str_chars(&mut out, "delete ");
                push_str_chars(&mut out, files(names.len()));
                push_str_chars(&mut out, ": ");
                push_names(&mut out, names);
                push_str_chars(&mut out, "\n");
            },
            Fix::UpdateLockstepFile { generated } => {
                push_str_chars(&mut out, "rewrite lockstep file ");
                push_string(&mut out, &generated.path_text());
                push_str_chars(&mut out, " from generated\n");
            },
            Fix::UpdateVersionedFiles { old, generated } => {
                if old.len() > 0 {
                    push_str_chars(&mut out, "remove old ");
                    push_str_chars(&mut out, files(old.len()));
                    push_str_chars(&mut out, ": ");
                    push_names(&mut out, old);
                    push_str_chars(&mut out, "\n");
                }
                push_str_chars(&mut out, "write new file ");
                push_string(&mut out, &generated.path_text());
                push_str_chars(&mut out, " from generated\n");
            },
            Fix::UpdateExtraFile { path, check_stale } => {
                match check_stale {
                    CheckStale::Modified { .. } => push_str_chars(&mut out, "rewrite"),
                    CheckStale::New { .. } => push_str_chars(&mut out, "write new"),
                }
                push_str_chars(&mut out, " file ");
                push_string(&mut out, path);
                push_str_chars(&mut out, " from generated\n");
            },
            Fix::UpdateSymlink { link, .. } => {
                push_str_chars(&mut out, "update symlink to point to ");
                push_string(&mut out, &link.json_basename());
                push_str_chars(&mut out, "\n");
            },
            Fix::ConvertToGitStub { local_file, .. } => {
                push_str_chars(&mut out, "convert ");
                push_string(&mut out, &local_file.path_text());
                push_str_chars(&mut out, " to Git stub\n");
            },
            Fix::ConvertToJson { local_file, .. } => {
                push_str_chars(&mut out, "convert ");
                push_string(&mut out, &local_file.path_text());
                push_str_chars(&mut out, " from Git stub to JSON\n");
            },
            Fix::RegenerateFromBlessed { local_file, git_stub, .. } => {
                push_str_chars(&mut out, "regenerate ");
                push_string(&mut out, &local_file.path_text());
                push_str_chars(&mut out, " from blessed content");
                if git_stub.is_some() {
                    push_str_chars(&mut out, " as Git stub");
                }
                push_str_chars(&mut out, "\n");
            },
            Fix::RestoreFromBlessed { blessed, git_stub } => {
                let n = ApiSpecFileName::Versioned(blessed.duplicate());
                push_str_chars(&mut out, "restore ");
                if git_stub.is_some() {
                    push_string(&mut out, &path_in_kind(&n, true));
                } else {
                    push_string(&mut out, &n.path_text());
                }
                push_str_chars(&mut out, " from blessed content");
                if git_stub.is_some() {
                    push_str_chars(&mut out, " as Git stub");
                }
                push_str_chars(&mut out, "\n");
            },
            Fix::UpdateGitStub { local_file, git_stub } => {
                push_str_chars(&mut out, "update Git stub ");
                push_string(&mut out, &local_file.path_text());
                push_str_chars(&mut out, " to commit ");
                push_string(&mut out, &git_stub.commit.hex);
                push_str_chars(&mut out, "\n");
            },
            Fix::DeleteUnparseableFile { path } => {
                push_str_chars(&mut out, "delete unparseable file ");
                push_string(&mut out, path);
                push_str_chars(&mut out, "\n");
            },
        }
        assert(out@ =~= fix_text(*self));
        string_from_chars(out.as_slice())
    }
}

/// The text of a git ref file: `{commit}:{path}` and a newline.
pub open spec fn git_ref_file_text(g: GitStubRef) -> Seq<char> {
    g.commit.hex@ + ":"@ + g.path@ + "\n"@
}

impl GitStubRef {
    /// The contents of a git ref file for this reference.
    pub fn file_contents(&self) -> (res: String)
        ensures
            res@ == git_ref_file_text(*self),
    {
        let mut out: Vec<char> = Vec::new();
        push_string(&mut out, &self.commit.hex);
        push_str_chars(&mut out, ":");
        push_string(&mut out, &self.path);
        push_str_chars(&mut out, "\n");
        assert(out@ =~= git_ref_file_text(*self));
        string_from_chars(out.as_slice())
    }
}

/// What a file written by a fix holds.
#[derive(Debug)]
pub enum FileContents {
    /// The generated document with this name.
    Generated(ApiSpecFileName),
    /// The blessed document with this name.
    Blessed(VersionedApiSpecFileName),
    /// This text.
    Text(String),
    /// These bytes.
    Bytes(Vec<u8>),
}

/// One step of carrying out a fix. Paths are relative to the documents
/// root, except that extra files are relative to the repository root.
#[derive(Debug)]
pub enum FileOp {
    /// Remove a file; a missing file is an error unless `missing_ok`.
    Remove { path: String, missing_ok: bool },
    /// Write a file, relative to the repository root when `repo_relative`.
    Write { path: String, contents: FileContents, repo_relative: bool },
    /// Replace the link at `path` (a missing one is fine) with a link to
    /// `target`.
    Symlink { path: String, target: String },
}

/// Abstract value of written contents: 0 generated, 1 blessed, 2 text,
/// 3 bytes, with the name's path or the text.
pub open spec fn contents_view(c: FileContents) -> (int, Seq<char>, Seq<u8>) {
    match c {
        FileContents::Generated(n) => (0, n.path_view(), seq![]),
        FileContents::Blessed(n) => (1, ApiSpecFileName::Versioned(n).path_view(), seq![]),
        FileContents::Text(t) => (2, t@, seq![]),
        FileContents::Bytes(b) => (3, seq![], b@),
    }
}

/// Abstract value of a step: 0 remove, 1 write, 2 link; the path; the flag
/// (missing is fine, or relative to the repository); the contents; the
/// link target.
pub open spec fn op_view(o: FileOp) -> (int, Seq<char>, bool, (int, Seq<char>, Seq<u8>), Seq<char>) {
    match o {
        FileOp::Remove { path, missing_ok } => (0, path@, missing_ok, (0, seq![], seq![]), seq![]),
        FileOp::Write { path, contents, repo_relative } => (1, path@, repo_relative, contents_view(contents), seq![]),
        FileOp::Symlink { path, target } => (2, path@, false, (0, seq![], seq![]), target@),
    }
}

/// Removing the file at `p`.
pub open spec fn remove_op(p: Seq<char>, missing_ok: bool) -> (int, Seq<char>, bool, (int, Seq<char>, Seq<u8>), Seq<char>) {
    (0, p, missing_ok, (0, seq![], seq![]), seq![])
}

/// Writing `c` to `p`.
pub open spec fn write_op(p: Seq<char>, c: (int, Seq<char>, Seq<u8>), repo_relative: bool) -> (int, Seq<char>, bool, (int, Seq<char>, Seq<u8>), Seq<char>) {
    (1, p, repo_relative, c, seq![])
}

/// Removing each of the files, in order.
pub open spec fn removes_of(files: Seq<ApiSpecFileName>) -> Seq<(int, Seq<char>, bool, (int, Seq<char>, Seq<u8>), Seq<char>)> {
    files.map_values(|f: ApiSpecFileName| remove_op(f.path_view(), false))
}

/// The steps that carry out a fix.
pub open spec fn fix_plan(f: Fix) -> Seq<(int, Seq<char>, bool, (int, Seq<char>, Seq<u8>), Seq<char>)> {
    match f {
        Fix::DeleteFiles { files } => removes_of(files@),
        Fix::UpdateLockstepFile { generated } => seq![
            write_op(generated.path_view(), (0, generated.path_view(), seq![]), false),
        ],
        Fix::UpdateVersionedFiles { old, generated } => removes_of(old@).push(
            write_op(generated.path_view(), (0, generated.path_view(), seq![]), false),
        ),
        Fix::UpdateExtraFile { path, check_stale } => seq![
            write_op(path@, (3, seq![], stale_expected(check_stale)), true),
        ],
        Fix::UpdateSymlink { api_ident, link } => seq![
            (
                2,
                api_ident@ + "/"@ + latest_symlink_spec(api_ident@),
                false,
                (0, seq![], seq![]),
                versioned_json_basename_spec(link.ident_view(), link.version_view(), link.hash_view()),
            ),
        ],
        Fix::ConvertToGitStub { local_file, git_stub } => seq![
            write_op(path_as_kind(local_file, VersionedApiSpecKind::GitRef), (2, git_ref_file_text(git_stub), seq![]), false),
            remove_op(local_file.path_view(), false),
        ],
        Fix::ConvertToJson { local_file, blessed } => seq![
            write_op(
                path_as_kind(local_file, VersionedApiSpecKind::Json),
                (1, ApiSpecFileName::Versioned(blessed).path_view(), seq![]),
                false,
            ),
            remove_op(local_file.path_view(), false),
        ],
        Fix::RegenerateFromBlessed { local_file, blessed, git_stub } => seq![
            remove_op(local_file.path_view(), true),
            match git_stub {
                Some(g) => write_op(path_as_kind(local_file, VersionedApiSpecKind::GitRef), (2, git_ref_file_text(g), seq![]), false),
                None => write_op(local_file.path_view(), (1, ApiSpecFileName::Versioned(blessed).path_view(), seq![]), false),
            },
        ],
        Fix::RestoreFromBlessed { blessed, git_stub } => seq![
            match git_stub {
                Some(g) => write_op(
                    path_as_kind(ApiSpecFileName::Versioned(blessed), VersionedApiSpecKind::GitRef),
                    (2, git_ref_file_text(g), seq![]),
                    false,
                ),
                None => write_op(
                    ApiSpecFileName::Versioned(blessed).path_view(),
                    (1, ApiSpecFileName::Versioned(blessed).path_view(), seq![]),
                    false,
                ),
            },
        ],
        Fix::UpdateGitStub { local_file, git_stub } => seq![
            write_op(local_file.path_view(), (2, git_ref_file_text(git_stub), seq![]), false),
        ],
        Fix::DeleteUnparseableFile { path } => seq![remove_op(path@, false)],
    }
}

/// The contents an extra file should have.
pub open spec fn stale_expected(c: CheckStale) -> Seq<u8> {
    match c {
        CheckStale::Modified { expected, .. } => expected@,
        CheckStale::New { expected } => expected@,
    }
}

/// The abstract values of steps.
pub open spec fn ops_view(ops: Seq<FileOp>) -> Seq<(int, Seq<char>, bool, (int, Seq<char>, Seq<u8>), Seq<char>)> {
    ops.map_values(|o: FileOp| op_view(o))
}

fn push_removes(ops: &mut Vec<FileOp>, files: &Vec<ApiSpecFileName>)
    ensures
        ops_view(final(ops)@) == ops_view(old(ops)@) + removes_of(files@),
{
    let ghost base = ops@;
    let mut i: usize = 0;
    while i < files.len()
        invariant
            i <= files@.len(),
            ops_view(ops@) == ops_view(base) + removes_of(files@.subrange(0, i as int)),
        decreases files@.len() - i,
    {
        let ghost prev = ops@;
        let path = files[i].path_text();
        ops.push(FileOp::Remove { path, missing_ok: false });
        assert(ops_view(ops@) =~= ops_view(prev).push(remove_op(files@[i as int].path_view(), false)));
        assert(files@.subrange(0, i + 1) =~= files@.subrange(0, i as int).push(files@[i as int]));
        assert(removes_of(files@.subrange(0, i + 1)) =~= removes_of(files@.subrange(0, i as int)).push(
            remove_op(files@[i as int].path_view(), false),
        ));
        i = i + 1;
        assert(ops_view(ops@) =~= ops_view(base) + removes_of(files@.subrange(0, i as int)));
    }
    assert(files@.subrange(0, files@.len() as int) =~= files@);
}

fn stale_bytes(c: &CheckStale) -> (res: Vec<u8>)
    ensures
        res@ == stale_expected(*c),
{
    match c {
        CheckStale::Modified { expected, .. } => crate::problems::copy_bytes(expected),
        CheckStale::New { expected } => crate::problems::copy_bytes(expected),
    }
}

impl Fix {
    /// The steps that carry out this fix (see `fix_plan`).
    pub fn plan(&self) -> (res: Vec<FileOp>)
        ensures
            ops_view(res@) == fix_plan(*self),
    {
        let mut ops: Vec<FileOp> = Vec::new();
        match self {
            Fix::DeleteFiles { files } => {
                push_removes(&mut ops, files);
                assert(ops_view(ops@) =~= removes_of(files@));
            },
            Fix::UpdateLockstepFile { generated } => {
                ops.push(FileOp::Write {
                    path: generated.path_text(),
                    contents: FileContents::Generated(generated.duplicate()),
                    repo_relative: false,
                });
            },
            Fix::UpdateVersionedFiles { old, generated } => {
                push_removes(&mut ops, old);
                let ghost mid = ops@;
                ops.push(FileOp::Write {
                    path: generated.path_text(),
                    contents: FileContents::Generated(generated.duplicate()),
                    repo_relative: false,
                });
                assert(ops_view(ops@) =~= ops_view(mid).push(op_view(ops@.last())));
            },
            Fix::UpdateExtraFile { path, check_stale } => {
                ops.push(FileOp::Write {
                    path: path.clone(),
                    contents: FileContents::Bytes(stale_bytes(check_stale)),
                    repo_relative: true,
                });
            },
            Fix::UpdateSymlink { api_ident, link } => {
                let mut p: Vec<char> = Vec::new();
                push_str_chars(&mut p, api_ident.as_str());
                push_str_chars(&mut p, "/");
                push_string(&mut p, &api_ident.versioned_api_latest_symlink());
                ops.push(FileOp::Symlink { path: string_from_chars(p.as_slice()), target: link.json_basename() });
            },
            Fix::ConvertToGitStub { local_file, git_stub } => {
                ops.push(FileOp::Write {
                    path: path_in_kind(local_file, true),
                    contents: FileContents::Text(git_stub.file_contents()),
                    repo_relative: false,
                });
                ops.push(FileOp::Remove { path: local_file.path_text(), missing_ok: false });
            },
            Fix::ConvertToJson { local_file, blessed } => {
                ops.push(FileOp::Write {
                    path: path_in_kind(local_file, false),
                    contents: FileContents::Blessed(blessed.duplicate()),
                    repo_relative: false,
                });
                ops.push(FileOp::Remove { path: local_file.path_text(), missing_ok: false });
            },
            Fix::RegenerateFromBlessed { local_file, blessed, git_stub } => {
                ops.push(FileOp::Remove { path: local_file.path_text(), missing_ok: true });
                match git_stub {
                    Some(g) => {
                        ops.push(FileOp::Write {
                            path: path_in_kind(local_file, true),
                            contents: FileContents::Text(g.file_contents()),
                            repo_relative: false,
                        });
                    },
                    None => {
                        ops.push(FileOp::Write {
                            path: local_file.path_text(),
                            contents: FileContents::Blessed(blessed.duplicate()),
                            repo_relative: false,
                        });
                    },
                }
            },
            Fix::RestoreFromBlessed { blessed, git_stub } => {
                let n = ApiSpecFileName::Versioned(blessed.duplicate());
                match git_stub {
                    Some(g) => {
                        ops.push(FileOp::Write {
                            path: path_in_kind(&n, true),
                            contents: FileContents::Text(g.file_contents()),
                            repo_relative: false,
                        });
                    },
                    None => {
                        ops.push(FileOp::Write {
                            path: n.path_text(),
                            contents: FileContents::Blessed(blessed.duplicate()),
                            repo_relative: false,
                        });
                    },
                }
            },
            Fix::UpdateGitStub { local_file, git_stub } => {
                ops.push(FileOp::Write {
                    path: local_file.path_text(),
                    contents: FileContents::Text(git_stub.file_contents()),
                    repo_relative: false,
                });
            },
            Fix::DeleteUnparseableFile { path } => {
                ops.push(FileOp::Remove { path: path.clone(), missing_ok: false });
            },
        }
        proof {
            reveal_strlit("/");
        }
        assert(ops_view(ops@) =~= fix_plan(*self));
        ops
    }
}

} // verus!
