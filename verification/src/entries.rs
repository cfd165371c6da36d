//! Classification of the entries met while loading documents: the files of
//! a versioned API's directory in the working tree, and the paths listed
//! from a blessed revision.

use vstd::prelude::*;
use crate::docpath::strings_view;
use crate::names::{latest_symlink_spec, ApiIdent};
use crate::text::{chars_of, ends_with, string_from_chars, is_suffix};

verus! {

/// What a file in a versioned API's directory is, by its name.
#[derive(Debug, Clone, Copy, PartialEq, Eq, Structural)]
pub enum LocalEntryKind {
    /// The API's "latest" link (its type is checked separately).
    LatestLink,
    /// A Git stub (`.json.gitstub`).
    GitStub,
    /// Any other file: a candidate versioned document.
    VersionedFile,
}

/// The kind of the file named `file` in the directory `dir` of a versioned
/// API.
pub open spec fn local_entry_spec(dir: Seq<char>, file: Seq<char>) -> LocalEntryKind {
    if file == latest_symlink_spec(dir) {
        LocalEntryKind::LatestLink
    } else if is_suffix(".json.gitstub"@, file) {
        LocalEntryKind::GitStub
    } else {
        LocalEntryKind::VersionedFile
    }
}

/// Classifies a file of a versioned API's directory (see
/// `local_entry_spec`).
pub fn classify_local_entry(dir_basename: &str, file_name: &str) -> (res: LocalEntryKind)
    ensures
        res == local_entry_spec(dir_basename@, file_name@),
{
    let ident = ApiIdent::from_str(dir_basename);
    if ident.versioned_api_is_latest_symlink(file_name) {
        return LocalEntryKind::LatestLink;
    }
    let name = chars_of(file_name);
    let suffix = chars_of(".json.gitstub");
    if ends_with(name.as_slice(), suffix.as_slice()) {
        LocalEntryKind::GitStub
    } else {
        LocalEntryKind::VersionedFile
    }
}

/// The structure of a path listed from a blessed revision, before any
/// check against the known APIs.
#[derive(Debug, Clone, PartialEq, Eq)]
pub enum BlessedPathKind {
    /// One component: a potential lockstep file (blessed files exist only
    /// for versioned APIs, so these are skipped).
    Lockstep,
    /// Two components, the second ending in `.json.gitstub`.
    GitStubFile { api_dir: String, basename: String },
    /// Two components otherwise: a versioned file or the latest link.
    VersionedFile { api_dir: String, basename: String },
}

/// A path whose structure is not understood (empty, or more than two
/// components).
#[derive(Debug, Clone, Copy, PartialEq, Eq, Structural)]
pub struct UnrecognizedPath;

/// Abstract value of a path kind: 0 lockstep, 1 Git stub, 2 versioned
/// file; the directory and the base name.
pub open spec fn blessed_kind_view(k: BlessedPathKind) -> (int, Seq<char>, Seq<char>) {
    match k {
        BlessedPathKind::Lockstep => (0, seq![], seq![]),
        BlessedPathKind::GitStubFile { api_dir, basename } => (1, api_dir@, basename@),
        BlessedPathKind::VersionedFile { api_dir, basename } => (2, api_dir@, basename@),
    }
}

/// The kind of a path with the components `parts`.
pub open spec fn blessed_kind_spec(parts: Seq<Seq<char>>) -> Option<(int, Seq<char>, Seq<char>)> {
    if parts.len() == 1 {
        Some((0, seq![], seq![]))
    } else if parts.len() == 2 && is_suffix(".json.gitstub"@, parts[1]) {
        Some((1, parts[0], parts[1]))
    } else if parts.len() == 2 {
        Some((2, parts[0], parts[1]))
    } else {
        None
    }
}

/// The components of a path as `camino::Utf8Path::iter` yields them.
pub uninterp spec fn path_components_of(path: Seq<char>) -> Seq<Seq<char>>;

/// Calls `camino::Utf8Path::iter` and collects the components as strings.
///
/// Trusted: the result is `path_components_of` of the text. The rules by
/// which std splits and normalizes a path (repeated separators, `.`, a
/// root) are not restated.
#[verifier::external_body]
fn path_components_call(path: &str) -> (res: Vec<String>)
    ensures
        strings_view(res@) == path_components_of(path@),
{
    camino::Utf8Path::new(path).iter().map(|c| c.to_string()).collect()
}

fn copy_string(s: &String) -> (res: String)
    ensures
        res@ == s@,
{
    let cs = chars_of(s.as_str());
    string_from_chars(cs.as_slice())
}

impl BlessedPathKind {
    /// The kind of a path with the given components (see
    /// `blessed_kind_spec`).
    pub fn from_components(parts: &Vec<String>) -> (res: Result<BlessedPathKind, UnrecognizedPath>)
        ensures
            match res {
                Ok(k) => blessed_kind_spec(strings_view(parts@)) == Some(blessed_kind_view(k)),
                Err(_) => blessed_kind_spec(strings_view(parts@)) is None,
            },
    {
        let ghost pv = strings_view(parts@);
        if parts.len() == 1 {
            return Ok(BlessedPathKind::Lockstep);
        }
        if parts.len() == 2 {
            assert(pv[1] == parts@[1]@);
            assert(pv[0] == parts@[0]@);
            let name = chars_of(parts[1].as_str());
            let suffix = chars_of(".json.gitstub");
            let api_dir = copy_string(&parts[0]);
            let basename = copy_string(&parts[1]);
            if ends_with(name.as_slice(), suffix.as_slice()) {
                return Ok(BlessedPathKind::GitStubFile { api_dir, basename });
            } else {
                return Ok(BlessedPathKind::VersionedFile { api_dir, basename });
            }
        }
        Err(UnrecognizedPath)
    }

    /// Parses a path listed from a blessed revision into its structural
    /// kind (see `from_components`).
    pub fn parse(path: &str) -> (res: Result<BlessedPathKind, UnrecognizedPath>)
        ensures
            match res {
                Ok(k) => blessed_kind_spec(path_components_of(path@)) == Some(blessed_kind_view(k)),
                Err(_) => blessed_kind_spec(path_components_of(path@)) is None,
            },
    {
        let parts = path_components_call(path);
        BlessedPathKind::from_components(&parts)
    }

    /// Whether loading skips a path of this kind: a lockstep file, or the
    /// latest link of a versioned API.
    pub fn is_skipped(&self) -> (res: bool)
        ensures
            res == match *self {
                BlessedPathKind::Lockstep => true,
                BlessedPathKind::VersionedFile { api_dir, basename } => basename@ == latest_symlink_spec(api_dir@),
                BlessedPathKind::GitStubFile { .. } => false,
            },
    {
        match self {
            BlessedPathKind::Lockstep => true,
            BlessedPathKind::VersionedFile { api_dir, basename } => {
                ApiIdent::from_str(api_dir.as_str()).versioned_api_is_latest_symlink(basename.as_str())
            },
            BlessedPathKind::GitStubFile { .. } => false,
        }
    }
}

} // verus!
