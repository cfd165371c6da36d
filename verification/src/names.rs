//! Identifiers, versions, and the file names under which OpenAPI documents
//! are stored.
//!
//! A lockstep API has one document named `{ident}.json`. A versioned API
//! keeps each version in its own directory entry
//! `{ident}/{ident}-{version}-{hash}.json`, or `.json.gitref` when the
//! document is stored as a reference into version control history.

use vstd::prelude::*;
use crate::text::{chars_eq, chars_of, push_chars, push_decimal, decimal, string_from_chars};

verus! {

/// Identifier of a managed API (the API-specific part of its file names).
#[derive(Debug, Clone, PartialEq, Eq, PartialOrd, Ord)]
pub struct ApiIdent {
    name: String,
}

impl View for ApiIdent {
    type V = Seq<char>;

    closed spec fn view(&self) -> Seq<char> {
        self.name@
    }
}

/// The base name of the "latest" symlink of a versioned API.
pub open spec fn latest_symlink_spec(ident: Seq<char>) -> Seq<char> {
    ident + "-latest.json"@
}

impl ApiIdent {
    /// Creates an identifier holding `name`.
    pub fn new(name: String) -> (res: Self)
        ensures
            res@ == name@,
    {
        ApiIdent { name }
    }

    /// Creates an identifier holding a copy of `name`.
    pub fn from_str(name: &str) -> (res: Self)
        ensures
            res@ == name@,
    {
        let cs = chars_of(name);
        ApiIdent { name: string_from_chars(cs.as_slice()) }
    }

    /// The identifier's text.
    pub fn as_str(&self) -> (res: &str)
        ensures
            res@ == self@,
    {
        self.name.as_str()
    }

    /// A copy of this identifier.
    pub fn duplicate(&self) -> (res: Self)
        ensures
            res == *self,
    {
        ApiIdent { name: self.name.clone() }
    }

    /// True when both identifiers hold the same text.
    pub fn same_as(&self, other: &ApiIdent) -> (res: bool)
        ensures
            res == (self@ == other@),
    {
        self.name == other.name
    }

    /// Given an API identifier, return the basename of its "latest" symlink.
    pub fn versioned_api_latest_symlink(&self) -> (res: String)
        ensures
            res@ == latest_symlink_spec(self@),
    {
        let mut out = chars_of(self.name.as_str());
        push_chars(&mut out, chars_of("-latest.json").as_slice());
        proof {
            reveal_strlit("-latest.json");
        }
        string_from_chars(out.as_slice())
    }

    /// Given an API identifier and a file name, determine if we're looking
    /// at this API's "latest" symlink.
    pub fn versioned_api_is_latest_symlink(&self, base_name: &str) -> (res: bool)
        ensures
            res == (base_name@ == latest_symlink_spec(self@)),
    {
        let link = self.versioned_api_latest_symlink();
        let a = chars_of(base_name);
        let b = chars_of(link.as_str());
        chars_eq(a.as_slice(), b.as_slice())
    }
}

/// A semantic version: `major.minor.patch`, an optional pre-release part
/// and optional build metadata.
#[derive(Debug, Clone, PartialEq, Eq)]
pub struct SemVersion {
    /// Major version.
    pub major: u64,
    /// Minor version.
    pub minor: u64,
    /// Patch version.
    pub patch: u64,
    /// Pre-release identifiers (without the leading `-`), or empty.
    pub pre: String,
    /// Build metadata (without the leading `+`), or empty.
    pub build: String,
}

/// The textual form of a version: `major.minor.patch`, then `-pre` if there
/// is a pre-release part, then `+build` if there is build metadata.
pub open spec fn version_text(v: SemVersion) -> Seq<char> {
    let core = decimal(v.major as nat) + "."@ + decimal(v.minor as nat) + "."@ + decimal(
        v.patch as nat,
    );
    let with_pre = if v.pre@.len() > 0 {
        core + "-"@ + v.pre@
    } else {
        core
    };
    if v.build@.len() > 0 {
        with_pre + "+"@ + v.build@
    } else {
        with_pre
    }
}

/// Two versions are the same when every part is the same.
pub open spec fn same_version(a: SemVersion, b: SemVersion) -> bool {
    &&& a.major == b.major
    &&& a.minor == b.minor
    &&& a.patch == b.patch
    &&& a.pre@ == b.pre@
    &&& a.build@ == b.build@
}

/// Parse result of the `semver` crate for `text`: the five parts of the
/// version, or `None` when the text is not a valid version.
pub uninterp spec fn semver_parse(text: Seq<char>) -> Option<(u64, u64, u64, Seq<char>, Seq<char>)>;

/// Parses `text` with `semver::Version::parse`.
///
/// Trusted: the result is `semver_parse` of the text, carried over part by
/// part; what `semver` accepts is not restated here.
#[verifier::external_body]
fn semver_parse_call(text: &str) -> (res: Option<SemVersion>)
    ensures
        match res {
            Some(v) => semver_parse(text@) == Some((v.major, v.minor, v.patch, v.pre@, v.build@)),
            None => semver_parse(text@) is None,
        },
{
    match semver::Version::parse(text) {
        Ok(v) => Some(SemVersion {
            major: v.major,
            minor: v.minor,
            patch: v.patch,
            pre: v.pre.as_str().to_string(),
            build: v.build.as_str().to_string(),
        }),
        Err(_) => None,
    }
}

impl SemVersion {
    /// Parses a version from its textual form; `None` when `text` is not a
    /// valid semantic version.
    pub fn parse(text: &str) -> (res: Option<SemVersion>)
        ensures
            match res {
                Some(v) => semver_parse(text@) == Some((v.major, v.minor, v.patch, v.pre@, v.build@)),
                None => semver_parse(text@) is None,
            },
    {
        semver_parse_call(text)
    }

    /// A copy of this version.
    pub fn duplicate(&self) -> (res: Self)
        ensures
            res == *self,
    {
        SemVersion {
            major: self.major,
            minor: self.minor,
            patch: self.patch,
            pre: self.pre.clone(),
            build: self.build.clone(),
        }
    }

    /// True when both versions have the same parts.
    pub fn same_as(&self, other: &SemVersion) -> (res: bool)
        ensures
            res == same_version(*self, *other),
    {
        self.major == other.major && self.minor == other.minor && self.patch == other.patch
            && self.pre == other.pre && self.build == other.build
    }

    /// Appends the textual form of this version to `out`.
    pub fn push_text(&self, out: &mut Vec<char>)
        ensures
            final(out)@ == old(out)@ + version_text(*self),
    {
        proof {
            reveal_strlit(".");
            reveal_strlit("-");
            reveal_strlit("+");
        }
        push_decimal(out, self.major);
        out.push('.');
        push_decimal(out, self.minor);
        out.push('.');
        push_decimal(out, self.patch);
        let pre = chars_of(self.pre.as_str());
        if pre.len() > 0 {
            out.push('-');
            push_chars(out, pre.as_slice());
        }
        let build = chars_of(self.build.as_str());
        if build.len() > 0 {
            out.push('+');
            push_chars(out, build.as_slice());
        }
        proof {
            let old_out = old(out)@;
            let core = decimal(self.major as nat) + "."@ + decimal(self.minor as nat) + "."@
                + decimal(self.patch as nat);
            assert(old_out + core == old_out + decimal(self.major as nat) + "."@ + decimal(
                self.minor as nat,
            ) + "."@ + decimal(self.patch as nat));
        }
    }

    /// The textual form of this version, e.g. `1.2.3-rc.1`.
    pub fn to_text(&self) -> (res: String)
        ensures
            res@ == version_text(*self),
    {
        let mut out: Vec<char> = Vec::new();
        self.push_text(&mut out);
        assert(out@ == Seq::<char>::empty() + version_text(*self));
        string_from_chars(out.as_slice())
    }
}

/// How a versioned document is stored.
#[derive(Debug, Clone, Copy, PartialEq, Eq, Structural, PartialOrd, Ord)]
pub enum VersionedApiSpecKind {
    /// The full OpenAPI document as JSON.
    Json,
    /// A `.gitref` file holding a `commit:path` reference to the document.
    GitRef,
}

/// File name of the single document of a lockstep API: `{ident}.json`.
#[derive(Debug, Clone, PartialEq, Eq)]
pub struct LockstepApiSpecFileName {
    ident: ApiIdent,
}

/// Base name of a lockstep document.
pub open spec fn lockstep_basename_spec(ident: Seq<char>) -> Seq<char> {
    ident + ".json"@
}

impl LockstepApiSpecFileName {
    /// The identifier this file name was made from.
    pub closed spec fn ident_view(&self) -> Seq<char> {
        self.ident@
    }

    /// Creates a new lockstep API spec filename.
    pub fn new(ident: ApiIdent) -> (res: Self)
        ensures
            res.ident_view() == ident@,
    {
        LockstepApiSpecFileName { ident }
    }

    /// Returns the API identifier.
    pub fn ident(&self) -> (res: &ApiIdent)
        ensures
            res@ == self.ident_view(),
    {
        &self.ident
    }

    /// A copy of this file name.
    pub fn duplicate(&self) -> (res: Self)
        ensures
            res == *self,
    {
        LockstepApiSpecFileName { ident: self.ident.duplicate() }
    }

    /// Returns the base name of this file path.
    pub fn basename(&self) -> (res: String)
        ensures
            res@ == lockstep_basename_spec(self.ident_view()),
    {
        let mut out = chars_of(self.ident.as_str());
        push_chars(&mut out, chars_of(".json").as_slice());
        string_from_chars(out.as_slice())
    }
}

/// File name of one version of a versioned API.
#[derive(Debug, Clone, PartialEq, Eq)]
pub struct VersionedApiSpecFileName {
    ident: ApiIdent,
    version: SemVersion,
    hash: String,
    kind: VersionedApiSpecKind,
}

/// `{ident}-{version}-{hash}.json`.
pub open spec fn versioned_json_basename_spec(
    ident: Seq<char>,
    version: SemVersion,
    hash: Seq<char>,
) -> Seq<char> {
    ident + "-"@ + version_text(version) + "-"@ + hash + ".json"@
}

/// Base name of a versioned document stored in the given kind.
pub open spec fn versioned_basename_spec(
    ident: Seq<char>,
    version: SemVersion,
    hash: Seq<char>,
    kind: VersionedApiSpecKind,
) -> Seq<char> {
    match kind {
        VersionedApiSpecKind::Json => versioned_json_basename_spec(ident, version, hash),
        VersionedApiSpecKind::GitRef => versioned_json_basename_spec(ident, version, hash)
            + ".gitref"@,
    }
}

impl VersionedApiSpecFileName {
    /// The identifier part.
    pub closed spec fn ident_view(&self) -> Seq<char> {
        self.ident@
    }

    /// The identifier, as a value.
    pub closed spec fn ident_value(&self) -> ApiIdent {
        self.ident
    }

    /// The version part.
    pub closed spec fn version_view(&self) -> SemVersion {
        self.version
    }

    /// The hash part.
    pub closed spec fn hash_view(&self) -> Seq<char> {
        self.hash@
    }

    /// The storage kind.
    pub closed spec fn kind_view(&self) -> VersionedApiSpecKind {
        self.kind
    }

    /// The base name of this file.
    pub open spec fn basename_view(&self) -> Seq<char> {
        versioned_basename_spec(self.ident_view(), self.version_view(), self.hash_view(), self.kind_view())
    }

    /// Creates a new versioned API spec filename (JSON format).
    pub fn new(ident: ApiIdent, version: SemVersion, hash: String) -> (res: Self)
        ensures
            res.ident_view() == ident@,
            res.version_view() == version,
            res.hash_view() == hash@,
            res.kind_view() == VersionedApiSpecKind::Json,
    {
        VersionedApiSpecFileName { ident, version, hash, kind: VersionedApiSpecKind::Json }
    }

    /// Creates a new versioned API spec filename (git ref format).
    pub fn new_git_ref(ident: ApiIdent, version: SemVersion, hash: String) -> (res: Self)
        ensures
            res.ident_view() == ident@,
            res.version_view() == version,
            res.hash_view() == hash@,
            res.kind_view() == VersionedApiSpecKind::GitRef,
    {
        VersionedApiSpecFileName { ident, version, hash, kind: VersionedApiSpecKind::GitRef }
    }

    /// A copy of this file name.
    pub fn duplicate(&self) -> (res: Self)
        ensures
            res == *self,
    {
        VersionedApiSpecFileName {
            ident: self.ident.duplicate(),
            version: self.version.duplicate(),
            hash: self.hash.clone(),
            kind: self.kind,
        }
    }

    /// True when the two names have the same identifier, version, hash and
    /// kind.
    pub fn same_as(&self, other: &VersionedApiSpecFileName) -> (res: bool)
        ensures
            res == (self.ident_view() == other.ident_view() && same_version(
                self.version_view(),
                other.version_view(),
            ) && self.hash_view() == other.hash_view() && self.kind_view()
                == other.kind_view()),
    {
        self.ident.same_as(&other.ident) && self.version.same_as(&other.version) && self.hash
            == other.hash && self.kind == other.kind
    }

    /// Returns the API identifier.
    pub fn ident(&self) -> (res: &ApiIdent)
        ensures
            res@ == self.ident_view(),
            *res == self.ident_value(),
    {
        &self.ident
    }

    /// Returns the version.
    pub fn version(&self) -> (res: &SemVersion)
        ensures
            *res == self.version_view(),
    {
        &self.version
    }

    /// Returns the hash.
    pub fn hash(&self) -> (res: &str)
        ensures
            res@ == self.hash_view(),
    {
        self.hash.as_str()
    }

    /// Returns the storage kind (JSON or git ref).
    pub fn kind(&self) -> (res: VersionedApiSpecKind)
        ensures
            res == self.kind_view(),
    {
        self.kind
    }

    /// Returns true if this is a git ref file.
    pub fn is_git_ref(&self) -> (res: bool)
        ensures
            res == (self.kind_view() == VersionedApiSpecKind::GitRef),
    {
        self.kind == VersionedApiSpecKind::GitRef
    }

    fn push_json_basename(&self, out: &mut Vec<char>)
        ensures
            final(out)@ == old(out)@ + versioned_json_basename_spec(
                self.ident_view(),
                self.version_view(),
                self.hash_view(),
            ),
    {
        proof {
            reveal_strlit("-");
            reveal_strlit(".json");
        }
        let ghost o = out@;
        push_chars(out, chars_of(self.ident.as_str()).as_slice());
        out.push('-');
        self.version.push_text(out);
        out.push('-');
        push_chars(out, chars_of(self.hash.as_str()).as_slice());
        push_chars(out, chars_of(".json").as_slice());
        assert(out@ =~= o + versioned_json_basename_spec(
            self.ident_view(),
            self.version_view(),
            self.hash_view(),
        ));
    }

    /// Returns the base name of this file path.
    pub fn basename(&self) -> (res: String)
        ensures
            res@ == self.basename_view(),
    {
        let mut out: Vec<char> = Vec::new();
        self.push_json_basename(&mut out);
        if self.kind == VersionedApiSpecKind::GitRef {
            push_chars(&mut out, chars_of(".gitref").as_slice());
        }
        string_from_chars(out.as_slice())
    }

    /// Converts this filename to its JSON equivalent.
    pub fn to_json(&self) -> (res: Self)
        ensures
            res.ident_view() == self.ident_view(),
            res.version_view() == self.version_view(),
            res.hash_view() == self.hash_view(),
            res.kind_view() == VersionedApiSpecKind::Json,
    {
        VersionedApiSpecFileName {
            ident: self.ident.duplicate(),
            version: self.version.duplicate(),
            hash: self.hash.clone(),
            kind: VersionedApiSpecKind::Json,
        }
    }

    /// Converts this filename to its git ref equivalent.
    pub fn to_git_ref(&self) -> (res: Self)
        ensures
            res.ident_view() == self.ident_view(),
            res.version_view() == self.version_view(),
            res.hash_view() == self.hash_view(),
            res.kind_view() == VersionedApiSpecKind::GitRef,
    {
        VersionedApiSpecFileName {
            ident: self.ident.duplicate(),
            version: self.version.duplicate(),
            hash: self.hash.clone(),
            kind: VersionedApiSpecKind::GitRef,
        }
    }

    /// Returns the basename as a git ref filename: the base name itself for
    /// a git ref, and the JSON base name followed by `.gitref` otherwise.
    pub fn git_ref_basename(&self) -> (res: String)
        ensures
            res@ == versioned_basename_spec(
                self.ident_view(),
                self.version_view(),
                self.hash_view(),
                VersionedApiSpecKind::GitRef,
            ),
    {
        let mut out: Vec<char> = Vec::new();
        self.push_json_basename(&mut out);
        push_chars(&mut out, chars_of(".gitref").as_slice());
        string_from_chars(out.as_slice())
    }

    /// Returns the basename as a JSON filename: the base name without any
    /// `.gitref` suffix.
    pub fn json_basename(&self) -> (res: String)
        ensures
            res@ == versioned_json_basename_spec(self.ident_view(), self.version_view(), self.hash_view()),
    {
        let mut out: Vec<char> = Vec::new();
        self.push_json_basename(&mut out);
        string_from_chars(out.as_slice())
    }

    /// Returns the path of this file relative to the root of the documents,
    /// written with `/` between the directory and the base name.
    pub fn path_text(&self) -> (res: String)
        ensures
            res@ == self.ident_view() + "/"@ + self.basename_view(),
    {
        let mut out = chars_of(self.ident.as_str());
        out.push('/');
        let b = self.basename();
        push_chars(&mut out, chars_of(b.as_str()).as_slice());
        proof {
            reveal_strlit("/");
        }
        string_from_chars(out.as_slice())
    }
}

/// The path to an OpenAPI document file, relative to the documents root.
#[derive(Debug, Clone, PartialEq, Eq)]
pub enum ApiSpecFileName {
    /// A lockstep API: single OpenAPI document, no versioning.
    Lockstep(LockstepApiSpecFileName),
    /// A versioned API: multiple versions can coexist.
    Versioned(VersionedApiSpecFileName),
}

impl ApiSpecFileName {
    /// Identifier of the API this file belongs to.
    pub open spec fn ident_view(&self) -> Seq<char> {
        match self {
            ApiSpecFileName::Lockstep(l) => l.ident_view(),
            ApiSpecFileName::Versioned(v) => v.ident_view(),
        }
    }

    /// Base name of this file.
    pub open spec fn basename_view(&self) -> Seq<char> {
        match self {
            ApiSpecFileName::Lockstep(l) => lockstep_basename_spec(l.ident_view()),
            ApiSpecFileName::Versioned(v) => v.basename_view(),
        }
    }

    /// Path of this file relative to the documents root, with `/` between
    /// components.
    pub open spec fn path_view(&self) -> Seq<char> {
        match self {
            ApiSpecFileName::Lockstep(l) => lockstep_basename_spec(l.ident_view()),
            ApiSpecFileName::Versioned(v) => v.ident_view() + "/"@ + v.basename_view(),
        }
    }

    /// True for a versioned name stored as a git ref.
    pub open spec fn is_git_ref_view(&self) -> bool {
        match self {
            ApiSpecFileName::Lockstep(_) => false,
            ApiSpecFileName::Versioned(v) => v.kind_view() == VersionedApiSpecKind::GitRef,
        }
    }

    /// Returns the API identifier.
    pub fn ident(&self) -> (res: &ApiIdent)
        ensures
            res@ == self.ident_view(),
    {
        match self {
            ApiSpecFileName::Lockstep(l) => l.ident(),
            ApiSpecFileName::Versioned(v) => v.ident(),
        }
    }

    /// A copy of this file name.
    pub fn duplicate(&self) -> (res: Self)
        ensures
            res == *self,
    {
        match self {
            ApiSpecFileName::Lockstep(l) => ApiSpecFileName::Lockstep(l.duplicate()),
            ApiSpecFileName::Versioned(v) => ApiSpecFileName::Versioned(v.duplicate()),
        }
    }

    /// Returns the base name of this file path.
    pub fn basename(&self) -> (res: String)
        ensures
            res@ == self.basename_view(),
    {
        match self {
            ApiSpecFileName::Lockstep(l) => l.basename(),
            ApiSpecFileName::Versioned(v) => v.basename(),
        }
    }

    /// Returns the path of this file relative to the documents root, with
    /// `/` between components.
    pub fn path_text(&self) -> (res: String)
        ensures
            res@ == self.path_view(),
    {
        match self {
            ApiSpecFileName::Lockstep(l) => l.basename(),
            ApiSpecFileName::Versioned(v) => v.path_text(),
        }
    }

    /// For versioned APIs, returns the version part of the filename.
    pub fn version(&self) -> (res: Option<&SemVersion>)
        ensures
            match self {
                ApiSpecFileName::Lockstep(_) => res is None,
                ApiSpecFileName::Versioned(v) => res == Some(&v.version_view()),
            },
    {
        match self {
            ApiSpecFileName::Lockstep(_) => None,
            ApiSpecFileName::Versioned(v) => Some(v.version()),
        }
    }

    /// For versioned APIs, returns the hash part of the filename.
    pub fn hash(&self) -> (res: Option<&str>)
        ensures
            match self {
                ApiSpecFileName::Lockstep(_) => res is None,
                ApiSpecFileName::Versioned(v) => res is Some && res.unwrap()@ == v.hash_view(),
            },
    {
        match self {
            ApiSpecFileName::Lockstep(_) => None,
            ApiSpecFileName::Versioned(v) => Some(v.hash()),
        }
    }

    /// Returns true if this is a git ref file.
    pub fn is_git_ref(&self) -> (res: bool)
        ensures
            res == self.is_git_ref_view(),
    {
        match self {
            ApiSpecFileName::Lockstep(_) => false,
            ApiSpecFileName::Versioned(v) => v.is_git_ref(),
        }
    }

    /// For versioned APIs, returns the kind of storage.
    pub fn versioned_kind(&self) -> (res: Option<VersionedApiSpecKind>)
        ensures
            match self {
                ApiSpecFileName::Lockstep(_) => res is None,
                ApiSpecFileName::Versioned(v) => res == Some(v.kind_view()),
            },
    {
        match self {
            ApiSpecFileName::Lockstep(_) => None,
            ApiSpecFileName::Versioned(v) => Some(v.kind()),
        }
    }

    /// Converts a git ref filename to its JSON equivalent; lockstep names are
    /// returned unchanged.
    pub fn to_json_filename(&self) -> (res: ApiSpecFileName)
        ensures
            match self {
                ApiSpecFileName::Lockstep(l) => res == ApiSpecFileName::Lockstep(*l),
                ApiSpecFileName::Versioned(v) => match res {
                    ApiSpecFileName::Versioned(r) => r.ident_view() == v.ident_view()
                        && r.version_view() == v.version_view() && r.hash_view()
                        == v.hash_view() && r.kind_view() == VersionedApiSpecKind::Json,
                    ApiSpecFileName::Lockstep(_) => false,
                },
            },
    {
        match self {
            ApiSpecFileName::Lockstep(l) => ApiSpecFileName::Lockstep(l.duplicate()),
            ApiSpecFileName::Versioned(v) => ApiSpecFileName::Versioned(v.to_json()),
        }
    }

    /// Converts a JSON filename to its git ref equivalent; lockstep names are
    /// returned unchanged.
    pub fn to_git_ref_filename(&self) -> (res: ApiSpecFileName)
        ensures
            match self {
                ApiSpecFileName::Lockstep(l) => res == ApiSpecFileName::Lockstep(*l),
                ApiSpecFileName::Versioned(v) => match res {
                    ApiSpecFileName::Versioned(r) => r.ident_view() == v.ident_view()
                        && r.version_view() == v.version_view() && r.hash_view()
                        == v.hash_view() && r.kind_view() == VersionedApiSpecKind::GitRef,
                    ApiSpecFileName::Lockstep(_) => false,
                },
            },
    {
        match self {
            ApiSpecFileName::Lockstep(l) => ApiSpecFileName::Lockstep(l.duplicate()),
            ApiSpecFileName::Versioned(v) => ApiSpecFileName::Versioned(v.to_git_ref()),
        }
    }

    /// Returns the basename for this file as a git ref; lockstep files keep
    /// their base name.
    pub fn git_ref_basename(&self) -> (res: String)
        ensures
            res@ == match self {
                ApiSpecFileName::Lockstep(l) => lockstep_basename_spec(l.ident_view()),
                ApiSpecFileName::Versioned(v) => versioned_basename_spec(
                    v.ident_view(),
                    v.version_view(),
                    v.hash_view(),
                    VersionedApiSpecKind::GitRef,
                ),
            },
    {
        match self {
            ApiSpecFileName::Lockstep(l) => l.basename(),
            ApiSpecFileName::Versioned(v) => v.git_ref_basename(),
        }
    }

    /// Returns the basename for this file as a JSON file.
    pub fn json_basename(&self) -> (res: String)
        ensures
            res@ == match self {
                ApiSpecFileName::Lockstep(l) => lockstep_basename_spec(l.ident_view()),
                ApiSpecFileName::Versioned(v) => versioned_json_basename_spec(
                    v.ident_view(),
                    v.version_view(),
                    v.hash_view(),
                ),
            },
    {
        match self {
            ApiSpecFileName::Lockstep(l) => l.basename(),
            ApiSpecFileName::Versioned(v) => v.json_basename(),
        }
    }

    /// The inner versioned name, if this is a versioned API.
    pub fn as_versioned(&self) -> (res: Option<&VersionedApiSpecFileName>)
        ensures
            match self {
                ApiSpecFileName::Lockstep(_) => res is None,
                ApiSpecFileName::Versioned(v) => res == Some(v),
            },
    {
        match self {
            ApiSpecFileName::Lockstep(_) => None,
            ApiSpecFileName::Versioned(v) => Some(v),
        }
    }

    /// Consumes `self` and returns the inner versioned name, if any.
    pub fn into_versioned(self) -> (res: Option<VersionedApiSpecFileName>)
        ensures
            match self {
                ApiSpecFileName::Lockstep(_) => res is None,
                ApiSpecFileName::Versioned(v) => res == Some(v),
            },
    {
        match self {
            ApiSpecFileName::Lockstep(_) => None,
            ApiSpecFileName::Versioned(v) => Some(v),
        }
    }

    /// The inner lockstep name, if this is a lockstep API.
    pub fn as_lockstep(&self) -> (res: Option<&LockstepApiSpecFileName>)
        ensures
            match self {
                ApiSpecFileName::Lockstep(l) => res == Some(l),
                ApiSpecFileName::Versioned(_) => res is None,
            },
    {
        match self {
            ApiSpecFileName::Lockstep(l) => Some(l),
            ApiSpecFileName::Versioned(_) => None,
        }
    }

    /// Consumes `self` and returns the inner lockstep name, if any.
    pub fn into_lockstep(self) -> (res: Option<LockstepApiSpecFileName>)
        ensures
            match self {
                ApiSpecFileName::Lockstep(l) => res == Some(l),
                ApiSpecFileName::Versioned(_) => res is None,
            },
    {
        match self {
            ApiSpecFileName::Lockstep(l) => Some(l),
            ApiSpecFileName::Versioned(_) => None,
        }
    }
}

/// Converting a name to JSON form and back to git ref form gives the git
/// ref form of the original, and the two base names differ exactly by the
/// `.gitref` suffix.
pub proof fn law_git_ref_basename_extends_json(v: VersionedApiSpecFileName)
    ensures
        versioned_basename_spec(v.ident_view(), v.version_view(), v.hash_view(), VersionedApiSpecKind::GitRef)
            == versioned_json_basename_spec(v.ident_view(), v.version_view(), v.hash_view()) + ".gitref"@,
        versioned_basename_spec(v.ident_view(), v.version_view(), v.hash_view(), VersionedApiSpecKind::Json)
            == versioned_json_basename_spec(v.ident_view(), v.version_view(), v.hash_view()),
{
}

} // verus!
