//! Resolution of all managed APIs together: versions that were blessed but
//! are no longer supported, local documents of unsupported versions,
//! unparseable local files, and the per-API results.

use vstd::prelude::*;
use crate::fixes::fix_path_written;
use crate::names::{same_version, semver_parse, version_text, ApiIdent, ApiSpecFileName, SemVersion, VersionedApiSpecFileName};
use crate::problems::{fix_spec, kind_spec, unfixable_kind, Fix, Problem, ProblemKind};
use crate::resolve::{any_unfixable, versioned_of, Resolution};
use crate::text::{chars_eq, chars_of, push_chars, push_str_chars, string_from_chars};
use crate::diffing::{semver_order, version_parts};
use crate::tree::chars_order;

verus! {

/// An API and a list of its versions.
#[derive(Debug)]
pub struct ApiVersions {
    /// The API.
    pub ident: ApiIdent,
    /// Its versions.
    pub versions: Vec<SemVersion>,
}

/// The local documents of an API, grouped by version.
#[derive(Debug)]
pub struct LocalApiFiles {
    /// The API.
    pub ident: ApiIdent,
    /// For each version, the file names of its local documents.
    pub versions: Vec<(SemVersion, Vec<ApiSpecFileName>)>,
}

/// The versions listed for `ident` in `apis` (the first entry for it).
pub open spec fn versions_of(apis: Seq<ApiVersions>, ident: Seq<char>) -> Option<Seq<SemVersion>>
    decreases apis.len(),
{
    if apis.len() == 0 {
        None
    } else if apis[0].ident@ == ident {
        Some(apis[0].versions@)
    } else {
        versions_of(apis.drop_first(), ident)
    }
}

/// `vs` holds a version equal to `v`.
pub open spec fn has_version(vs: Seq<SemVersion>, v: SemVersion) -> bool {
    exists|i: int| 0 <= i < vs.len() && same_version(#[trigger] vs[i], v)
}

/// Finds the versions listed for an API.
pub fn find_versions<'a>(apis: &'a Vec<ApiVersions>, ident: &ApiIdent) -> (res: Option<&'a Vec<SemVersion>>)
    ensures
        match res {
            Some(vs) => versions_of(apis@, ident@) == Some(vs@),
            None => versions_of(apis@, ident@) is None,
        },
{
    let mut i: usize = 0;
    assert(apis@.subrange(0, apis@.len() as int) =~= apis@);
    while i < apis.len()
        invariant
            i <= apis@.len(),
            versions_of(apis@, ident@) == versions_of(apis@.subrange(i as int, apis@.len() as int), ident@),
        decreases apis@.len() - i,
    {
        let rest = Ghost(apis@.subrange(i as int, apis@.len() as int));
        assert(rest@[0] == apis@[i as int]);
        if apis[i].ident.same_as(ident) {
            return Some(&apis[i].versions);
        }
        assert(rest@.drop_first() =~= apis@.subrange(i + 1, apis@.len() as int));
        i = i + 1;
    }
    None
}

/// True when `vs` holds a version equal to `v`.
pub fn contains_version(vs: &Vec<SemVersion>, v: &SemVersion) -> (res: bool)
    ensures
        res == has_version(vs@, *v),
{
    let mut i: usize = 0;
    while i < vs.len()
        invariant
            i <= vs@.len(),
            forall|j: int| 0 <= j < i ==> !same_version(#[trigger] vs@[j], *v),
        decreases vs@.len() - i,
    {
        if vs[i].same_as(v) {
            return true;
        }
        i = i + 1;
    }
    false
}

/// A note worth highlighting that is not an error.
#[derive(Debug)]
pub enum Note {
    /// A version that was blessed is no longer supported.
    BlessedVersionRemoved { api_ident: ApiIdent, version: SemVersion },
}

/// The message of a note.
pub open spec fn note_text(n: Note) -> Seq<char> {
    match n {
        Note::BlessedVersionRemoved { api_ident, version } => "API "@ + api_ident@ + " version "@
            + version_text(version) + ": formerly blessed version has been removed.  This version will no longer be supported!  This will break upgrade from software that still uses this version.  If this is unexpected, check the list of supported versions in Rust for a possible mismerge."@,
    }
}

impl Note {
    /// The message of this note.
    pub fn message(&self) -> (res: String)
        ensures
            res@ == note_text(*self),
    {
        let mut out: Vec<char> = Vec::new();
        match self {
            Note::BlessedVersionRemoved { api_ident, version } => {
                push_str_chars(&mut out, "API ");
                push_str_chars(&mut out, api_ident.as_str());
                push_str_chars(&mut out, " version ");
                version.push_text(&mut out);
                push_str_chars(
                    &mut out,
                    ": formerly blessed version has been removed.  This version will no longer be supported!  This will break upgrade from software that still uses this version.  If this is unexpected, check the list of supported versions in Rust for a possible mismerge.",
                );
            },
        }
        assert(out@ =~= note_text(*self));
        string_from_chars(out.as_slice())
    }
}

/// A blessed version is removed when its API is not supported at all, or
/// the API is supported without that version.
pub open spec fn is_removed(supported: Seq<ApiVersions>, ident: Seq<char>, v: SemVersion) -> bool {
    match versions_of(supported, ident) {
        Some(vs) => !has_version(vs, v),
        None => true,
    }
}

/// Notes for the removed versions among `vs` of API `ident`, in order.
pub open spec fn removed_in(supported: Seq<ApiVersions>, ident: ApiIdent, vs: Seq<SemVersion>) -> Seq<
    Note,
>
    decreases vs.len(),
{
    if vs.len() == 0 {
        seq![]
    } else {
        removed_in(supported, ident, vs.drop_last()) + if is_removed(supported, ident@, vs.last()) {
            seq![Note::BlessedVersionRemoved { api_ident: ident, version: vs.last() }]
        } else {
            seq![]
        }
    }
}

/// Notes for all removed blessed versions, API by API.
pub open spec fn removed_spec(supported: Seq<ApiVersions>, blessed: Seq<ApiVersions>) -> Seq<Note>
    decreases blessed.len(),
{
    if blessed.len() == 0 {
        seq![]
    } else {
        removed_spec(supported, blessed.drop_last()) + removed_in(
            supported,
            blessed.last().ident,
            blessed.last().versions@,
        )
    }
}

/// Notes the blessed versions that are no longer supported, in the order of
/// `blessed`.
pub fn removed_blessed_versions(supported: &Vec<ApiVersions>, blessed: &Vec<ApiVersions>) -> (res: Vec<
    Note,
>)
    ensures
        res@ == removed_spec(supported@, blessed@),
{
    let mut out: Vec<Note> = Vec::new();
    let mut i: usize = 0;
    while i < blessed.len()
        invariant
            i <= blessed@.len(),
            out@ == removed_spec(supported@, blessed@.subrange(0, i as int)),
        decreases blessed@.len() - i,
    {
        let api = &blessed[i];
        let set = find_versions(supported, &api.ident);
        let ghost base = out@;
        let mut j: usize = 0;
        while j < api.versions.len()
            invariant
                j <= api.versions@.len(),
                api == blessed@[i as int],
                match set {
                    Some(vs) => versions_of(supported@, api.ident@) == Some(vs@),
                    None => versions_of(supported@, api.ident@) is None,
                },
                out@ == base + removed_in(supported@, api.ident, api.versions@.subrange(0, j as int)),
            decreases api.versions@.len() - j,
        {
            let v = &api.versions[j];
            let removed = match set {
                Some(vs) => !contains_version(vs, v),
                None => true,
            };
            proof {
                assert(api.versions@.subrange(0, j + 1).drop_last() =~= api.versions@.subrange(
                    0,
                    j as int,
                ));
            }
            if removed {
                out.push(
                    Note::BlessedVersionRemoved { api_ident: api.ident.duplicate(), version: v.duplicate() },
                );
            }
            j = j + 1;
        }
        proof {
            assert(api.versions@.subrange(0, api.versions@.len() as int) =~= api.versions@);
            assert(blessed@.subrange(0, i + 1).drop_last() =~= blessed@.subrange(0, i as int));
        }
        i = i + 1;
    }
    proof {
        assert(blessed@.subrange(0, blessed@.len() as int) =~= blessed@);
    }
    out
}

/// A problem not tied to one supported version, with the API (and
/// version, when there is one) it belongs to.
#[derive(Debug)]
pub struct GeneralProblem {
    /// The API.
    pub api_ident: ApiIdent,
    /// The version, when the problem concerns one.
    pub version: Option<SemVersion>,
    /// The problem.
    pub problem: Problem,
}

/// A local version is orphaned when its API is supported without that
/// version.
pub open spec fn is_orphaned(supported: Seq<ApiVersions>, ident: Seq<char>, v: SemVersion) -> bool {
    match versions_of(supported, ident) {
        Some(vs) => !has_version(vs, v),
        None => false,
    }
}

/// The orphan problem for a local file.
pub open spec fn orphan_of(f: ApiSpecFileName) -> GeneralProblem {
    let n = versioned_of(f);
    GeneralProblem {
        api_ident: n.ident_value(),
        version: Some(n.version_view()),
        problem: Problem::LocalSpecFileOrphaned { spec_file_name: n },
    }
}

/// Orphan problems for each of the files.
pub open spec fn orphans_of_files(files: Seq<ApiSpecFileName>) -> Seq<GeneralProblem>
    decreases files.len(),
{
    if files.len() == 0 {
        seq![]
    } else {
        orphans_of_files(files.drop_last()).push(orphan_of(files.last()))
    }
}

/// Orphan problems for the versions of one API.
pub open spec fn orphans_in(
    supported: Seq<ApiVersions>,
    ident: Seq<char>,
    vs: Seq<(SemVersion, Vec<ApiSpecFileName>)>,
) -> Seq<GeneralProblem>
    decreases vs.len(),
{
    if vs.len() == 0 {
        seq![]
    } else {
        orphans_in(supported, ident, vs.drop_last()) + if is_orphaned(supported, ident, vs.last().0) {
            orphans_of_files(vs.last().1@)
        } else {
            seq![]
        }
    }
}

/// Orphan problems for all local documents, API by API.
pub open spec fn orphans_spec(supported: Seq<ApiVersions>, local: Seq<LocalApiFiles>) -> Seq<
    GeneralProblem,
>
    decreases local.len(),
{
    if local.len() == 0 {
        seq![]
    } else {
        orphans_spec(supported, local.drop_last()) + orphans_in(
            supported,
            local.last().ident@,
            local.last().versions@,
        )
    }
}

/// Every local document of a version that is no longer supported (an
/// orphan) has a versioned name.
pub open spec fn orphans_versioned(supported: Seq<ApiVersions>, local: Seq<LocalApiFiles>) -> bool {
    forall|i: int, j: int, k: int|
        0 <= i < local.len() && 0 <= j < local[i].versions@.len() && 0 <= k < local[i].versions@[j].1@.len()
            && is_orphaned(supported, local[i].ident@, local[i].versions@[j].0) ==> (#[trigger] local[
            i
        ].versions@[j].1@[k]) is Versioned
}

/// Reports every local document of a supported API whose version is not
/// supported (a fixable problem: the file is deleted), in the order of
/// `local`.
pub fn orphaned_local_specs(supported: &Vec<ApiVersions>, local: &Vec<LocalApiFiles>) -> (res: Vec<
    GeneralProblem,
>)
    requires
        orphans_versioned(supported@, local@),
    ensures
        res@ == orphans_spec(supported@, local@),
{
    let mut out: Vec<GeneralProblem> = Vec::new();
    let mut i: usize = 0;
    while i < local.len()
        invariant
            i <= local@.len(),
            orphans_versioned(supported@, local@),
            out@ == orphans_spec(supported@, local@.subrange(0, i as int)),
        decreases local@.len() - i,
    {
        let api = &local[i];
        let set = find_versions(supported, &api.ident);
        let ghost base = out@;
        let mut j: usize = 0;
        while j < api.versions.len()
            invariant
                j <= api.versions@.len(),
                i < local@.len(),
                api == local@[i as int],
                orphans_versioned(supported@, local@),
                match set {
                    Some(vs) => versions_of(supported@, api.ident@) == Some(vs@),
                    None => versions_of(supported@, api.ident@) is None,
                },
                out@ == base + orphans_in(supported@, api.ident@, api.versions@.subrange(0, j as int)),
            decreases api.versions@.len() - j,
        {
            let entry = &api.versions[j];
            let orphaned = match set {
                Some(vs) => !contains_version(vs, &entry.0),
                None => false,
            };
            proof {
                assert(api.versions@.subrange(0, j + 1).drop_last() =~= api.versions@.subrange(
                    0,
                    j as int,
                ));
            }
            if orphaned {
                let ghost base2 = out@;
                let files = &entry.1;
                let mut k: usize = 0;
                while k < files.len()
                    invariant
                        k <= files@.len(),
                        i < local@.len(),
                        j < api.versions@.len(),
                        api == local@[i as int],
                        entry == api.versions@[j as int],
                        files == entry.1,
                        orphans_versioned(supported@, local@),
                        is_orphaned(supported@, api.ident@, entry.0),
                        out@ == base2 + orphans_of_files(files@.subrange(0, k as int)),
                    decreases files@.len() - k,
                {
                    assert(local@[i as int].versions@[j as int].1@[k as int] is Versioned);
                    let n = match files[k].as_versioned() {
                        Some(n) => n,
                        None => vstd::pervasive::unreached(),
                    };
                    out.push(
                        GeneralProblem {
                            api_ident: n.ident().duplicate(),
                            version: Some(n.version().duplicate()),
                            problem: Problem::LocalSpecFileOrphaned { spec_file_name: n.duplicate() },
                        },
                    );
                    proof {
                        assert(files@.subrange(0, k + 1).drop_last() =~= files@.subrange(0, k as int));
                    }
                    k = k + 1;
                }
                proof {
                    assert(files@.subrange(0, files@.len() as int) =~= files@);
                }
            }
            j = j + 1;
        }
        proof {
            assert(api.versions@.subrange(0, api.versions@.len() as int) =~= api.versions@);
            assert(local@.subrange(0, i + 1).drop_last() =~= local@.subrange(0, i as int));
        }
        i = i + 1;
    }
    proof {
        assert(local@.subrange(0, local@.len() as int) =~= local@);
    }
    out
}

/// The path that the fix of problem `p` writes, if it has a fix that writes
/// one.
pub open spec fn problem_path_written(p: Problem) -> Option<Seq<char>> {
    if exists|f: Fix| fix_spec(p, Some(f)) {
        fix_path_written(choose|f: Fix| fix_spec(p, Some(f)))
    } else {
        None
    }
}

proof fn lemma_fix_path_determined(p: Problem, f1: Fix, f2: Fix)
    requires
        fix_spec(p, Some(f1)),
        fix_spec(p, Some(f2)),
    ensures
        fix_path_written(f1) == fix_path_written(f2),
{
}

/// The path written by the fix of a problem, if any.
pub fn problem_path(p: &Problem) -> (res: Option<String>)
    ensures
        match res {
            Some(s) => problem_path_written(*p) == Some(s@),
            None => problem_path_written(*p) is None,
        },
{
    match p.fix() {
        Some(f) => {
            proof {
                let g = choose|g: Fix| fix_spec(*p, Some(g));
                lemma_fix_path_determined(*p, f, g);
            }
            f.path_written()
        },
        None => None,
    }
}

/// The paths written by the fixes of the problems, in order.
pub open spec fn written_by_problems(ps: Seq<Problem>) -> Seq<Seq<char>>
    decreases ps.len(),
{
    if ps.len() == 0 {
        seq![]
    } else {
        written_by_problems(ps.drop_last()) + match problem_path_written(ps.last()) {
            Some(w) => seq![w],
            None => seq![],
        }
    }
}

/// The results for one API: a resolution per supported version, and the
/// problem with its "latest" link, if any.
#[derive(Debug)]
pub struct ApiResolved {
    /// The API.
    pub ident: ApiIdent,
    /// The resolution of each supported version, in version order.
    pub by_version: Vec<(SemVersion, Resolution)>,
    /// The problem with the "latest" link, if any.
    pub symlink: Option<Problem>,
}

/// The paths written by the fixes of all version problems of the APIs.
pub open spec fn written_by_versions(vs: Seq<(SemVersion, Resolution)>) -> Seq<Seq<char>>
    decreases vs.len(),
{
    if vs.len() == 0 {
        seq![]
    } else {
        written_by_versions(vs.drop_last()) + written_by_problems(vs.last().1.problems_view())
    }
}

/// The paths written by the fixes of all version problems of all APIs.
pub open spec fn written_by_apis(apis: Seq<ApiResolved>) -> Seq<Seq<char>>
    decreases apis.len(),
{
    if apis.len() == 0 {
        seq![]
    } else {
        written_by_apis(apis.drop_last()) + written_by_versions(apis.last().by_version@)
    }
}

fn push_written_by_problems(out: &mut Vec<String>, ps: &[Problem])
    ensures
        final(out)@.map_values(|s: String| s@) == old(out)@.map_values(|s: String| s@)
            + written_by_problems(ps@),
{
    let mut i: usize = 0;
    while i < ps.len()
        invariant
            i <= ps@.len(),
            out@.map_values(|s: String| s@) == old(out)@.map_values(|s: String| s@)
                + written_by_problems(ps@.subrange(0, i as int)),
        decreases ps@.len() - i,
    {
        proof {
            assert(ps@.subrange(0, i + 1).drop_last() =~= ps@.subrange(0, i as int));
        }
        let ghost before = out@;
        match problem_path(&ps[i]) {
            Some(w) => {
                out.push(w);
                proof {
                    assert(out@.map_values(|s: String| s@) =~= before.map_values(|s: String| s@).push(
                        out@.last()@,
                    ));
                }
            },
            None => {},
        }
        i = i + 1;
    }
    proof {
        assert(ps@.subrange(0, ps@.len() as int) =~= ps@);
    }
}

/// The paths (relative to the documents root) that fixing the version
/// problems of all APIs would write.
pub fn paths_written(apis: &Vec<ApiResolved>) -> (res: Vec<String>)
    ensures
        res@.map_values(|s: String| s@) == written_by_apis(apis@),
{
    let mut out: Vec<String> = Vec::new();
    let mut i: usize = 0;
    while i < apis.len()
        invariant
            i <= apis@.len(),
            out@.map_values(|s: String| s@) == written_by_apis(apis@.subrange(0, i as int)),
        decreases apis@.len() - i,
    {
        let vs = &apis[i].by_version;
        let ghost base = out@.map_values(|s: String| s@);
        let mut j: usize = 0;
        while j < vs.len()
            invariant
                j <= vs@.len(),
                out@.map_values(|s: String| s@) == base + written_by_versions(vs@.subrange(0, j as int)),
            decreases vs@.len() - j,
        {
            proof {
                assert(vs@.subrange(0, j + 1).drop_last() =~= vs@.subrange(0, j as int));
            }
            push_written_by_problems(&mut out, vs[j].1.problems());
            j = j + 1;
        }
        proof {
            assert(vs@.subrange(0, vs@.len() as int) =~= vs@);
            assert(apis@.subrange(0, i + 1).drop_last() =~= apis@.subrange(0, i as int));
        }
        i = i + 1;
    }
    proof {
        assert(apis@.subrange(0, apis@.len() as int) =~= apis@);
    }
    out
}

/// A local file of an API that could not be parsed.
#[derive(Debug)]
pub struct UnparseableFile {
    /// The API.
    pub api_ident: ApiIdent,
    /// The file's path, relative to the documents root.
    pub path: String,
}

/// Problems for the unparseable files whose path no fix writes, in order.
pub open spec fn unparseable_spec(written: Seq<Seq<char>>, files: Seq<UnparseableFile>) -> Seq<
    GeneralProblem,
>
    decreases files.len(),
{
    if files.len() == 0 {
        seq![]
    } else {
        unparseable_spec(written, files.drop_last()) + if written.contains(files.last().path@) {
            seq![]
        } else {
            seq![
                GeneralProblem {
                    api_ident: files.last().api_ident,
                    version: None,
                    problem: Problem::UnparseableLocalFile { path: files.last().path },
                },
            ]
        }
    }
}

fn contains_text(written: &Vec<String>, p: &String) -> (res: bool)
    ensures
        res == written@.map_values(|s: String| s@).contains(p@),
{
    let ghost ws = written@.map_values(|s: String| s@);
    let mut i: usize = 0;
    while i < written.len()
        invariant
            i <= written@.len(),
            ws == written@.map_values(|s: String| s@),
            forall|j: int| 0 <= j < i ==> ws[j] != p@,
        decreases written@.len() - i,
    {
        if written[i] == *p {
            assert(ws[i as int] == p@);
            return true;
        }
        i = i + 1;
    }
    false
}

/// Reports the unparseable files that no fix will overwrite.
pub fn unparseable_problems(written: &Vec<String>, files: &Vec<UnparseableFile>) -> (res: Vec<
    GeneralProblem,
>)
    ensures
        res@ == unparseable_spec(written@.map_values(|s: String| s@), files@),
{
    let mut out: Vec<GeneralProblem> = Vec::new();
    let mut i: usize = 0;
    while i < files.len()
        invariant
            i <= files@.len(),
            out@ == unparseable_spec(written@.map_values(|s: String| s@), files@.subrange(0, i as int)),
        decreases files@.len() - i,
    {
        proof {
            assert(files@.subrange(0, i + 1).drop_last() =~= files@.subrange(0, i as int));
        }
        if !contains_text(written, &files[i].path) {
            out.push(
                GeneralProblem {
                    api_ident: files[i].api_ident.duplicate(),
                    version: None,
                    problem: Problem::UnparseableLocalFile { path: files[i].path.clone() },
                },
            );
        }
        i = i + 1;
    }
    proof {
        assert(files@.subrange(0, files@.len() as int) =~= files@);
    }
    out
}

/// An owned summary of a problem: the API, the version (if the problem
/// concerns one) and the problem's kind.
#[derive(Debug, Clone, PartialEq, Eq)]
pub struct ProblemSummary {
    /// The API the problem belongs to.
    pub api_ident: ApiIdent,
    /// The version, or `None` for problems not tied to a version.
    pub version: Option<SemVersion>,
    /// The kind of problem.
    pub kind: ProblemKind,
}

/// `v` holds the parts that `semver` parses from `text`.
pub open spec fn parsed_as(text: Seq<char>, v: SemVersion) -> bool {
    semver_parse(text) == Some((v.major, v.minor, v.patch, v.pre@, v.build@))
}

impl ProblemSummary {
    /// A summary for a problem of version `version` (which must be a valid
    /// semantic version) of API `api_ident`.
    pub fn new(api_ident: &str, version: &str, kind: ProblemKind) -> (res: Self)
        requires
            semver_parse(version@) is Some,
        ensures
            res.api_ident@ == api_ident@,
            res.version is Some,
            parsed_as(version@, res.version->0),
            res.kind == kind,
    {
        match SemVersion::parse(version) {
            Some(v) => ProblemSummary { api_ident: ApiIdent::from_str(api_ident), version: Some(v), kind },
            None => vstd::pervasive::unreached(),
        }
    }

    /// A summary as `new` makes it, or `None` when `version` is not a valid
    /// semantic version.
    pub fn try_new(api_ident: &str, version: &str, kind: ProblemKind) -> (res: Option<Self>)
        ensures
            semver_parse(version@) is None ==> res is None,
            semver_parse(version@) is Some ==> res is Some,
            res matches Some(s) ==> s.api_ident@ == api_ident@ && s.kind == kind && s.version is Some
                && parsed_as(version@, s.version->0),
    {
        match SemVersion::parse(version) {
            Some(_) => Some(ProblemSummary::new(api_ident, version, kind)),
            None => None,
        }
    }

    /// A summary for a problem of API `api_ident` not tied to a version.
    pub fn for_api(api_ident: &str, kind: ProblemKind) -> (res: Self)
        ensures
            res.api_ident@ == api_ident@,
            res.version is None,
            res.kind == kind,
    {
        ProblemSummary { api_ident: ApiIdent::from_str(api_ident), version: None, kind }
    }
}

/// The resolution of all managed APIs.
/// The per-API results are those of the supported versions: one per API,
/// in the same order, each with one resolution per supported version, in
/// the same order.
pub open spec fn apis_match(supported: Seq<ApiVersions>, apis: Seq<ApiResolved>) -> bool {
    &&& apis.len() == supported.len()
    &&& forall|i: int| 0 <= i < apis.len() ==> {
        &&& (#[trigger] apis[i]).ident == supported[i].ident
        &&& apis[i].by_version@.len() == supported[i].versions@.len()
        &&& forall|k: int| 0 <= k < apis[i].by_version@.len() ==> (#[trigger] apis[i].by_version@[k]).0 == supported[i].versions@[k]
    }
}

/// The APIs are in ascending order of their identifiers, and each API's
/// versions in ascending version order (as the keys of sorted maps).
pub open spec fn apis_in_order(apis: Seq<ApiResolved>) -> bool {
    &&& forall|i: int| 0 <= i < apis.len() - 1 ==> chars_order((#[trigger] apis[i]).ident@, apis[i + 1].ident@) < 0
    &&& forall|i: int, k: int| 0 <= i < apis.len() && 0 <= k < apis[i].by_version@.len() - 1 ==> semver_order(
        version_parts((#[trigger] apis[i].by_version@[k]).0),
        version_parts(apis[i].by_version@[k + 1].0),
    ) < 0
}

#[derive(Debug)]
pub struct Resolved {
    notes: Vec<Note>,
    general: Vec<GeneralProblem>,
    apis: Vec<ApiResolved>,
    nexpected_documents: usize,
}

/// The total number of versions listed.
pub open spec fn total_versions(apis: Seq<ApiVersions>) -> nat
    decreases apis.len(),
{
    if apis.len() == 0 {
        0
    } else {
        total_versions(apis.drop_last()) + apis.last().versions@.len()
    }
}

/// The resolution of version `v` of API `ident` (the first entries that
/// match).
pub open spec fn resolution_in(vs: Seq<(SemVersion, Resolution)>, v: SemVersion) -> Option<Resolution>
    decreases vs.len(),
{
    if vs.len() == 0 {
        None
    } else if same_version(vs[0].0, v) {
        Some(vs[0].1)
    } else {
        resolution_in(vs.drop_first(), v)
    }
}

/// The results of API `ident` (the first entry for it).
pub open spec fn api_in(apis: Seq<ApiResolved>, ident: Seq<char>) -> Option<ApiResolved>
    decreases apis.len(),
{
    if apis.len() == 0 {
        None
    } else if apis[0].ident@ == ident {
        Some(apis[0])
    } else {
        api_in(apis.drop_first(), ident)
    }
}

/// The summary of a general problem.
pub open spec fn general_summary(g: GeneralProblem) -> ProblemSummary {
    ProblemSummary { api_ident: g.api_ident, version: g.version, kind: kind_spec(g.problem) }
}

/// Summaries of the problems of version `v` of API `ident`.
pub open spec fn version_summaries(ident: ApiIdent, v: SemVersion, ps: Seq<Problem>) -> Seq<ProblemSummary> {
    ps.map_values(|p: Problem| ProblemSummary { api_ident: ident, version: Some(v), kind: kind_spec(p) })
}

/// Summaries of the problems of the versions of API `ident`, in order.
pub open spec fn versions_summaries(ident: ApiIdent, vs: Seq<(SemVersion, Resolution)>) -> Seq<
    ProblemSummary,
>
    decreases vs.len(),
{
    if vs.len() == 0 {
        seq![]
    } else {
        versions_summaries(ident, vs.drop_last()) + version_summaries(
            ident,
            vs.last().0,
            vs.last().1.problems_view(),
        )
    }
}

/// Summaries of the problems of APIs, each API's versions then its link.
pub open spec fn apis_summaries(apis: Seq<ApiResolved>) -> Seq<ProblemSummary>
    decreases apis.len(),
{
    if apis.len() == 0 {
        seq![]
    } else {
        let a = apis.last();
        apis_summaries(apis.drop_last()) + versions_summaries(a.ident, a.by_version@) + match a.symlink {
            Some(p) => seq![ProblemSummary { api_ident: a.ident, version: None, kind: kind_spec(p) }],
            None => seq![],
        }
    }
}

/// Some problem of an API (of a version or of its link) has no automatic
/// fix.
pub open spec fn api_has_unfixable(a: ApiResolved) -> bool {
    ||| (a.symlink is Some && unfixable_kind(kind_spec(a.symlink->0)))
    ||| exists|j: int|
        0 <= j < a.by_version@.len() && any_unfixable((#[trigger] a.by_version@[j]).1.problems_view())
}

impl Resolved {
    #[verifier::type_invariant]
    spec fn apis_ordered(self) -> bool {
        apis_in_order(self.apis@)
    }

    /// The notes.
    pub closed spec fn notes_view(&self) -> Seq<Note> {
        self.notes@
    }

    /// The problems not tied to a supported version.
    pub closed spec fn general_view(&self) -> Seq<GeneralProblem> {
        self.general@
    }

    /// The per-API results.
    pub closed spec fn apis_view(&self) -> Seq<ApiResolved> {
        self.apis@
    }

    /// The number of documents expected.
    pub closed spec fn nexpected_view(&self) -> nat {
        self.nexpected_documents as nat
    }

    /// Puts the results together: notes for blessed versions that are no
    /// longer supported; as general problems, local documents of versions
    /// no longer supported, then unparseable local files that no fix of a
    /// version problem overwrites; and the per-API results. One document is
    /// expected per supported version.
    pub fn new(
        supported: &Vec<ApiVersions>,
        blessed: &Vec<ApiVersions>,
        local: &Vec<LocalApiFiles>,
        unparseable: &Vec<UnparseableFile>,
        apis: Vec<ApiResolved>,
    ) -> (res: Self)
        requires
            orphans_versioned(supported@, local@),
            total_versions(supported@) <= usize::MAX,
            apis_match(supported@, apis@),
            apis_in_order(apis@),
        ensures
            res.notes_view() == removed_spec(supported@, blessed@),
            res.general_view() == orphans_spec(supported@, local@) + unparseable_spec(
                written_by_apis(apis@),
                unparseable@,
            ),
            res.apis_view() == apis@,
            apis_match(supported@, res.apis_view()),
            apis_in_order(res.apis_view()),
            res.nexpected_view() == total_versions(supported@),
    {
        let mut n: usize = 0;
        let mut i: usize = 0;
        while i < supported.len()
            invariant
                i <= supported@.len(),
                total_versions(supported@) <= usize::MAX,
                n == total_versions(supported@.subrange(0, i as int)),
            decreases supported@.len() - i,
        {
            proof {
                assert(supported@.subrange(0, i + 1).drop_last() =~= supported@.subrange(0, i as int));
                lemma_total_versions_prefix(supported@, i + 1);
            }
            n = n + supported[i].versions.len();
            i = i + 1;
        }
        proof {
            assert(supported@.subrange(0, supported@.len() as int) =~= supported@);
        }
        let notes = removed_blessed_versions(supported, blessed);
        let mut general = orphaned_local_specs(supported, local);
        let written = paths_written(&apis);
        let mut unparsed = unparseable_problems(&written, unparseable);
        general.append(&mut unparsed);
        Resolved { notes, general, apis, nexpected_documents: n }
    }

    /// The number of documents expected (one per supported version).
    pub fn nexpected_documents(&self) -> (res: usize)
        ensures
            res == self.nexpected_view(),
    {
        self.nexpected_documents
    }

    /// The notes.
    pub fn notes(&self) -> (res: &[Note])
        ensures
            res@ == self.notes_view(),
    {
        self.notes.as_slice()
    }

    /// The problems not tied to a supported version.
    pub fn general_problems(&self) -> (res: &[GeneralProblem])
        ensures
            res@ == self.general_view(),
    {
        self.general.as_slice()
    }

    /// The per-API results.
    pub fn api_results(&self) -> (res: &[ApiResolved])
        ensures
            res@ == self.apis_view(),
    {
        self.apis.as_slice()
    }

    fn find_api(&self, ident: &ApiIdent) -> (res: Option<&ApiResolved>)
        ensures
            match res {
                Some(a) => api_in(self.apis_view(), ident@) == Some(*a),
                None => api_in(self.apis_view(), ident@) is None,
            },
    {
        let apis = &self.apis;
        let mut i: usize = 0;
        assert(apis@.subrange(0, apis@.len() as int) =~= apis@);
        while i < apis.len()
            invariant
                i <= apis@.len(),
                apis@ == self.apis_view(),
                api_in(apis@, ident@) == api_in(apis@.subrange(i as int, apis@.len() as int), ident@),
            decreases apis@.len() - i,
        {
            let rest = Ghost(apis@.subrange(i as int, apis@.len() as int));
            assert(rest@[0] == apis@[i as int]);
            if apis[i].ident.same_as(ident) {
                return Some(&apis[i]);
            }
            assert(rest@.drop_first() =~= apis@.subrange(i + 1, apis@.len() as int));
            i = i + 1;
        }
        None
    }

    /// The resolution of version `version` of API `ident`, if it was
    /// resolved.
    pub fn resolution_for_api_version(&self, ident: &ApiIdent, version: &SemVersion) -> (res: Option<
        &Resolution,
    >)
        ensures
            match api_in(self.apis_view(), ident@) {
                Some(a) => match res {
                    Some(r) => resolution_in(a.by_version@, *version) == Some(*r),
                    None => resolution_in(a.by_version@, *version) is None,
                },
                None => res is None,
            },
    {
        match self.find_api(ident) {
            None => None,
            Some(a) => {
                let vs = &a.by_version;
                let mut i: usize = 0;
                assert(vs@.subrange(0, vs@.len() as int) =~= vs@);
                while i < vs.len()
                    invariant
                        i <= vs@.len(),
                        vs@ == a.by_version@,
                        api_in(self.apis_view(), ident@) == Some(*a),
                        resolution_in(vs@, *version) == resolution_in(
                            vs@.subrange(i as int, vs@.len() as int),
                            *version,
                        ),
                    decreases vs@.len() - i,
                {
                    let rest = Ghost(vs@.subrange(i as int, vs@.len() as int));
                    assert(rest@[0] == vs@[i as int]);
                    if vs[i].0.same_as(version) {
                        return Some(&vs[i].1);
                    }
                    assert(rest@.drop_first() =~= vs@.subrange(i + 1, vs@.len() as int));
                    i = i + 1;
                }
                None
            },
        }
    }

    /// The problem with the "latest" link of API `ident`, if any.
    pub fn symlink_problem(&self, ident: &ApiIdent) -> (res: Option<&Problem>)
        ensures
            match api_in(self.apis_view(), ident@) {
                Some(a) => match a.symlink {
                    Some(p) => res == Some(&p),
                    None => res is None,
                },
                None => res is None,
            },
    {
        match self.find_api(ident) {
            None => None,
            Some(a) => match &a.symlink {
                Some(p) => Some(p),
                None => None,
            },
        }
    }

    /// True when some problem anywhere has no automatic fix.
    pub fn has_unfixable_problems(&self) -> (res: bool)
        ensures
            res == ((exists|i: int|
                0 <= i < self.general_view().len() && unfixable_kind(
                    kind_spec((#[trigger] self.general_view()[i]).problem),
                )) || (exists|i: int|
                0 <= i < self.apis_view().len() && api_has_unfixable(#[trigger] self.apis_view()[i]))),
    {
        let mut i: usize = 0;
        while i < self.general.len()
            invariant
                i <= self.general@.len(),
                forall|j: int|
                    0 <= j < i ==> !unfixable_kind(kind_spec((#[trigger] self.general@[j]).problem)),
            decreases self.general@.len() - i,
        {
            if !self.general[i].problem.is_fixable() {
                assert(unfixable_kind(kind_spec(self.general_view()[i as int].problem)));
                return true;
            }
            i = i + 1;
        }
        let mut k: usize = 0;
        while k < self.apis.len()
            invariant
                k <= self.apis@.len(),
                forall|j: int| 0 <= j < self.general@.len() ==> !unfixable_kind(
                    kind_spec((#[trigger] self.general@[j]).problem),
                ),
                forall|j: int| 0 <= j < k ==> !api_has_unfixable(#[trigger] self.apis@[j]),
            decreases self.apis@.len() - k,
        {
            let a = &self.apis[k];
            match &a.symlink {
                Some(p) => {
                    if !p.is_fixable() {
                        assert(api_has_unfixable(self.apis_view()[k as int]));
                        return true;
                    }
                },
                None => {},
            }
            let mut j: usize = 0;
            while j < a.by_version.len()
                invariant
                    j <= a.by_version@.len(),
                    k < self.apis@.len(),
                    *a == self.apis@[k as int],
                    forall|m: int|
                        0 <= m < j ==> !any_unfixable((#[trigger] a.by_version@[m]).1.problems_view()),
                decreases a.by_version@.len() - j,
            {
                if a.by_version[j].1.has_errors() {
                    assert(any_unfixable(a.by_version@[j as int].1.problems_view()));
                    assert(api_has_unfixable(self.apis_view()[k as int]));
                    return true;
                }
                j = j + 1;
            }
            k = k + 1;
        }
        false
    }

    /// Summaries of all problems: the general problems first, then for each
    /// API the problems of each version, then its link's problem.
    pub fn problem_summaries(&self) -> (res: Vec<ProblemSummary>)
        ensures
            res@ == self.general_view().map_values(|g: GeneralProblem| general_summary(g))
                + apis_summaries(self.apis_view()),
            apis_in_order(self.apis_view()),
    {
        let mut out: Vec<ProblemSummary> = Vec::new();
        let mut i: usize = 0;
        while i < self.general.len()
            invariant
                i <= self.general@.len(),
                out@ == self.general@.subrange(0, i as int).map_values(
                    |g: GeneralProblem| general_summary(g),
                ),
            decreases self.general@.len() - i,
        {
            let g = &self.general[i];
            out.push(
                ProblemSummary {
                    api_ident: g.api_ident.duplicate(),
                    version: match &g.version {
                        Some(v) => Some(v.duplicate()),
                        None => None,
                    },
                    kind: g.problem.kind(),
                },
            );
            i = i + 1;
            assert(out@ =~= self.general@.subrange(0, i as int).map_values(
                |g: GeneralProblem| general_summary(g),
            ));
        }
        assert(self.general@.subrange(0, self.general@.len() as int) =~= self.general@);
        let ghost base = out@;
        let mut k: usize = 0;
        while k < self.apis.len()
            invariant
                k <= self.apis@.len(),
                out@ == base + apis_summaries(self.apis@.subrange(0, k as int)),
            decreases self.apis@.len() - k,
        {
            let a = &self.apis[k];
            let ghost base2 = out@;
            let mut j: usize = 0;
            while j < a.by_version.len()
                invariant
                    j <= a.by_version@.len(),
                    out@ == base2 + versions_summaries(a.ident, a.by_version@.subrange(0, j as int)),
                decreases a.by_version@.len() - j,
            {
                let ghost base3 = out@;
                let v = &a.by_version[j].0;
                let ps = a.by_version[j].1.problems();
                let mut m: usize = 0;
                while m < ps.len()
                    invariant
                        m <= ps@.len(),
                        out@ == base3 + version_summaries(a.ident, *v, ps@.subrange(0, m as int)),
                    decreases ps@.len() - m,
                {
                    out.push(
                        ProblemSummary {
                            api_ident: a.ident.duplicate(),
                            version: Some(v.duplicate()),
                            kind: ps[m].kind(),
                        },
                    );
                    m = m + 1;
                    assert(out@ =~= base3 + version_summaries(a.ident, *v, ps@.subrange(0, m as int)));
                }
                assert(ps@.subrange(0, ps@.len() as int) =~= ps@);
                assert(a.by_version@.subrange(0, j + 1).drop_last() =~= a.by_version@.subrange(
                    0,
                    j as int,
                ));
                j = j + 1;
            }
            assert(a.by_version@.subrange(0, a.by_version@.len() as int) =~= a.by_version@);
            match &a.symlink {
                Some(p) => {
                    out.push(ProblemSummary { api_ident: a.ident.duplicate(), version: None, kind: p.kind() });
                },
                None => {},
            }
            assert(self.apis@.subrange(0, k + 1).drop_last() =~= self.apis@.subrange(0, k as int));
            k = k + 1;
        }
        assert(self.apis@.subrange(0, self.apis@.len() as int) =~= self.apis@);
        proof {
            use_type_invariant(self);
        }
        out
    }
}

proof fn lemma_total_versions_prefix(apis: Seq<ApiVersions>, i: int)
    requires
        0 <= i <= apis.len(),
    ensures
        total_versions(apis.subrange(0, i)) <= total_versions(apis),
    decreases apis.len(),
{
    if i < apis.len() {
        assert(apis.drop_last().subrange(0, i) =~= apis.subrange(0, i));
        lemma_total_versions_prefix(apis.drop_last(), i);
    } else {
        assert(apis.subrange(0, i) =~= apis);
    }
}

} // verus!
