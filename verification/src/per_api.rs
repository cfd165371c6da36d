//! Resolution of all supported versions of one versioned API, and of its
//! "latest" link.

use vstd::prelude::*;
use crate::detect::{api_compatible, compat_spec, report_view, RawChange};
use crate::names::{same_version, ApiIdent, SemVersion, VersionedApiSpecFileName};
use crate::overview::{
    apis_in_order, apis_match, has_version, is_orphaned, orphans_spec, orphans_versioned, versions_of, removed_spec, total_versions, unparseable_spec,
    written_by_apis, ApiResolved, ApiVersions, LocalApiFiles, Resolved, UnparseableFile,
};
use crate::diffing::{semver_order, version_parts};
use crate::tree::chars_order;
use crate::problems::{CommitHash, GitStubRef, Problem};
use crate::resolve::{
    all_versioned, blessed_version_spec, generated_source_missing, hashes_agree_with_contents,
    latest_link_problem, latest_link_spec, local_version_spec, lockstep_spec, resolve_api_lockstep, resolve_api_version_blessed,
    resolve_api_version_local, BlessedApiSpecFile, BlessedVersionOptions, CompatOutcome,
    GeneratedApiSpecFile, LatestFirstCommit, LocalApiSpecFile, Resolution, ResolutionKind,
    StubOutcome,
};

verus! {

impl LatestFirstCommit {
    /// A copy of this value.
    pub fn duplicate(&self) -> (res: Self)
        ensures
            res == *self,
    {
        match self {
            LatestFirstCommit::NotBlessed => LatestFirstCommit::NotBlessed,
            LatestFirstCommit::Blessed(c) => LatestFirstCommit::Blessed(c.duplicate()),
            LatestFirstCommit::BlessedError => LatestFirstCommit::BlessedError,
        }
    }
}

/// What is known of the latest version's first commit, and the error to
/// report when looking it up failed: nothing is looked up for a latest
/// version that is not blessed; a blessed one without git ref information
/// has an unknown first commit.
pub open spec fn latest_first_commit_spec(latest_is_blessed: bool, stub: StubOutcome) -> (
    LatestFirstCommit,
    Option<String>,
) {
    if !latest_is_blessed {
        (LatestFirstCommit::NotBlessed, None)
    } else {
        match stub {
            StubOutcome::NoStub => (LatestFirstCommit::BlessedError, None),
            StubOutcome::Stub(g) => (LatestFirstCommit::Blessed(g.commit), None),
            StubOutcome::Failed(e) => (LatestFirstCommit::BlessedError, Some(e)),
        }
    }
}

/// Determines what is known of the latest version's first commit from the
/// lookup of its git ref (see `latest_first_commit_spec`).
pub fn latest_first_commit(latest_is_blessed: bool, stub: StubOutcome) -> (res: (
    LatestFirstCommit,
    Option<String>,
))
    ensures
        res == latest_first_commit_spec(latest_is_blessed, stub),
{
    if !latest_is_blessed {
        (LatestFirstCommit::NotBlessed, None)
    } else {
        match stub {
            StubOutcome::NoStub => (LatestFirstCommit::BlessedError, None),
            StubOutcome::Stub(g) => (LatestFirstCommit::Blessed(g.commit), None),
            StubOutcome::Failed(e) => (LatestFirstCommit::BlessedError, Some(e)),
        }
    }
}

/// What is known of one supported version before it is resolved.
#[derive(Debug)]
pub enum VersionInputs {
    /// Its generated document is missing; `blessed` is its blessed document's
    /// name when it is blessed.
    GeneratedMissing { blessed: Option<VersionedApiSpecFileName> },
    /// It is blessed upstream.
    Blessed {
        validation: Vec<Problem>,
        compat: CompatOutcome,
        blessed: BlessedApiSpecFile,
        stub: StubOutcome,
        generated: GeneratedApiSpecFile,
        local: Vec<LocalApiSpecFile>,
    },
    /// It was added locally.
    Local { validation: Vec<Problem>, generated: GeneratedApiSpecFile, local: Vec<LocalApiSpecFile> },
}

impl VersionInputs {
    /// The inputs of a blessed version, with its blessed document compared
    /// to its generated one (see `compat_spec`); `report` is what the
    /// comparison reported for the two documents (see `api_compatible`).
    pub fn blessed(
        validation: Vec<Problem>,
        blessed: BlessedApiSpecFile,
        stub: StubOutcome,
        generated: GeneratedApiSpecFile,
        local: Vec<LocalApiSpecFile>,
        report: Result<Vec<RawChange>, String>,
    ) -> (res: Self)
        ensures
            res is Blessed,
            res->Blessed_validation == validation,
            res->Blessed_blessed == blessed,
            res->Blessed_stub == stub,
            res->Blessed_generated == generated,
            res->Blessed_local == local,
            compat_spec(res->Blessed_compat, blessed.contents_view(), generated.contents@, report_view(report)),
    {
        let compat = api_compatible(blessed.contents(), generated.contents.as_slice(), report);
        VersionInputs::Blessed { validation, compat, blessed, stub, generated, local }
    }
}

/// A supported version and what is known of it.
#[derive(Debug)]
pub struct VersionInput {
    /// The version.
    pub version: SemVersion,
    /// What is known of it.
    pub inputs: VersionInputs,
}

/// The inputs meet the requirements of the version resolvers.
pub open spec fn inputs_valid(i: VersionInputs) -> bool {
    match i {
        VersionInputs::GeneratedMissing { .. } => true,
        VersionInputs::Blessed { blessed, local, .. } => all_versioned(local@)
            && hashes_agree_with_contents(local@, blessed),
        VersionInputs::Local { local, .. } => all_versioned(local@),
    }
}

/// The name of the version's blessed document, when it is blessed.
pub open spec fn blessed_name_of(i: VersionInputs) -> Option<VersionedApiSpecFileName> {
    match i {
        VersionInputs::GeneratedMissing { blessed } => blessed,
        VersionInputs::Blessed { blessed, .. } => Some(blessed.name_view()),
        VersionInputs::Local { .. } => None,
    }
}

/// The kind of resolution a version gets.
pub open spec fn kind_of_inputs(i: VersionInputs) -> ResolutionKind {
    if blessed_name_of(i) is Some {
        ResolutionKind::Blessed
    } else {
        ResolutionKind::NewLocally
    }
}

/// Settings of the API that shape each version's resolution.
#[derive(Debug)]
pub struct ApiSettings {
    /// Trivial changes to the latest blessed version are allowed.
    pub allows_trivial_changes_for_latest: bool,
    /// Blessed non-latest versions may be stored as git refs.
    pub use_git_stub_storage: bool,
}

/// The options for resolving a blessed version.
pub open spec fn options_for(settings: ApiSettings, is_latest: bool, latest: LatestFirstCommit) -> BlessedVersionOptions {
    BlessedVersionOptions {
        is_latest,
        allows_trivial_changes_for_latest: settings.allows_trivial_changes_for_latest,
        use_git_stub_storage: settings.use_git_stub_storage,
        latest_first_commit: latest,
    }
}

/// `r` is the resolution of a version with inputs `i`, followed by the
/// problems `extra`.
pub open spec fn version_resolved(
    r: Resolution,
    ident: ApiIdent,
    i: VersionInputs,
    opts: BlessedVersionOptions,
    extra: Seq<Problem>,
) -> bool {
    &&& r.kind_view() == kind_of_inputs(i)
    &&& match i {
        VersionInputs::GeneratedMissing { .. } => r.problems_view() == seq![
            Problem::GeneratedSourceMissing { api_ident: ident },
        ] + extra,
        VersionInputs::Blessed { validation, compat, blessed, stub, generated, local } =>
            r.problems_view() == blessed_version_spec(
            validation@,
            compat,
            opts,
            blessed,
            stub,
            generated,
            local@,
        ) + extra,
        VersionInputs::Local { validation, generated, local } => extra.len() == 0
            && local_version_spec(r.problems_view(), validation@, generated, local@),
    }
}

/// The problem added to the latest version when its first commit could not
/// be determined.
pub open spec fn latest_extra(i: VersionInputs, error: Option<String>) -> Seq<Problem> {
    match (blessed_name_of(i), error) {
        (Some(n), Some(e)) => seq![Problem::GitStubFirstCommitUnknown { spec_file_name: n, source: e }],
        _ => seq![],
    }
}

/// The index of the first input for version `v`.
pub open spec fn version_index(vs: Seq<VersionInput>, v: SemVersion) -> int
    decreases vs.len(),
{
    if vs.len() == 0 {
        -1
    } else if same_version(vs[0].version, v) {
        0
    } else {
        let k = version_index(vs.drop_first(), v);
        if k < 0 {
            -1
        } else {
            k + 1
        }
    }
}

proof fn lemma_version_index(vs: Seq<VersionInput>, v: SemVersion)
    ensures
        -1 <= version_index(vs, v) < vs.len(),
        version_index(vs, v) >= 0 ==> same_version(vs[version_index(vs, v)].version, v),
        forall|j: int| 0 <= j < version_index(vs, v) ==> !same_version(#[trigger] vs[j].version, v),
        version_index(vs, v) < 0 ==> forall|j: int| 0 <= j < vs.len() ==> !same_version(#[trigger] vs[j].version, v),
    decreases vs.len(),
{
    if vs.len() > 0 {
        lemma_version_index(vs.drop_first(), v);
        assert forall|j: int| 0 < j < vs.len() implies vs[j] == vs.drop_first()[j - 1] by {}
    }
}

/// The "latest" link's problem: the latest generated document `lg` and the
/// document the local link points at `ll`, judged against the resolution of
/// `lg`'s version.
pub open spec fn link_spec(ident: ApiIdent, vs: Seq<VersionInput>, lg: VersionedApiSpecFileName, ll: Option<VersionedApiSpecFileName>) -> Option<Problem> {
    let k = version_index(vs, lg.version_view());
    latest_link_spec(ident, lg, kind_of_inputs(vs[k].inputs), blessed_name_of(vs[k].inputs), ll)
}

/// Resolves every supported version of a versioned API, listed in version
/// order (the last is the latest): each version by the rules for blessed or
/// locally added versions (or as missing its generated document); the
/// latest version also reports a failed lookup of its first commit when it
/// is blessed. When the generated documents have a "latest" link, `link`
/// holds its target and the local link's target, and the link is checked
/// against the resolution of its version.
pub fn resolve_api_versioned(
    ident: &ApiIdent,
    settings: &ApiSettings,
    latest: &LatestFirstCommit,
    latest_error: Option<String>,
    versions: Vec<VersionInput>,
    link: Option<(VersionedApiSpecFileName, Option<VersionedApiSpecFileName>)>,
) -> (res: ApiResolved)
    requires
        forall|j: int| 0 <= j < versions@.len() ==> inputs_valid(#[trigger] versions@[j].inputs),
        link matches Some((lg, _)) ==> version_index(versions@, lg.version_view()) >= 0,
    ensures
        res.ident == *ident,
        res.by_version@.len() == versions@.len(),
        forall|j: int|
            0 <= j < versions@.len() ==> (#[trigger] res.by_version@[j]).0 == versions@[j].version
                && version_resolved(
                res.by_version@[j].1,
                *ident,
                versions@[j].inputs,
                options_for(*settings, j == versions@.len() - 1, *latest),
                if j == versions@.len() - 1 {
                    latest_extra(versions@[j].inputs, latest_error)
                } else {
                    seq![]
                },
            ),
        match link {
            Some((lg, ll)) => res.symlink == link_spec(*ident, versions@, lg, ll),
            None => res.symlink is None,
        },
{
    let ghost all = versions@;
    let n: usize = versions.len();
    let mut link_info: Option<(ResolutionKind, Option<VersionedApiSpecFileName>)> = None;
    let ghost link_v = link;
    let ghost link_index: int = match link_v {
        Some((lg, _)) => version_index(all, lg.version_view()),
        None => -1,
    };
    proof {
        match link_v {
            Some((lg, _)) => lemma_version_index(all, lg.version_view()),
            None => {},
        }
    }
    let mut by_version: Vec<(SemVersion, Resolution)> = Vec::new();
    let mut rest = versions;
    let mut k: usize = 0;
    while rest.len() > 0
        invariant
            k + rest@.len() == all.len(),
            all.len() == n,
            rest@ == all.subrange(k as int, all.len() as int),
            by_version@.len() == k,
            forall|j: int| 0 <= j < all.len() ==> inputs_valid(#[trigger] all[j].inputs),
            link is Some ==> 0 <= link_index < all.len(),
            link is Some ==> k <= link_index ==> link_info is None,
            link is Some ==> link_index < k ==> link_info == Some(
                (kind_of_inputs(all[link_index].inputs), blessed_name_of(all[link_index].inputs)),
            ),
            link matches Some((lg, _)) ==> forall|j: int|
                0 <= j < link_index ==> !same_version(#[trigger] all[j].version, lg.version_view()),
            link matches Some((lg, _)) ==> same_version(all[link_index].version, lg.version_view()),
            forall|j: int|
                0 <= j < k ==> (#[trigger] by_version@[j]).0 == all[j].version && version_resolved(
                    by_version@[j].1,
                    *ident,
                    all[j].inputs,
                    options_for(*settings, j == all.len() - 1, *latest),
                    if j == all.len() - 1 {
                        latest_extra(all[j].inputs, latest_error)
                    } else {
                        seq![]
                    },
                ),
        decreases rest@.len(),
    {
        let input = rest.remove(0);
        assert(input == all[k as int]);
        let is_latest = k + 1 == n;
        let opts = BlessedVersionOptions {
            is_latest,
            allows_trivial_changes_for_latest: settings.allows_trivial_changes_for_latest,
            use_git_stub_storage: settings.use_git_stub_storage,
            latest_first_commit: latest.duplicate(),
        };
        let VersionInput { version, inputs } = input;
        let blessed_name: Option<VersionedApiSpecFileName> = match &inputs {
            VersionInputs::GeneratedMissing { blessed } => match blessed {
                Some(b) => Some(b.duplicate()),
                None => None,
            },
            VersionInputs::Blessed { blessed, .. } => Some(blessed.versioned_spec_file_name().duplicate()),
            VersionInputs::Local { .. } => None,
        };
        let ghost inputs_v = inputs;
        let mut resolution = match inputs {
            VersionInputs::GeneratedMissing { blessed } => {
                let kind = if blessed.is_some() {
                    ResolutionKind::Blessed
                } else {
                    ResolutionKind::NewLocally
                };
                generated_source_missing(ident, kind)
            },
            VersionInputs::Blessed { validation, compat, blessed, stub, generated, local } => {
                resolve_api_version_blessed(validation, compat, &opts, &blessed, stub, &generated, &local)
            },
            VersionInputs::Local { validation, generated, local } => {
                resolve_api_version_local(validation, &generated, &local)
            },
        };
        let ghost before = resolution.problems_view();
        if is_latest {
            match (&blessed_name, &latest_error) {
                (Some(b), Some(e)) => {
                    resolution.add_problem(
                        Problem::GitStubFirstCommitUnknown { spec_file_name: b.duplicate(), source: e.clone() },
                    );
                },
                _ => {},
            }
        }
        let kind = resolution.kind();
        assert(kind == kind_of_inputs(inputs_v));
        proof {
            assert(blessed_name == blessed_name_of(inputs_v));
            let extra = if is_latest {
                latest_extra(inputs_v, latest_error)
            } else {
                seq![]
            };
            assert(resolution.problems_view() == before + extra);
            match inputs_v {
                VersionInputs::Local { validation, generated, local } => {
                    assert(extra.len() == 0);
                    assert(resolution.problems_view() =~= before);
                },
                _ => {},
            }
        }
        if link_info.is_none() {
            match &link {
                Some((lg, _)) => {
                    if version.same_as(lg.version()) {
                        link_info = Some((kind, blessed_name));
                    }
                },
                None => {},
            }
        }
        by_version.push((version, resolution));
        k = k + 1;
        proof {
            assert(rest@ =~= all.subrange(k as int, all.len() as int));
        }
    }
    let symlink = match link {
        Some((lg, ll)) => {
            match link_info {
                Some((kind, blessed_link)) => {
                    latest_link_problem(
                        ident,
                        &lg,
                        kind,
                        match &blessed_link {
                            Some(b) => Some(b),
                            None => None,
                        },
                        match &ll {
                            Some(l) => Some(l),
                            None => None,
                        },
                    )
                },
                None => vstd::pervasive::unreached(),
            }
        },
        None => None,
    };
    ApiResolved { ident: ident.duplicate(), by_version, symlink }
}

/// `res` is what `resolve_api_versioned` gives for these inputs.
pub open spec fn versioned_resolved(
    res: ApiResolved,
    ident: ApiIdent,
    settings: ApiSettings,
    latest: LatestFirstCommit,
    latest_error: Option<String>,
    versions: Seq<VersionInput>,
    link: Option<(VersionedApiSpecFileName, Option<VersionedApiSpecFileName>)>,
) -> bool {
    &&& res.ident == ident
    &&& res.by_version@.len() == versions.len()
    &&& forall|j: int|
        0 <= j < versions.len() ==> (#[trigger] res.by_version@[j]).0 == versions[j].version && version_resolved(
            res.by_version@[j].1,
            ident,
            versions[j].inputs,
            options_for(settings, j == versions.len() - 1, latest),
            if j == versions.len() - 1 {
                latest_extra(versions[j].inputs, latest_error)
            } else {
                seq![]
            },
        )
    &&& match link {
        Some((lg, ll)) => res.symlink == link_spec(ident, versions, lg, ll),
        None => res.symlink is None,
    }
}

/// What is known of one managed API before it is resolved.
#[derive(Debug)]
pub enum ApiInputs {
    /// A lockstep API: its one version, the problems found validating its
    /// generated document, the generated document if there is one, and its
    /// local document if there is one.
    Lockstep {
        ident: ApiIdent,
        version: SemVersion,
        validation: Vec<Problem>,
        generated: Option<GeneratedApiSpecFile>,
        local: Vec<LocalApiSpecFile>,
    },
    /// A versioned API without any generated document: every version
    /// is missing its generated document.
    VersionedWithoutGenerated { ident: ApiIdent, versions: Vec<SemVersion> },
    /// A versioned API (see `resolve_api_versioned`).
    Versioned {
        ident: ApiIdent,
        settings: ApiSettings,
        latest: LatestFirstCommit,
        latest_error: Option<String>,
        versions: Vec<VersionInput>,
        link: Option<(VersionedApiSpecFileName, Option<VersionedApiSpecFileName>)>,
    },
}

/// The API of some inputs.
pub open spec fn input_ident(a: ApiInputs) -> ApiIdent {
    match a {
        ApiInputs::Lockstep { ident, .. } => ident,
        ApiInputs::VersionedWithoutGenerated { ident, .. } => ident,
        ApiInputs::Versioned { ident, .. } => ident,
    }
}

/// The supported versions of some inputs, in order.
pub open spec fn input_versions(a: ApiInputs) -> Seq<SemVersion> {
    match a {
        ApiInputs::Lockstep { version, .. } => seq![version],
        ApiInputs::VersionedWithoutGenerated { versions, .. } => versions@,
        ApiInputs::Versioned { versions, .. } => versions@.map_values(|vi: VersionInput| vi.version),
    }
}

/// The inputs meet the requirements of the API resolvers.
pub open spec fn api_inputs_valid(a: ApiInputs) -> bool {
    match a {
        ApiInputs::Lockstep { local, .. } => local@.len() <= 1,
        ApiInputs::VersionedWithoutGenerated { .. } => true,
        ApiInputs::Versioned { versions, link, .. } => (forall|j: int|
            0 <= j < versions@.len() ==> inputs_valid(#[trigger] versions@[j].inputs)) && (link matches Some((lg, _))
            ==> version_index(versions@, lg.version_view()) >= 0),
    }
}

/// The APIs are in ascending order of identifier and each API's versions in
/// ascending order (as the managed APIs and their versions are kept).
pub open spec fn inputs_in_order(inputs: Seq<ApiInputs>) -> bool {
    &&& forall|i: int| 0 <= i < inputs.len() - 1 ==> chars_order(input_ident(#[trigger] inputs[i])@, input_ident(inputs[i + 1])@) < 0
    &&& forall|i: int, k: int| 0 <= i < inputs.len() && 0 <= k < input_versions(inputs[i]).len() - 1 ==> semver_order(
        version_parts(#[trigger] input_versions(inputs[i])[k]),
        version_parts(input_versions(inputs[i])[k + 1]),
    ) < 0
}

/// `r` is the resolution of the API with inputs `a`: a lockstep API has its
/// one version resolved as lockstep (missing its generated document, or by
/// `lockstep_spec`) and no link; a versioned API without generated
/// documents has every version newly added locally and missing its
/// generated document, and no link; another versioned API is resolved by
/// `resolve_api_versioned`.
pub open spec fn api_resolved_from(r: ApiResolved, a: ApiInputs) -> bool {
    match a {
        ApiInputs::Lockstep { ident, version, validation, generated, local } => {
            &&& r.ident == ident
            &&& r.by_version@.len() == 1
            &&& r.by_version@[0].0 == version
            &&& r.symlink is None
            &&& r.by_version@[0].1.kind_view() == ResolutionKind::Lockstep
            &&& r.by_version@[0].1.problems_view() == match generated {
                None => seq![Problem::GeneratedSourceMissing { api_ident: ident }],
                Some(g) => lockstep_spec(validation@, g, local@),
            }
        },
        ApiInputs::VersionedWithoutGenerated { ident, versions } => {
            &&& r.ident == ident
            &&& r.symlink is None
            &&& r.by_version@.len() == versions@.len()
            &&& forall|k: int| 0 <= k < versions@.len() ==> {
                &&& (#[trigger] r.by_version@[k]).0 == versions@[k]
                &&& r.by_version@[k].1.kind_view() == ResolutionKind::NewLocally
                &&& r.by_version@[k].1.problems_view() == seq![Problem::GeneratedSourceMissing { api_ident: ident }]
            }
        },
        ApiInputs::Versioned { ident, settings, latest, latest_error, versions, link } => versioned_resolved(
            r,
            ident,
            settings,
            latest,
            latest_error,
            versions@,
            link,
        ),
    }
}

/// The supported versions of all APIs.
pub open spec fn supported_of(inputs: Seq<ApiInputs>) -> Seq<(ApiIdent, Seq<SemVersion>)> {
    inputs.map_values(|a: ApiInputs| (input_ident(a), input_versions(a)))
}

/// The supported versions, as a list of APIs.
pub open spec fn versions_view(v: Seq<ApiVersions>) -> Seq<(ApiIdent, Seq<SemVersion>)> {
    v.map_values(|a: ApiVersions| (a.ident, a.versions@))
}

fn supported_versions(a: &ApiInputs) -> (res: ApiVersions)
    ensures
        res.ident == input_ident(*a),
        res.versions@ == input_versions(*a),
{
    match a {
        ApiInputs::Lockstep { ident, version, .. } => {
            let mut versions: Vec<SemVersion> = Vec::new();
            versions.push(version.duplicate());
            assert(versions@ =~= seq![*version]);
            ApiVersions { ident: ident.duplicate(), versions }
        },
        ApiInputs::VersionedWithoutGenerated { ident, versions: vs } => {
            let mut versions: Vec<SemVersion> = Vec::new();
            let mut j: usize = 0;
            while j < vs.len()
                invariant
                    j <= vs@.len(),
                    versions@ == vs@.subrange(0, j as int),
                decreases vs@.len() - j,
            {
                versions.push(vs[j].duplicate());
                assert(vs@.subrange(0, j + 1) =~= vs@.subrange(0, j as int).push(vs@[j as int]));
                j = j + 1;
            }
            assert(vs@.subrange(0, vs@.len() as int) =~= vs@);
            ApiVersions { ident: ident.duplicate(), versions }
        },
        ApiInputs::Versioned { ident, versions: vs, .. } => {
            let mut versions: Vec<SemVersion> = Vec::new();
            let mut j: usize = 0;
            while j < vs.len()
                invariant
                    j <= vs@.len(),
                    versions@ == vs@.subrange(0, j as int).map_values(|vi: VersionInput| vi.version),
                decreases vs@.len() - j,
            {
                versions.push(vs[j].version.duplicate());
                assert(vs@.subrange(0, j + 1).map_values(|vi: VersionInput| vi.version) =~= vs@.subrange(0, j as int).map_values(
                    |vi: VersionInput| vi.version,
                ).push(vs@[j as int].version));
                j = j + 1;
            }
            assert(vs@.subrange(0, vs@.len() as int) =~= vs@);
            ApiVersions { ident: ident.duplicate(), versions }
        },
    }
}

fn resolve_one(a: ApiInputs) -> (res: ApiResolved)
    requires
        api_inputs_valid(a),
    ensures
        api_resolved_from(res, a),
{
    match a {
        ApiInputs::Lockstep { ident, version, validation, generated, local } => {
            let r = match &generated {
                None => generated_source_missing(&ident, ResolutionKind::Lockstep),
                Some(g) => resolve_api_lockstep(validation, g, &local),
            };
            let mut by_version: Vec<(SemVersion, Resolution)> = Vec::new();
            by_version.push((version, r));
            ApiResolved { ident, by_version, symlink: None }
        },
        ApiInputs::VersionedWithoutGenerated { ident, versions } => {
            let mut by_version: Vec<(SemVersion, Resolution)> = Vec::new();
            let mut k: usize = 0;
            while k < versions.len()
                invariant
                    k <= versions@.len(),
                    by_version@.len() == k,
                    forall|t: int| 0 <= t < k ==> {
                        &&& (#[trigger] by_version@[t]).0 == versions@[t]
                        &&& by_version@[t].1.kind_view() == ResolutionKind::NewLocally
                        &&& by_version@[t].1.problems_view() == seq![Problem::GeneratedSourceMissing { api_ident: ident }]
                    },
                decreases versions@.len() - k,
            {
                let r = generated_source_missing(&ident, ResolutionKind::NewLocally);
                by_version.push((versions[k].duplicate(), r));
                k = k + 1;
            }
            ApiResolved { ident, by_version, symlink: None }
        },
        ApiInputs::Versioned { ident, settings, latest, latest_error, versions, link } => {
            resolve_api_versioned(&ident, &settings, &latest, latest_error, versions, link)
        },
    }
}

/// Resolves every managed API (see `api_resolved_from`) and puts the
/// results together with `Resolved::new`, the supported versions being
/// those of the inputs.
pub fn resolve_apis(
    inputs: Vec<ApiInputs>,
    blessed: &Vec<ApiVersions>,
    local: &Vec<LocalApiFiles>,
    unparseable: &Vec<UnparseableFile>,
) -> (res: Resolved)
    requires
        forall|i: int| 0 <= i < inputs@.len() ==> api_inputs_valid(#[trigger] inputs@[i]),
        inputs_in_order(inputs@),
        inputs_orphans_versioned(inputs@, local@),
        total_versions_of(supported_of(inputs@)) <= usize::MAX,
    ensures
        res.apis_view().len() == inputs@.len(),
        forall|i: int| 0 <= i < inputs@.len() ==> api_resolved_from(#[trigger] res.apis_view()[i], inputs@[i]),
        exists|supported: Seq<ApiVersions>|
            versions_view(supported) == supported_of(inputs@) && res.notes_view() == removed_spec(supported, blessed@)
                && res.general_view() == orphans_spec(supported, local@) + unparseable_spec(
                written_by_apis(res.apis_view()),
                unparseable@,
            ) && res.nexpected_view() == total_versions(supported),
{
    let ghost all = inputs@;
    let n_inputs: usize = inputs.len();
    assert(all.len() == n_inputs);
    let mut supported: Vec<ApiVersions> = Vec::new();
    let mut apis: Vec<ApiResolved> = Vec::new();
    let mut rest = inputs;
    let mut i: usize = 0;
    while rest.len() > 0
        invariant
            i + rest@.len() == all.len(),
            all.len() <= usize::MAX,
            rest@ == all.subrange(i as int, all.len() as int),
            forall|t: int| 0 <= t < all.len() ==> api_inputs_valid(#[trigger] all[t]),
            supported@.len() == i,
            apis@.len() == i,
            forall|t: int| 0 <= t < i ==> api_resolved_from(#[trigger] apis@[t], all[t]),
            forall|t: int| 0 <= t < i ==> (#[trigger] supported@[t]).ident == input_ident(all[t]) && supported@[t].versions@ == input_versions(all[t]),
        decreases rest@.len(),
    {
        let a = rest.remove(0);
        proof {
            assert(a == all[i as int]);
        }
        supported.push(supported_versions(&a));
        apis.push(resolve_one(a));
        proof {
            assert(rest@ =~= all.subrange(i + 1, all.len() as int));
        }
        i = i + 1;
    }
    proof {
        lemma_apis_ok(supported@, apis@, all);
    }
    let ghost sv = supported@;
    proof {
        lemma_orphans_versioned(sv, all, local@);
    }
    let res = Resolved::new(&supported, blessed, local, unparseable, apis);
    proof {
        assert(versions_view(sv) == supported_of(all));
    }
    res
}

proof fn lemma_apis_ok(supported: Seq<ApiVersions>, apis: Seq<ApiResolved>, all: Seq<ApiInputs>)
    requires
        supported.len() == all.len(),
        apis.len() == all.len(),
        inputs_in_order(all),
        forall|t: int| 0 <= t < all.len() ==> api_resolved_from(#[trigger] apis[t], all[t]),
        forall|t: int| 0 <= t < all.len() ==> (#[trigger] supported[t]).ident == input_ident(all[t]) && supported[t].versions@ == input_versions(all[t]),
    ensures
        apis_match(supported, apis),
        apis_in_order(apis),
        versions_view(supported) == supported_of(all),
        total_versions(supported) == total_versions_of(supported_of(all)),
{
    assert(versions_view(supported) =~= supported_of(all));
    lemma_total_versions_of(supported);
    assert forall|t: int| 0 <= t < apis.len() implies {
        &&& (#[trigger] apis[t]).ident == supported[t].ident
        &&& apis[t].by_version@.len() == supported[t].versions@.len()
        &&& forall|k: int| 0 <= k < apis[t].by_version@.len() ==> (#[trigger] apis[t].by_version@[k]).0 == supported[t].versions@[k]
    } by {
        lemma_resolved_versions(apis[t], all[t]);
    }
    assert forall|t: int, k: int| 0 <= t < apis.len() && 0 <= k < apis[t].by_version@.len() - 1 implies semver_order(
        version_parts((#[trigger] apis[t].by_version@[k]).0),
        version_parts(apis[t].by_version@[k + 1].0),
    ) < 0 by {
        lemma_resolved_versions(apis[t], all[t]);
        assert(input_versions(all[t])[k] == apis[t].by_version@[k].0);
        assert(input_versions(all[t])[k + 1] == apis[t].by_version@[k + 1].0);
    }
    assert forall|t: int| 0 <= t < apis.len() - 1 implies chars_order((#[trigger] apis[t]).ident@, apis[t + 1].ident@) < 0 by {
        lemma_resolved_versions(apis[t], all[t]);
        lemma_resolved_versions(apis[t + 1], all[t + 1]);
    }
}

/// The supported versions listed for `ident` (the first entry for it).
pub open spec fn versions_in(s: Seq<(ApiIdent, Seq<SemVersion>)>, ident: Seq<char>) -> Option<Seq<SemVersion>>
    decreases s.len(),
{
    if s.len() == 0 {
        None
    } else if s[0].0@ == ident {
        Some(s[0].1)
    } else {
        versions_in(s.drop_first(), ident)
    }
}

/// Every local document of a version of a managed API that is no longer
/// supported has a versioned name.
pub open spec fn inputs_orphans_versioned(inputs: Seq<ApiInputs>, local: Seq<LocalApiFiles>) -> bool {
    forall|i: int, j: int, k: int|
        0 <= i < local.len() && 0 <= j < local[i].versions@.len() && 0 <= k < local[i].versions@[j].1@.len()
            && (match versions_in(supported_of(inputs), local[i].ident@) {
            Some(vs) => !has_version(vs, local[i].versions@[j].0),
            None => false,
        }) ==> (#[trigger] local[i].versions@[j].1@[k]) is Versioned
}

proof fn lemma_versions_in(s: Seq<ApiVersions>, ident: Seq<char>)
    ensures
        versions_of(s, ident) == versions_in(versions_view(s), ident),
    decreases s.len(),
{
    if s.len() > 0 {
        assert(versions_view(s.drop_first()) =~= versions_view(s).drop_first());
        lemma_versions_in(s.drop_first(), ident);
    }
}

proof fn lemma_orphans_versioned(sv: Seq<ApiVersions>, all: Seq<ApiInputs>, local: Seq<LocalApiFiles>)
    requires
        versions_view(sv) == supported_of(all),
        inputs_orphans_versioned(all, local),
    ensures
        orphans_versioned(sv, local),
{
    assert forall|i: int, j: int, k: int|
        0 <= i < local.len() && 0 <= j < local[i].versions@.len() && 0 <= k < local[i].versions@[j].1@.len()
            && is_orphaned(sv, local[i].ident@, local[i].versions@[j].0) implies (#[trigger] local[
            i
        ].versions@[j].1@[k]) is Versioned by {
        lemma_versions_in(sv, local[i].ident@);
    }
}

/// The total number of supported versions.
pub open spec fn total_versions_of(s: Seq<(ApiIdent, Seq<SemVersion>)>) -> nat
    decreases s.len(),
{
    if s.len() == 0 {
        0
    } else {
        total_versions_of(s.drop_last()) + s.last().1.len()
    }
}

proof fn lemma_total_versions_of(s: Seq<ApiVersions>)
    ensures
        total_versions(s) == total_versions_of(versions_view(s)),
    decreases s.len(),
{
    if s.len() > 0 {
        lemma_total_versions_of(s.drop_last());
        assert(versions_view(s.drop_last()) =~= versions_view(s).drop_last());
    }
}

proof fn lemma_resolved_versions(r: ApiResolved, a: ApiInputs)
    requires
        api_resolved_from(r, a),
    ensures
        r.ident == input_ident(a),
        r.by_version@.len() == input_versions(a).len(),
        forall|k: int| 0 <= k < r.by_version@.len() ==> (#[trigger] r.by_version@[k]).0 == input_versions(a)[k],
{
    match a {
        ApiInputs::Lockstep { .. } => {},
        ApiInputs::VersionedWithoutGenerated { .. } => {},
        ApiInputs::Versioned { versions, .. } => {
            assert forall|k: int| 0 <= k < r.by_version@.len() implies (#[trigger] r.by_version@[k]).0 == input_versions(a)[k] by {
                assert(r.by_version@[k].0 == versions@[k].version);
            }
        },
    }
}

} // verus!
