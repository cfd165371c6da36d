//! What the `diff` command shows for one version of an API, given which of
//! the local and blessed documents exist and how their contents compare.

use vstd::prelude::*;
use crate::names::SemVersion;
use crate::text::bytes_eq;

verus! {

/// What to show for one version.
#[derive(Debug, Clone, Copy, PartialEq, Eq, Structural)]
pub enum DiffAction {
    /// Nothing: the contents are the same.
    Nothing,
    /// A version added locally, diffed against the previous blessed version.
    AddedSincePrevious,
    /// A version added locally with no earlier blessed version: the whole
    /// document, diffed against nothing.
    AddedWhole,
    /// A blessed version removed locally: the whole document, diffed to
    /// nothing.
    Removed,
    /// A blessed version whose local document differs.
    Modified,
}

/// What to show for one version. `local` and `blessed` tell which
/// documents exist (at least one does); `same_as_blessed` compares their
/// contents when both do; `previous_blessed` tells whether a blessed version
/// earlier than this one exists, and `same_as_previous` compares the local
/// contents with its contents.
pub open spec fn diff_action_spec(
    local: bool,
    blessed: bool,
    same_as_blessed: bool,
    previous_blessed: bool,
    same_as_previous: bool,
) -> DiffAction {
    if local && !blessed {
        if previous_blessed {
            if same_as_previous {
                DiffAction::Nothing
            } else {
                DiffAction::AddedSincePrevious
            }
        } else {
            DiffAction::AddedWhole
        }
    } else if blessed && !local {
        DiffAction::Removed
    } else if same_as_blessed {
        DiffAction::Nothing
    } else {
        DiffAction::Modified
    }
}

/// What to show for one version (see `diff_action_spec`).
pub fn diff_action(
    local: bool,
    blessed: bool,
    same_as_blessed: bool,
    previous_blessed: bool,
    same_as_previous: bool,
) -> (res: DiffAction)
    requires
        local || blessed,
    ensures
        res == diff_action_spec(local, blessed, same_as_blessed, previous_blessed, same_as_previous),
{
    if local && !blessed {
        if previous_blessed {
            if same_as_previous {
                DiffAction::Nothing
            } else {
                DiffAction::AddedSincePrevious
            }
        } else {
            DiffAction::AddedWhole
        }
    } else if blessed && !local {
        DiffAction::Removed
    } else if same_as_blessed {
        DiffAction::Nothing
    } else {
        DiffAction::Modified
    }
}

/// The heading word of an action that shows something, with the remark
/// after it: `added (new locally)`, `removed (removed locally)`, `modified`.
pub open spec fn action_words(a: DiffAction) -> (Seq<char>, Seq<char>) {
    match a {
        DiffAction::AddedSincePrevious | DiffAction::AddedWhole => ("added"@, " (new locally)"@),
        DiffAction::Removed => ("removed"@, " (removed locally)"@),
        DiffAction::Modified => ("modified"@, ""@),
        DiffAction::Nothing => (""@, ""@),
    }
}

impl DiffAction {
    /// The heading word and remark (see `action_words`).
    pub fn words(&self) -> (res: (&'static str, &'static str))
        ensures
            res.0@ == action_words(*self).0,
            res.1@ == action_words(*self).1,
    {
        match self {
            DiffAction::AddedSincePrevious | DiffAction::AddedWhole => ("added", " (new locally)"),
            DiffAction::Removed => ("removed", " (removed locally)"),
            DiffAction::Modified => ("modified", ""),
            DiffAction::Nothing => ("", ""),
        }
    }
}

/// The five parts of a version.
pub open spec fn version_parts(v: SemVersion) -> (u64, u64, u64, Seq<char>, Seq<char>) {
    (v.major, v.minor, v.patch, v.pre@, v.build@)
}

/// How `semver::Version`'s `Ord` orders two versions: -1, 0 or 1 as the
/// first is before, equal to or after the second.
pub uninterp spec fn semver_order(a: (u64, u64, u64, Seq<char>, Seq<char>), b: (u64, u64, u64, Seq<char>, Seq<char>)) -> i8;

/// Orders two versions with `semver::Version`'s `Ord` (the versions are
/// rebuilt part by part; a pre-release or build text that `semver` does not
/// accept is taken as empty).
///
/// Trusted: the result is `semver_order` of the two versions, -1, 0 or 1;
/// as `Ord` requires, swapping the versions negates it. How `semver` orders
/// pre-releases is not restated.
#[verifier::external_body]
fn version_order_call(a: &SemVersion, b: &SemVersion) -> (res: i8)
    ensures
        res == semver_order(version_parts(*a), version_parts(*b)),
        -1 <= res <= 1,
        res + semver_order(version_parts(*b), version_parts(*a)) == 0,
{
    let v = |s: &SemVersion| semver::Version {
        major: s.major,
        minor: s.minor,
        patch: s.patch,
        pre: semver::Prerelease::new(&s.pre).unwrap_or(semver::Prerelease::EMPTY),
        build: semver::BuildMetadata::new(&s.build).unwrap_or(semver::BuildMetadata::EMPTY),
    };
    match v(a).cmp(&v(b)) {
        std::cmp::Ordering::Less => -1,
        std::cmp::Ordering::Equal => 0,
        std::cmp::Ordering::Greater => 1,
    }
}

/// The versions of a list of documents.
pub open spec fn doc_versions(docs: Seq<(SemVersion, Vec<u8>)>) -> Seq<(u64, u64, u64, Seq<char>, Seq<char>)> {
    docs.map_values(|d: (SemVersion, Vec<u8>)| version_parts(d.0))
}

/// Each version is before the next (as the keys of a sorted map).
pub open spec fn ascending(vs: Seq<(u64, u64, u64, Seq<char>, Seq<char>)>) -> bool {
    forall|i: int| 0 <= i < vs.len() - 1 ==> semver_order(#[trigger] vs[i], vs[i + 1]) < 0
}

/// One version shown by the `diff` command: the indices of its local and
/// blessed documents (at least one), for a version added locally the index
/// of the blessed version just before it, if any, and what to show.
#[derive(Debug, Clone, Copy, PartialEq, Eq)]
pub struct DiffStep {
    /// Index of the local document, if the version has one.
    pub local: Option<usize>,
    /// Index of the blessed document, if the version has one.
    pub blessed: Option<usize>,
    /// For a version only local: index of the previous blessed version.
    pub previous: Option<usize>,
    /// What to show.
    pub action: DiffAction,
}

/// Abstract value of a step.
pub open spec fn step_view(s: DiffStep) -> (Option<int>, Option<int>, Option<int>) {
    (opt_int(s.local), opt_int(s.blessed), opt_int(s.previous))
}

/// An optional index as an integer.
pub open spec fn opt_int(o: Option<usize>) -> Option<int> {
    match o {
        Some(i) => Some(i as int),
        None => None,
    }
}

/// The versions of both lists, merged in ascending order from positions
/// `i` and `j` on: (local index, blessed index, previous blessed index for
/// a version only local).
pub open spec fn merge_spec(
    l: Seq<(u64, u64, u64, Seq<char>, Seq<char>)>,
    b: Seq<(u64, u64, u64, Seq<char>, Seq<char>)>,
    i: int,
    j: int,
) -> Seq<(Option<int>, Option<int>, Option<int>)>
    decreases l.len() - i + b.len() - j,
{
    if i < 0 || j < 0 || i > l.len() || j > b.len() || (i == l.len() && j == b.len()) {
        seq![]
    } else if i >= l.len() || (j < b.len() && semver_order(l[i], b[j]) > 0) {
        seq![(None, Some(j), None)] + merge_spec(l, b, i, j + 1)
    } else if j >= b.len() || semver_order(l[i], b[j]) < 0 {
        seq![(Some(i), None, if j > 0 { Some(j - 1) } else { None })] + merge_spec(l, b, i + 1, j)
    } else {
        seq![(Some(i), Some(j), None)] + merge_spec(l, b, i + 1, j + 1)
    }
}

/// The action of a merged version, from the contents of its documents.
pub open spec fn step_action(
    m: (Option<int>, Option<int>, Option<int>),
    local: Seq<(SemVersion, Vec<u8>)>,
    blessed: Seq<(SemVersion, Vec<u8>)>,
) -> DiffAction {
    let (li, bi, pi) = m;
    diff_action_spec(
        li is Some,
        bi is Some,
        li is Some && bi is Some && local[li->0].1@ == blessed[bi->0].1@,
        pi is Some,
        li is Some && pi is Some && local[li->0].1@ == blessed[pi->0].1@,
    )
}

/// What a step shows, stated from the contents of its documents: a version
/// with both documents is `Modified` exactly when they differ and `Nothing`
/// exactly when they are equal; a version only local is `AddedWhole` when no
/// blessed version comes before it, else `AddedSincePrevious` exactly when it
/// differs from that blessed version and `Nothing` exactly when it equals
/// it; a version only blessed is `Removed`. Every index is in range.
pub open spec fn shows_contents(
    s: DiffStep,
    local: Seq<(SemVersion, Vec<u8>)>,
    blessed: Seq<(SemVersion, Vec<u8>)>,
) -> bool {
    match (s.local, s.blessed) {
        (Some(li), Some(bi)) => {
            &&& li < local.len()
            &&& bi < blessed.len()
            &&& (s.action == DiffAction::Modified <==> local[li as int].1@ != blessed[bi as int].1@)
            &&& (s.action == DiffAction::Nothing <==> local[li as int].1@ == blessed[bi as int].1@)
        },
        (Some(li), None) => {
            &&& li < local.len()
            &&& match s.previous {
                Some(pi) => {
                    &&& pi < blessed.len()
                    &&& (s.action == DiffAction::AddedSincePrevious <==> local[li as int].1@ != blessed[pi as int].1@)
                    &&& (s.action == DiffAction::Nothing <==> local[li as int].1@ == blessed[pi as int].1@)
                },
                None => s.action == DiffAction::AddedWhole,
            }
        },
        (None, Some(bi)) => bi < blessed.len() && s.action == DiffAction::Removed,
        (None, None) => false,
    }
}

/// A step whose action is the one `diff_plan` gives shows what the contents
/// say: a locally edited blessed version is `Modified`, never `Nothing`; an
/// unchanged one is `Nothing`; a version added locally is compared with the
/// blessed version before it, or shown whole; a version removed locally is
/// `Removed`.
pub proof fn law_diff_step_follows_contents(
    s: DiffStep,
    local: Seq<(SemVersion, Vec<u8>)>,
    blessed: Seq<(SemVersion, Vec<u8>)>,
)
    requires
        s.local is Some || s.blessed is Some,
        s.local is Some ==> s.local->0 < local.len(),
        s.blessed is Some ==> s.blessed->0 < blessed.len(),
        s.local is Some && s.blessed is None && s.previous is Some ==> s.previous->0 < blessed.len(),
        s.action == step_action(step_view(s), local, blessed),
    ensures
        shows_contents(s, local, blessed),
{
}

/// The `diff` command's steps for one API: every version of the local and
/// the blessed documents once, in ascending order (see `merge_spec`), each
/// with what to show (`Nothing` for identical documents). A version only
/// local is compared with the blessed version just before it.
pub fn diff_plan(local: &Vec<(SemVersion, Vec<u8>)>, blessed: &Vec<(SemVersion, Vec<u8>)>) -> (res: Vec<DiffStep>)
    requires
        ascending(doc_versions(local@)),
        ascending(doc_versions(blessed@)),
    ensures
        res@.map_values(|s: DiffStep| step_view(s)) == merge_spec(doc_versions(local@), doc_versions(blessed@), 0, 0),
        forall|k: int| 0 <= k < res@.len() ==> (#[trigger] res@[k]).action == step_action(step_view(res@[k]), local@, blessed@),
        forall|k: int| 0 <= k < res@.len() ==> shows_contents(#[trigger] res@[k], local@, blessed@),
{
    let ghost lv = doc_versions(local@);
    let ghost bv = doc_versions(blessed@);
    let mut out: Vec<DiffStep> = Vec::new();
    let mut i: usize = 0;
    let mut j: usize = 0;
    while i < local.len() || j < blessed.len()
        invariant
            i <= local@.len(),
            j <= blessed@.len(),
            lv == doc_versions(local@),
            bv == doc_versions(blessed@),
            out@.map_values(|s: DiffStep| step_view(s)) + merge_spec(lv, bv, i as int, j as int) == merge_spec(lv, bv, 0, 0),
            forall|k: int| 0 <= k < out@.len() ==> (#[trigger] out@[k]).action == step_action(step_view(out@[k]), local@, blessed@),
            forall|k: int| 0 <= k < out@.len() ==> shows_contents(#[trigger] out@[k], local@, blessed@),
        decreases local@.len() - i + blessed@.len() - j,
    {
        let ghost o0 = out@;
        let ghost rest = merge_spec(lv, bv, i as int, j as int);
        let o: i8 = if i < local.len() && j < blessed.len() {
            version_order_call(&local[i].0, &blessed[j].0)
        } else {
            0
        };
        proof {
            if i < local.len() {
                assert(lv[i as int] == version_parts(local@[i as int].0));
            }
            if j < blessed.len() {
                assert(bv[j as int] == version_parts(blessed@[j as int].0));
            }
        }
        let step = if i >= local.len() || (j < blessed.len() && o > 0) {
            let s = DiffStep { local: None, blessed: Some(j), previous: None, action: DiffAction::Removed };
            j = j + 1;
            s
        } else if j >= blessed.len() || o < 0 {
            let previous = if j > 0 { Some(j - 1) } else { None };
            let action = match previous {
                Some(p) => if bytes_eq(local[i].1.as_slice(), blessed[p].1.as_slice()) {
                    DiffAction::Nothing
                } else {
                    DiffAction::AddedSincePrevious
                },
                None => DiffAction::AddedWhole,
            };
            let s = DiffStep { local: Some(i), blessed: None, previous, action };
            i = i + 1;
            s
        } else {
            let action = if bytes_eq(local[i].1.as_slice(), blessed[j].1.as_slice()) {
                DiffAction::Nothing
            } else {
                DiffAction::Modified
            };
            let s = DiffStep { local: Some(i), blessed: Some(j), previous: None, action };
            i = i + 1;
            j = j + 1;
            s
        };
        proof {
            assert(rest == seq![step_view(step)] + merge_spec(lv, bv, i as int, j as int));
        }
        out.push(step);
        proof {
            assert(out@.map_values(|s: DiffStep| step_view(s)) =~= o0.map_values(|s: DiffStep| step_view(s)).push(step_view(step)));
            assert(out@.map_values(|s: DiffStep| step_view(s)) + merge_spec(lv, bv, i as int, j as int) =~= o0.map_values(
                |s: DiffStep| step_view(s),
            ) + rest);
        }
    }
    proof {
        assert(merge_spec(lv, bv, i as int, j as int) =~= Seq::<(Option<int>, Option<int>, Option<int>)>::empty());
        assert(out@.map_values(|s: DiffStep| step_view(s)) + merge_spec(lv, bv, i as int, j as int) =~= out@.map_values(|s: DiffStep| step_view(s)));
    }
    out
}

} // verus!
