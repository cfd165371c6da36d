//! What the `generate` command does with a resolution: it stops with
//! failures when some problem has no automatic fix; otherwise it goes
//! through the APIs in order, reporting each version as unchanged or
//! applying the fixes of its problems, then the API's "latest" link, and
//! finally the fixes of the problems not tied to a version. Applying the
//! fixes is I/O; the plan and the counts of what came of it are here.

use vstd::prelude::*;
use crate::names::{ApiIdent, SemVersion};
use crate::overview::{api_has_unfixable, ApiResolved, GeneralProblem, Resolved};
use crate::problems::{fix_spec, unfixable_kind, kind_spec, Fix, Problem};
use crate::resolve::ResolutionKind;
use crate::summary::GenerateResult;

verus! {

/// One step of generation.
#[derive(Debug)]
pub enum GenerateAction {
    /// A version with no problems: reported unchanged.
    Unchanged { ident: ApiIdent, version: SemVersion },
    /// A version with problems: these fixes, one per problem, are applied.
    Update { ident: ApiIdent, version: SemVersion, fixes: Vec<Fix> },
    /// The "latest" link of an API is fixed by this fix.
    UpdateLink { ident: ApiIdent, fix: Fix },
    /// The "latest" link of a versioned API is fine: reported unchanged.
    LinkUnchanged { ident: ApiIdent },
    /// A problem not tied to a version is fixed by this fix.
    OtherFix { fix: Fix },
}

/// An API is versioned: its versions are not resolved as lockstep.
pub open spec fn api_versioned(a: ApiResolved) -> bool {
    exists|j: int| 0 <= j < a.by_version@.len() && (#[trigger] a.by_version@[j]).1.kind_view() != ResolutionKind::Lockstep
}

/// The steps of the versions `0..n` of API `i`, as (0, API, version).
pub open spec fn version_slots(i: int, n: int) -> Seq<(u8, int, int)>
    decreases n,
{
    if n <= 0 {
        seq![]
    } else {
        version_slots(i, n - 1).push((0u8, i, n - 1))
    }
}

/// The step of the "latest" link of API `i`: a fix (1) when it has a
/// problem, reported unchanged (2) when the API is versioned, none
/// otherwise.
pub open spec fn link_slots(a: ApiResolved, i: int) -> Seq<(u8, int, int)> {
    if a.symlink is Some {
        seq![(1u8, i, 0int)]
    } else if api_versioned(a) {
        seq![(2u8, i, 0int)]
    } else {
        seq![]
    }
}

/// The steps of the first `n` APIs, in order.
pub open spec fn api_slots(apis: Seq<ApiResolved>, n: int) -> Seq<(u8, int, int)>
    decreases n,
{
    if n <= 0 {
        seq![]
    } else {
        api_slots(apis, n - 1) + version_slots(n - 1, apis[n - 1].by_version@.len() as int) + link_slots(
            apis[n - 1],
            n - 1,
        )
    }
}

/// The steps of the first `n` problems not tied to a version, as (3, problem).
pub open spec fn other_slots(n: int) -> Seq<(u8, int, int)>
    decreases n,
{
    if n <= 0 {
        seq![]
    } else {
        other_slots(n - 1).push((3u8, n - 1, 0int))
    }
}

/// `fixes` are the fixes of `problems`, one for each, in order.
pub open spec fn fixes_of(fixes: Seq<Fix>, problems: Seq<Problem>) -> bool {
    &&& fixes.len() == problems.len()
    &&& forall|k: int| 0 <= k < problems.len() ==> fix_spec(#[trigger] problems[k], Some(fixes[k]))
}

/// `a` is the step described by `slot`.
pub open spec fn action_is(a: GenerateAction, slot: (u8, int, int), apis: Seq<ApiResolved>, general: Seq<GeneralProblem>) -> bool {
    let (tag, i, j) = slot;
    if tag == 0 {
        let (v, r) = apis[i].by_version@[j];
        if r.problems_view().len() == 0 {
            a == GenerateAction::Unchanged { ident: apis[i].ident, version: v }
        } else {
            &&& a is Update
            &&& a->Update_ident == apis[i].ident
            &&& a->Update_version == v
            &&& fixes_of(a->Update_fixes@, r.problems_view())
        }
    } else if tag == 1 {
        &&& a is UpdateLink
        &&& a->UpdateLink_ident == apis[i].ident
        &&& fix_spec(apis[i].symlink->0, Some(a->UpdateLink_fix))
    } else if tag == 2 {
        a == GenerateAction::LinkUnchanged { ident: apis[i].ident }
    } else {
        a is OtherFix && fix_spec(general[i].problem, Some(a->OtherFix_fix))
    }
}

/// The steps follow `slots`, one each.
pub open spec fn actions_follow(
    actions: Seq<GenerateAction>,
    slots: Seq<(u8, int, int)>,
    apis: Seq<ApiResolved>,
    general: Seq<GeneralProblem>,
) -> bool {
    &&& actions.len() == slots.len()
    &&& forall|t: int| 0 <= t < slots.len() ==> action_is(#[trigger] actions[t], slots[t], apis, general)
}

/// Some problem of the resolution has no automatic fix.
pub open spec fn resolution_unfixable(apis: Seq<ApiResolved>, general: Seq<GeneralProblem>) -> bool {
    (exists|i: int| 0 <= i < general.len() && unfixable_kind(kind_spec((#[trigger] general[i]).problem)))
        || (exists|i: int| 0 <= i < apis.len() && api_has_unfixable(#[trigger] apis[i]))
}

/// True when the API is versioned (see `api_versioned`).
pub fn is_versioned_api(a: &ApiResolved) -> (res: bool)
    ensures
        res == api_versioned(*a),
{
    let mut j: usize = 0;
    while j < a.by_version.len()
        invariant
            j <= a.by_version@.len(),
            forall|t: int| 0 <= t < j ==> (#[trigger] a.by_version@[t]).1.kind_view() == ResolutionKind::Lockstep,
        decreases a.by_version@.len() - j,
    {
        match a.by_version[j].1.kind() {
            ResolutionKind::Lockstep => {},
            _ => {
                return true;
            },
        }
        j = j + 1;
    }
    false
}

fn fixes_for(problems: &[Problem]) -> (res: Vec<Fix>)
    requires
        forall|k: int| 0 <= k < problems@.len() ==> !unfixable_kind(kind_spec(#[trigger] problems@[k])),
    ensures
        fixes_of(res@, problems@),
{
    let mut out: Vec<Fix> = Vec::new();
    let mut k: usize = 0;
    while k < problems.len()
        invariant
            k <= problems@.len(),
            forall|t: int| 0 <= t < problems@.len() ==> !unfixable_kind(kind_spec(#[trigger] problems@[t])),
            fixes_of(out@, problems@.subrange(0, k as int)),
        decreases problems@.len() - k,
    {
        let p = &problems[k];
        proof {
            assert(!unfixable_kind(kind_spec(problems@[k as int])));
        }
        let fixable = p.is_fixable();
        let f = p.fix();
        match f {
            Some(fx) => {
                let ghost o0 = out@;
                out.push(fx);
                proof {
                    let sub = problems@.subrange(0, k + 1);
                    assert forall|t: int| 0 <= t < sub.len() implies fix_spec(#[trigger] sub[t], Some(out@[t])) by {
                        if t < k {
                            assert(sub[t] == problems@.subrange(0, k as int)[t]);
                        }
                    }
                }
            },
            None => {
                proof {
                    let w = choose|w: Fix| fix_spec(*p, Some(w));
                    assert(fix_spec(*p, None::<Fix>));
                }
                assert(false);
            },
        }
        k = k + 1;
    }
    proof {
        assert(problems@.subrange(0, problems@.len() as int) =~= problems@);
    }
    out
}

proof fn lemma_follow_push(
    actions: Seq<GenerateAction>,
    slots: Seq<(u8, int, int)>,
    a: GenerateAction,
    s: (u8, int, int),
    apis: Seq<ApiResolved>,
    general: Seq<GeneralProblem>,
)
    requires
        actions_follow(actions, slots, apis, general),
        action_is(a, s, apis, general),
    ensures
        actions_follow(actions.push(a), slots.push(s), apis, general),
{
    let na = actions.push(a);
    let ns = slots.push(s);
    assert forall|t: int| 0 <= t < ns.len() implies action_is(#[trigger] na[t], ns[t], apis, general) by {
        if t < slots.len() {
            assert(na[t] == actions[t] && ns[t] == slots[t]);
        }
    }
}

/// The plan of generation: failures when some problem has no automatic fix;
/// otherwise one step per slot of `api_slots` then `other_slots` (see
/// `action_is`), in order of the APIs and their versions.
pub fn generate_plan(resolved: &Resolved) -> (res: Result<Vec<GenerateAction>, GenerateResult>)
    ensures
        res is Err <==> resolution_unfixable(resolved.apis_view(), resolved.general_view()),
        res matches Err(r) ==> r == GenerateResult::Failures,
        res matches Ok(actions) ==> actions_follow(
            actions@,
            api_slots(resolved.apis_view(), resolved.apis_view().len() as int) + other_slots(
                resolved.general_view().len() as int,
            ),
            resolved.apis_view(),
            resolved.general_view(),
        ),
{
    if resolved.has_unfixable_problems() {
        return Err(GenerateResult::Failures);
    }
    let apis = resolved.api_results();
    let general = resolved.general_problems();
    let ghost av = apis@;
    let ghost gv = general@;
    let mut out: Vec<GenerateAction> = Vec::new();
    let mut i: usize = 0;
    while i < apis.len()
        invariant
            i <= av.len(),
            av == apis@,
            gv == general@,
            forall|m: int| 0 <= m < av.len() ==> !api_has_unfixable(#[trigger] av[m]),
            actions_follow(out@, api_slots(av, i as int), av, gv),
        decreases av.len() - i,
    {
        let a = &apis[i];
        proof {
            assert(!api_has_unfixable(av[i as int]));
        }
        let mut j: usize = 0;
        while j < a.by_version.len()
            invariant
                i < av.len(),
                *a == av[i as int],
                j <= a.by_version@.len(),
                !api_has_unfixable(*a),
                actions_follow(out@, api_slots(av, i as int) + version_slots(i as int, j as int), av, gv),
            decreases a.by_version@.len() - j,
        {
            let (v, r) = &a.by_version[j];
            let ps = r.problems();
            let ghost o0 = out@;
            let ghost s0 = api_slots(av, i as int) + version_slots(i as int, j as int);
            proof {
                assert(a.by_version@[j as int] == (*v, *r));
            }
            if ps.len() == 0 {
                let act = GenerateAction::Unchanged { ident: a.ident.duplicate(), version: v.duplicate() };
                proof {
                    lemma_follow_push(o0, s0, act, (0u8, i as int, j as int), av, gv);
                }
                out.push(act);
            } else {
                proof {
                    assert forall|k: int| 0 <= k < ps@.len() implies !unfixable_kind(kind_spec(#[trigger] ps@[k])) by {
                        if unfixable_kind(kind_spec(ps@[k])) {
                            assert(crate::resolve::any_unfixable(a.by_version@[j as int].1.problems_view()));
                        }
                    }
                }
                let fixes = fixes_for(ps);
                let act = GenerateAction::Update { ident: a.ident.duplicate(), version: v.duplicate(), fixes };
                proof {
                    lemma_follow_push(o0, s0, act, (0u8, i as int, j as int), av, gv);
                }
                out.push(act);
            }
            proof {
                assert(version_slots(i as int, j + 1) == version_slots(i as int, j as int).push((0u8, i as int, j as int)));
                assert(s0.push((0u8, i as int, j as int)) =~= api_slots(av, i as int) + version_slots(i as int, j + 1));
            }
            j = j + 1;
        }
        let ghost o1 = out@;
        let ghost s1 = api_slots(av, i as int) + version_slots(i as int, a.by_version@.len() as int);
        match &a.symlink {
            Some(p) => {
                let fixable = p.is_fixable();
                let f = p.fix();
                match f {
                    Some(fix) => {
                        let act = GenerateAction::UpdateLink { ident: a.ident.duplicate(), fix };
                        proof {
                            lemma_follow_push(o1, s1, act, (1u8, i as int, 0int), av, gv);
                            assert(s1.push((1u8, i as int, 0int)) =~= s1 + link_slots(*a, i as int));
                        }
                        out.push(act);
                    },
                    None => {
                        proof {
                            let w = choose|w: Fix| fix_spec(*p, Some(w));
                        }
                        assert(false);
                    },
                }
            },
            None => {
                if is_versioned_api(a) {
                    let act = GenerateAction::LinkUnchanged { ident: a.ident.duplicate() };
                    proof {
                        lemma_follow_push(o1, s1, act, (2u8, i as int, 0int), av, gv);
                        assert(s1.push((2u8, i as int, 0int)) =~= s1 + link_slots(*a, i as int));
                    }
                    out.push(act);
                } else {
                    proof {
                        assert(s1 =~= s1 + link_slots(*a, i as int));
                    }
                }
            },
        }
        proof {
            assert(api_slots(av, i + 1) == s1 + link_slots(av[i as int], i as int));
        }
        i = i + 1;
    }
    let ghost s2 = api_slots(av, av.len() as int);
    proof {
        assert(s2 + other_slots(0) =~= s2);
    }
    let mut k: usize = 0;
    while k < general.len()
        invariant
            k <= gv.len(),
            gv == general@,
            forall|m: int| 0 <= m < gv.len() ==> !unfixable_kind(kind_spec((#[trigger] gv[m]).problem)),
            actions_follow(out@, s2 + other_slots(k as int), av, gv),
        decreases gv.len() - k,
    {
        let p = &general[k].problem;
        proof {
            assert(!unfixable_kind(kind_spec(gv[k as int].problem)));
        }
        let fixable = p.is_fixable();
        match p.fix() {
            Some(fix) => {
                let act = GenerateAction::OtherFix { fix };
                proof {
                    lemma_follow_push(out@, s2 + other_slots(k as int), act, (3u8, k as int, 0int), av, gv);
                    assert((s2 + other_slots(k as int)).push((3u8, k as int, 0int)) =~= s2 + other_slots(k + 1));
                }
                out.push(act);
            },
            None => {
                proof {
                    let w = choose|w: Fix| fix_spec(*p, Some(w));
                }
                assert(false);
            },
        }
        k = k + 1;
    }
    Ok(out)
}

/// The number of versions the plan reports unchanged.
pub open spec fn plan_unchanged(actions: Seq<GenerateAction>) -> nat
    decreases actions.len(),
{
    if actions.len() == 0 {
        0
    } else {
        plan_unchanged(actions.drop_last()) + if actions.last() is Unchanged {
            1nat
        } else {
            0nat
        }
    }
}

/// The number of `true` (or of `false`) entries.
pub open spec fn count_bool(v: Seq<bool>, b: bool) -> nat
    decreases v.len(),
{
    if v.len() == 0 {
        0
    } else {
        count_bool(v.drop_last(), b) + if v.last() == b {
            1nat
        } else {
            0nat
        }
    }
}

/// What came of generation.
#[derive(Debug, Clone, Copy, PartialEq, Eq, Structural)]
pub struct GenerateCounts {
    /// Fixes applied.
    pub updated: usize,
    /// Versions reported unchanged.
    pub unchanged: usize,
    /// Fixes that failed.
    pub errors: usize,
}

/// Counts what came of a plan: the versions it reports unchanged, and, of
/// the outcomes of its fixes in `fix_ok` (`true` when the fix was applied),
/// those applied and those that failed.
pub fn count_outcomes(actions: &Vec<GenerateAction>, fix_ok: &Vec<bool>) -> (res: GenerateCounts)
    ensures
        res.unchanged == plan_unchanged(actions@),
        res.updated == count_bool(fix_ok@, true),
        res.errors == count_bool(fix_ok@, false),
{
    let mut unchanged: usize = 0;
    let mut i: usize = 0;
    while i < actions.len()
        invariant
            i <= actions@.len(),
            unchanged == plan_unchanged(actions@.subrange(0, i as int)),
            unchanged <= i,
        decreases actions@.len() - i,
    {
        proof {
            assert(actions@.subrange(0, i + 1).drop_last() =~= actions@.subrange(0, i as int));
        }
        match &actions[i] {
            GenerateAction::Unchanged { .. } => unchanged = unchanged + 1,
            _ => {},
        }
        i = i + 1;
    }
    let mut updated: usize = 0;
    let mut errors: usize = 0;
    let mut k: usize = 0;
    while k < fix_ok.len()
        invariant
            k <= fix_ok@.len(),
            updated == count_bool(fix_ok@.subrange(0, k as int), true),
            errors == count_bool(fix_ok@.subrange(0, k as int), false),
            updated + errors == k,
        decreases fix_ok@.len() - k,
    {
        proof {
            assert(fix_ok@.subrange(0, k + 1).drop_last() =~= fix_ok@.subrange(0, k as int));
        }
        if fix_ok[k] {
            updated = updated + 1;
        } else {
            errors = errors + 1;
        }
        k = k + 1;
    }
    proof {
        assert(actions@.subrange(0, actions@.len() as int) =~= actions@);
        assert(fix_ok@.subrange(0, fix_ok@.len() as int) =~= fix_ok@);
    }
    GenerateCounts { updated, unchanged, errors }
}

} // verus!
