//! What a check over all managed APIs concludes: each expected document is
//! fresh, stale (fixable problems only) or failed (some problem needs a
//! person), and the run as a whole succeeds, needs an update, or fails.

use vstd::prelude::*;
use crate::problems::{kind_spec, unfixable_kind, Problem};
use crate::plural::{changes, documents, noun_for, problems};
use crate::resolve::{any_unfixable, Resolution};
use crate::overview::{ApiResolved, GeneralProblem, Resolved};
use crate::generate::api_versioned;
use crate::text::{decimal, push_decimal, push_str_chars, string_from_chars};

verus! {

/// Exit code of a check whose documents need to be regenerated.
pub const NEEDS_UPDATE_EXIT_CODE: u8 = 4;

/// Exit code of a check or generation that found problems needing a person.
pub const FAILURE_EXIT_CODE: u8 = 100;

/// The state of one checked item.
#[derive(Debug, Clone, Copy, PartialEq, Eq, Structural)]
pub enum ItemStatus {
    /// No problems.
    Fresh,
    /// Only problems with an automatic fix.
    Stale,
    /// At least one problem without an automatic fix.
    Failed,
}

/// The state of an item with the given problems.
pub open spec fn status_of(problems: Seq<Problem>) -> ItemStatus {
    if any_unfixable(problems) {
        ItemStatus::Failed
    } else if problems.len() > 0 {
        ItemStatus::Stale
    } else {
        ItemStatus::Fresh
    }
}

impl Resolution {
    /// The state of the document this resolution is about.
    pub fn status(&self) -> (res: ItemStatus)
        ensures
            res == status_of(self.problems_view()),
    {
        if self.has_errors() {
            ItemStatus::Failed
        } else if self.has_problems() {
            ItemStatus::Stale
        } else {
            ItemStatus::Fresh
        }
    }
}

/// The result of a check.
#[derive(Debug, Clone, Copy, PartialEq, Eq, Structural)]
pub enum CheckResult {
    /// The documents are up to date.
    Success,
    /// The documents need to be updated.
    NeedsUpdate,
    /// There were validation errors or other problems.
    Failures,
}

impl CheckResult {
    /// The process exit code for this result.
    pub fn to_exit_code(&self) -> (res: u8)
        ensures
            res == match *self {
                CheckResult::Success => 0u8,
                CheckResult::NeedsUpdate => NEEDS_UPDATE_EXIT_CODE,
                CheckResult::Failures => FAILURE_EXIT_CODE,
            },
    {
        match self {
            CheckResult::Success => 0,
            CheckResult::NeedsUpdate => NEEDS_UPDATE_EXIT_CODE,
            CheckResult::Failures => FAILURE_EXIT_CODE,
        }
    }
}

/// Counts gathered while checking.
#[derive(Debug, Clone, Copy, PartialEq, Eq, Structural)]
pub struct CheckTally {
    /// Items (documents and "latest" links) with no problems.
    pub fresh: usize,
    /// Documents with fixable problems only.
    pub stale: usize,
    /// Items with a problem that needs a person.
    pub failed: usize,
    /// Fixable problems not tied to a document: "latest" links and other
    /// problems.
    pub other: usize,
}

/// How many of the resolutions have the given state.
pub open spec fn count_status(rs: Seq<Resolution>, st: ItemStatus) -> nat
    decreases rs.len(),
{
    if rs.len() == 0 {
        0
    } else {
        count_status(rs.drop_last(), st) + if status_of(rs.last().problems_view()) == st {
            1nat
        } else {
            0nat
        }
    }
}

/// How many links are absent (`fixable` none), fixable or unfixable.
pub open spec fn count_links(links: Seq<Option<Problem>>, which: int) -> nat
    decreases links.len(),
{
    if links.len() == 0 {
        0
    } else {
        count_links(links.drop_last(), which) + if link_class(links.last()) == which {
            1nat
        } else {
            0nat
        }
    }
}

/// 0 for no problem, 1 for a fixable problem, 2 for an unfixable one.
pub open spec fn link_class(p: Option<Problem>) -> int {
    match p {
        None => 0,
        Some(q) => if unfixable_kind(kind_spec(q)) {
            2
        } else {
            1
        },
    }
}

/// How many of the problems are fixable (or not).
pub open spec fn count_fixable(ps: Seq<Problem>, fixable: bool) -> nat
    decreases ps.len(),
{
    if ps.len() == 0 {
        0
    } else {
        count_fixable(ps.drop_last(), fixable) + if unfixable_kind(kind_spec(ps.last())) != fixable {
            1nat
        } else {
            0nat
        }
    }
}

/// The tally of a check over the documents' resolutions, the "latest" links
/// of the versioned APIs, and the problems not tied to any document.
pub open spec fn tally_spec(
    rs: Seq<Resolution>,
    links: Seq<Option<Problem>>,
    others: Seq<Problem>,
) -> CheckTally {
    CheckTally {
        fresh: (count_status(rs, ItemStatus::Fresh) + count_links(links, 0)) as usize,
        stale: count_status(rs, ItemStatus::Stale) as usize,
        failed: (count_status(rs, ItemStatus::Failed) + count_links(links, 2) + count_fixable(
            others,
            false,
        )) as usize,
        other: (count_links(links, 1) + count_fixable(others, true)) as usize,
    }
}

/// The result that a tally leads to.
pub open spec fn result_spec(t: CheckTally) -> CheckResult {
    if t.failed > 0 {
        CheckResult::Failures
    } else if t.stale > 0 || t.other > 0 {
        CheckResult::NeedsUpdate
    } else {
        CheckResult::Success
    }
}

proof fn lemma_count_status_bound(rs: Seq<Resolution>, st: ItemStatus)
    ensures
        count_status(rs, st) <= rs.len(),
    decreases rs.len(),
{
    if rs.len() > 0 {
        lemma_count_status_bound(rs.drop_last(), st);
    }
}

proof fn lemma_count_links_bound(links: Seq<Option<Problem>>, which: int)
    ensures
        count_links(links, which) <= links.len(),
    decreases links.len(),
{
    if links.len() > 0 {
        lemma_count_links_bound(links.drop_last(), which);
    }
}

proof fn lemma_count_fixable_bound(ps: Seq<Problem>, fixable: bool)
    ensures
        count_fixable(ps, fixable) <= ps.len(),
    decreases ps.len(),
{
    if ps.len() > 0 {
        lemma_count_fixable_bound(ps.drop_last(), fixable);
    }
}

/// Tallies a check: each document's resolution counts as fresh, stale or
/// failed; each versioned API's "latest" link counts as fresh when it has
/// no problem, as another problem when its problem is fixable, and as
/// failed otherwise; each problem not tied to a document counts as failed
/// when unfixable and as another problem otherwise.
pub fn tally_check(rs: &Vec<Resolution>, links: &Vec<Option<Problem>>, others: &Vec<Problem>) -> (res:
    CheckTally)
    requires
        rs@.len() + links@.len() + others@.len() <= usize::MAX,
    ensures
        res == tally_spec(rs@, links@, others@),
{
    let mut fresh: usize = 0;
    let mut stale: usize = 0;
    let mut failed: usize = 0;
    let mut other: usize = 0;
    let mut i: usize = 0;
    while i < rs.len()
        invariant
            i <= rs@.len(),
            rs@.len() + links@.len() + others@.len() <= usize::MAX,
            fresh == count_status(rs@.subrange(0, i as int), ItemStatus::Fresh),
            stale == count_status(rs@.subrange(0, i as int), ItemStatus::Stale),
            failed == count_status(rs@.subrange(0, i as int), ItemStatus::Failed),
            fresh + stale + failed == i,
            other == 0,
        decreases rs@.len() - i,
    {
        proof {
            assert(rs@.subrange(0, i + 1).drop_last() =~= rs@.subrange(0, i as int));
        }
        match rs[i].status() {
            ItemStatus::Fresh => fresh = fresh + 1,
            ItemStatus::Stale => stale = stale + 1,
            ItemStatus::Failed => failed = failed + 1,
        }
        i = i + 1;
    }
    proof {
        assert(rs@.subrange(0, rs@.len() as int) =~= rs@);
    }
    let ghost f0 = fresh;
    let ghost x0 = failed;
    let mut j: usize = 0;
    while j < links.len()
        invariant
            j <= links@.len(),
            rs@.len() + links@.len() + others@.len() <= usize::MAX,
            fresh + stale + failed + other == rs@.len() + j,
            fresh == f0 + count_links(links@.subrange(0, j as int), 0),
            other == count_links(links@.subrange(0, j as int), 1),
            failed == x0 + count_links(links@.subrange(0, j as int), 2),
            stale == count_status(rs@, ItemStatus::Stale),
        decreases links@.len() - j,
    {
        proof {
            assert(links@.subrange(0, j + 1).drop_last() =~= links@.subrange(0, j as int));
        }
        match &links[j] {
            None => fresh = fresh + 1,
            Some(p) => {
                if p.is_fixable() {
                    other = other + 1;
                } else {
                    failed = failed + 1;
                }
            },
        }
        j = j + 1;
    }
    proof {
        assert(links@.subrange(0, links@.len() as int) =~= links@);
    }
    let ghost x1 = failed;
    let ghost o1 = other;
    let mut k: usize = 0;
    while k < others.len()
        invariant
            k <= others@.len(),
            rs@.len() + links@.len() + others@.len() <= usize::MAX,
            fresh + stale + failed + other == rs@.len() + links@.len() + k,
            failed == x1 + count_fixable(others@.subrange(0, k as int), false),
            other == o1 + count_fixable(others@.subrange(0, k as int), true),
        decreases others@.len() - k,
    {
        proof {
            assert(others@.subrange(0, k + 1).drop_last() =~= others@.subrange(0, k as int));
        }
        if others[k].is_fixable() {
            other = other + 1;
        } else {
            failed = failed + 1;
        }
        k = k + 1;
    }
    proof {
        assert(others@.subrange(0, others@.len() as int) =~= others@);
    }
    CheckTally { fresh, stale, failed, other }
}

/// The result of a check with this tally: failures when anything failed,
/// otherwise an update is needed when anything is stale or any other
/// problem was found, otherwise success.
pub fn check_result(t: &CheckTally) -> (res: CheckResult)
    ensures
        res == result_spec(*t),
{
    if t.failed > 0 {
        CheckResult::Failures
    } else if t.stale > 0 || t.other > 0 {
        CheckResult::NeedsUpdate
    } else {
        CheckResult::Success
    }
}

proof fn lemma_count_status_pos(rs: Seq<Resolution>, st: ItemStatus)
    ensures
        (count_status(rs, st) > 0) == (exists|i: int|
            0 <= i < rs.len() && status_of((#[trigger] rs[i]).problems_view()) == st),
    decreases rs.len(),
{
    if rs.len() > 0 {
        let t = rs.drop_last();
        lemma_count_status_pos(t, st);
        if exists|i: int| 0 <= i < rs.len() && status_of((#[trigger] rs[i]).problems_view()) == st {
            let i = choose|i: int| 0 <= i < rs.len() && status_of((#[trigger] rs[i]).problems_view()) == st;
            if i < rs.len() - 1 {
                assert(t[i] == rs[i]);
            }
        }
        if count_status(t, st) > 0 {
            let i = choose|i: int| 0 <= i < t.len() && status_of((#[trigger] t[i]).problems_view()) == st;
            assert(t[i] == rs[i]);
        }
        assert(rs[rs.len() - 1] == rs.last());
    }
}

proof fn lemma_count_links_pos(links: Seq<Option<Problem>>, which: int)
    ensures
        (count_links(links, which) > 0) == (exists|j: int|
            0 <= j < links.len() && link_class(#[trigger] links[j]) == which),
    decreases links.len(),
{
    if links.len() > 0 {
        let t = links.drop_last();
        lemma_count_links_pos(t, which);
        if exists|j: int| 0 <= j < links.len() && link_class(#[trigger] links[j]) == which {
            let j = choose|j: int| 0 <= j < links.len() && link_class(#[trigger] links[j]) == which;
            if j < links.len() - 1 {
                assert(t[j] == links[j]);
            }
        }
        if count_links(t, which) > 0 {
            let j = choose|j: int| 0 <= j < t.len() && link_class(#[trigger] t[j]) == which;
            assert(t[j] == links[j]);
        }
        assert(links[links.len() - 1] == links.last());
    }
}

proof fn lemma_count_fixable_pos(ps: Seq<Problem>, fixable: bool)
    ensures
        (count_fixable(ps, fixable) > 0) == (exists|k: int|
            0 <= k < ps.len() && unfixable_kind(kind_spec(#[trigger] ps[k])) != fixable),
    decreases ps.len(),
{
    if ps.len() > 0 {
        let t = ps.drop_last();
        lemma_count_fixable_pos(t, fixable);
        if exists|k: int| 0 <= k < ps.len() && unfixable_kind(kind_spec(#[trigger] ps[k])) != fixable {
            let k = choose|k: int| 0 <= k < ps.len() && unfixable_kind(kind_spec(#[trigger] ps[k])) != fixable;
            if k < ps.len() - 1 {
                assert(t[k] == ps[k]);
            }
        }
        if count_fixable(t, fixable) > 0 {
            let k = choose|k: int| 0 <= k < t.len() && unfixable_kind(kind_spec(#[trigger] t[k])) != fixable;
            assert(t[k] == ps[k]);
        }
        assert(ps[ps.len() - 1] == ps.last());
    }
}

/// A check succeeds exactly when no document, "latest" link or other item
/// has any problem, and fails exactly when some problem anywhere has no
/// automatic fix; in every other case the documents need an update.
pub proof fn law_check_result(rs: Seq<Resolution>, links: Seq<Option<Problem>>, others: Seq<Problem>)
    requires
        rs.len() + links.len() + others.len() <= usize::MAX,
    ensures
        (result_spec(tally_spec(rs, links, others)) == CheckResult::Success) == ((forall|i: int|
            0 <= i < rs.len() ==> (#[trigger] rs[i]).problems_view().len() == 0) && (forall|j: int|
            0 <= j < links.len() ==> (#[trigger] links[j]) is None) && others.len() == 0),
        (result_spec(tally_spec(rs, links, others)) == CheckResult::Failures) == ((exists|i: int|
            0 <= i < rs.len() && any_unfixable((#[trigger] rs[i]).problems_view())) || (exists|j: int|
            0 <= j < links.len() && (#[trigger] links[j]) is Some && unfixable_kind(
                kind_spec(links[j]->0),
            )) || any_unfixable(others)),
{
    lemma_count_status_bound(rs, ItemStatus::Fresh);
    lemma_count_status_bound(rs, ItemStatus::Stale);
    lemma_count_status_bound(rs, ItemStatus::Failed);
    lemma_count_links_bound(links, 0);
    lemma_count_links_bound(links, 1);
    lemma_count_links_bound(links, 2);
    lemma_count_fixable_bound(others, true);
    lemma_count_fixable_bound(others, false);
    lemma_count_status_pos(rs, ItemStatus::Stale);
    lemma_count_status_pos(rs, ItemStatus::Failed);
    lemma_count_links_pos(links, 1);
    lemma_count_links_pos(links, 2);
    lemma_count_fixable_pos(others, true);
    lemma_count_fixable_pos(others, false);
    assert forall|i: int| 0 <= i < rs.len() implies (status_of((#[trigger] rs[i]).problems_view())
        == ItemStatus::Fresh) == (rs[i].problems_view().len() == 0) by {
        if rs[i].problems_view().len() == 0 {
            assert(!any_unfixable(rs[i].problems_view()));
        }
    }
    assert forall|j: int| 0 <= j < links.len() implies (link_class(#[trigger] links[j]) == 2) == (
    links[j] is Some && unfixable_kind(kind_spec(links[j]->0))) by {}
    if others.len() > 0 {
        assert(unfixable_kind(kind_spec(others[0])) || !unfixable_kind(kind_spec(others[0])));
    }
    assert(any_unfixable(others) == (exists|k: int|
        0 <= k < others.len() && unfixable_kind(kind_spec(#[trigger] others[k])) != false));
}

/// The decimal text of a count.
pub open spec fn count_text(n: usize) -> Seq<char> {
    decimal(n as nat)
}

/// The line announcing a check: `{total} OpenAPI {documents}...`.
pub open spec fn check_header_spec(total: usize) -> Seq<char> {
    count_text(total) + " OpenAPI "@ + noun_for(total, "document"@, "documents"@) + "..."@
}

/// The line announcing a check (after its "Checking" header).
pub fn check_header_text(total: usize) -> (res: String)
    ensures
        res@ == check_header_spec(total),
{
    let mut out: Vec<char> = Vec::new();
    push_decimal(&mut out, total as u64);
    push_str_chars(&mut out, " OpenAPI ");
    push_str_chars(&mut out, documents(total));
    push_str_chars(&mut out, "...");
    assert(out@ =~= check_header_spec(total));
    string_from_chars(out.as_slice())
}

/// The summary of a check (after its status header): `{total}
/// {documents} checked: {fresh} fresh, {stale} stale, {failed} failed,
/// {other} other {problems}`.
pub open spec fn check_summary_spec(total: usize, t: CheckTally) -> Seq<char> {
    count_text(total) + " "@ + noun_for(total, "document"@, "documents"@) + " checked: "@
        + count_text(t.fresh) + " fresh, "@ + count_text(t.stale) + " stale, "@ + count_text(t.failed)
        + " failed, "@ + count_text(t.other) + " other "@ + noun_for(t.other, "problem"@, "problems"@)
}

/// The summary line of a check (see `check_summary_spec`).
pub fn check_summary_text(total: usize, t: &CheckTally) -> (res: String)
    ensures
        res@ == check_summary_spec(total, *t),
{
    let mut out: Vec<char> = Vec::new();
    push_decimal(&mut out, total as u64);
    push_str_chars(&mut out, " ");
    push_str_chars(&mut out, documents(total));
    push_str_chars(&mut out, " checked: ");
    push_decimal(&mut out, t.fresh as u64);
    push_str_chars(&mut out, " fresh, ");
    push_decimal(&mut out, t.stale as u64);
    push_str_chars(&mut out, " stale, ");
    push_decimal(&mut out, t.failed as u64);
    push_str_chars(&mut out, " failed, ");
    push_decimal(&mut out, t.other as u64);
    push_str_chars(&mut out, " other ");
    push_str_chars(&mut out, problems(t.other));
    assert(out@ =~= check_summary_spec(total, *t));
    string_from_chars(out.as_slice())
}

/// The result of generating documents.
#[derive(Debug, Clone, Copy, PartialEq, Eq, Structural)]
pub enum GenerateResult {
    /// Every document is up to date.
    Success,
    /// Some problem could not be fixed.
    Failures,
}

impl GenerateResult {
    /// The process exit code for this result.
    pub fn to_exit_code(&self) -> (res: u8)
        ensures
            res == match *self {
                GenerateResult::Success => 0u8,
                GenerateResult::Failures => FAILURE_EXIT_CODE,
            },
    {
        match self {
            GenerateResult::Success => 0,
            GenerateResult::Failures => FAILURE_EXIT_CODE,
        }
    }
}

/// What generation concludes after applying the fixes: failures if any fix
/// failed; otherwise it goes on to check the documents again (`None`).
pub fn generate_result_after_fixes(num_errors: usize) -> (res: Option<GenerateResult>)
    ensures
        res == if num_errors > 0 {
            Some(GenerateResult::Failures)
        } else {
            None::<GenerateResult>
        },
{
    if num_errors > 0 {
        Some(GenerateResult::Failures)
    } else {
        None
    }
}

/// What generation concludes from the second check: success when it found
/// no problem; otherwise `None`, since fixing everything and still finding
/// problems is a bug in this tool.
pub fn generate_result_after_recheck(nproblems: usize) -> (res: Option<GenerateResult>)
    ensures
        res == if nproblems == 0 {
            Some(GenerateResult::Success)
        } else {
            None::<GenerateResult>
        },
{
    if nproblems == 0 {
        Some(GenerateResult::Success)
    } else {
        None
    }
}

/// The final status of generation (after its status header):
/// `{n} {documents}: {updated} {changes} made, {unchanged} unchanged,
/// {errors} failed`.
pub open spec fn generate_status_spec(ndocuments: usize, updated: usize, unchanged: usize, errors: usize) -> Seq<char> {
    count_text(ndocuments) + " "@ + noun_for(ndocuments, "document"@, "documents"@) + ": "@
        + count_text(updated) + " "@ + noun_for(updated, "change"@, "changes"@) + " made, "@
        + count_text(unchanged) + " unchanged, "@ + count_text(errors) + " failed"@
}

/// The final status line of generation (see `generate_status_spec`).
pub fn generate_status_text(ndocuments: usize, updated: usize, unchanged: usize, errors: usize) -> (res:
    String)
    ensures
        res@ == generate_status_spec(ndocuments, updated, unchanged, errors),
{
    let mut out: Vec<char> = Vec::new();
    push_decimal(&mut out, ndocuments as u64);
    push_str_chars(&mut out, " ");
    push_str_chars(&mut out, documents(ndocuments));
    push_str_chars(&mut out, ": ");
    push_decimal(&mut out, updated as u64);
    push_str_chars(&mut out, " ");
    push_str_chars(&mut out, changes(updated));
    push_str_chars(&mut out, " made, ");
    push_decimal(&mut out, unchanged as u64);
    push_str_chars(&mut out, " unchanged, ");
    push_decimal(&mut out, errors as u64);
    push_str_chars(&mut out, " failed");
    assert(out@ =~= generate_status_spec(ndocuments, updated, unchanged, errors));
    string_from_chars(out.as_slice())
}

/// The resolutions of all versions of all APIs, in order.
pub open spec fn all_resolutions(apis: Seq<ApiResolved>) -> Seq<Resolution>
    decreases apis.len(),
{
    if apis.len() == 0 {
        seq![]
    } else {
        all_resolutions(apis.drop_last()) + apis.last().by_version@.map_values(|p: (crate::names::SemVersion, Resolution)| p.1)
    }
}

/// The "latest" link problems of the versioned APIs, in order (none for a
/// link that is fine).
pub open spec fn versioned_links(apis: Seq<ApiResolved>) -> Seq<Option<Problem>>
    decreases apis.len(),
{
    if apis.len() == 0 {
        seq![]
    } else {
        versioned_links(apis.drop_last()) + if api_versioned(apis.last()) {
            seq![apis.last().symlink]
        } else {
            seq![]
        }
    }
}

/// The problems not tied to a version.
pub open spec fn general_problems_of(general: Seq<GeneralProblem>) -> Seq<Problem> {
    general.map_values(|g: GeneralProblem| g.problem)
}

proof fn lemma_count_status_push(rs: Seq<Resolution>, r: Resolution, st: ItemStatus)
    ensures
        count_status(rs.push(r), st) == count_status(rs, st) + if status_of(r.problems_view()) == st {
            1nat
        } else {
            0nat
        },
{
    assert(rs.push(r).drop_last() =~= rs);
}

proof fn lemma_count_links_push(ls: Seq<Option<Problem>>, l: Option<Problem>, which: int)
    ensures
        count_links(ls.push(l), which) == count_links(ls, which) + if link_class(l) == which {
            1nat
        } else {
            0nat
        },
{
    assert(ls.push(l).drop_last() =~= ls);
}

proof fn lemma_count_fixable_push(ps: Seq<Problem>, p: Problem, fixable: bool)
    ensures
        count_fixable(ps.push(p), fixable) == count_fixable(ps, fixable) + if unfixable_kind(kind_spec(p)) != fixable {
            1nat
        } else {
            0nat
        },
{
    assert(ps.push(p).drop_last() =~= ps);
}

/// The tally of a check over a resolution: each version of each API, the
/// "latest" link of each versioned API, and each problem not tied to a
/// version (see `tally_spec`).
pub fn tally_resolved(resolved: &Resolved) -> (res: CheckTally)
    requires
        all_resolutions(resolved.apis_view()).len() + versioned_links(resolved.apis_view()).len()
            + resolved.general_view().len() <= usize::MAX,
    ensures
        res == tally_spec(
            all_resolutions(resolved.apis_view()),
            versioned_links(resolved.apis_view()),
            general_problems_of(resolved.general_view()),
        ),
{
    let apis = resolved.api_results();
    let general = resolved.general_problems();
    let ghost av = apis@;
    let ghost total = all_resolutions(av).len() + versioned_links(av).len() + general@.len();
    let mut fresh: usize = 0;
    let mut stale: usize = 0;
    let mut failed: usize = 0;
    let mut other: usize = 0;
    let ghost mut rs: Seq<Resolution> = seq![];
    let ghost mut ls: Seq<Option<Problem>> = seq![];
    let mut i: usize = 0;
    proof {
        lemma_prefix_sizes(av, 0);
    }
    while i < apis.len()
        invariant
            i <= av.len(),
            av == apis@,
            total <= usize::MAX,
            total == all_resolutions(av).len() + versioned_links(av).len() + general@.len(),
            rs == all_resolutions(av.subrange(0, i as int)),
            ls == versioned_links(av.subrange(0, i as int)),
            rs.len() + ls.len() <= all_resolutions(av).len() + versioned_links(av).len(),
            fresh == count_status(rs, ItemStatus::Fresh) + count_links(ls, 0),
            stale == count_status(rs, ItemStatus::Stale),
            failed == count_status(rs, ItemStatus::Failed) + count_links(ls, 2),
            other == count_links(ls, 1),
            fresh + stale + failed + other == rs.len() + ls.len(),
        decreases av.len() - i,
    {
        let a = &apis[i];
        proof {
            assert(av.subrange(0, i + 1).drop_last() =~= av.subrange(0, i as int));
            assert(av.subrange(0, i + 1).last() == av[i as int]);
            lemma_prefix_sizes(av, i + 1);
        }
        let ghost rs_i = rs;
        let mut j: usize = 0;
        while j < a.by_version.len()
            invariant
                i < av.len(),
                *a == av[i as int],
                j <= a.by_version@.len(),
                total <= usize::MAX,
                rs == rs_i + a.by_version@.subrange(0, j as int).map_values(|p: (crate::names::SemVersion, Resolution)| p.1),
                rs_i.len() + a.by_version@.len() + ls.len() <= all_resolutions(av).len() + versioned_links(av).len(),
                all_resolutions(av).len() + versioned_links(av).len() <= total,
                fresh == count_status(rs, ItemStatus::Fresh) + count_links(ls, 0),
                stale == count_status(rs, ItemStatus::Stale),
                failed == count_status(rs, ItemStatus::Failed) + count_links(ls, 2),
                other == count_links(ls, 1),
                fresh + stale + failed + other == rs.len() + ls.len(),
            decreases a.by_version@.len() - j,
        {
            let r = &a.by_version[j].1;
            proof {
                lemma_count_status_push(rs, *r, ItemStatus::Fresh);
                lemma_count_status_push(rs, *r, ItemStatus::Stale);
                lemma_count_status_push(rs, *r, ItemStatus::Failed);
                assert(a.by_version@.subrange(0, j + 1).map_values(|p: (crate::names::SemVersion, Resolution)| p.1) =~= a.by_version@.subrange(
                    0,
                    j as int,
                ).map_values(|p: (crate::names::SemVersion, Resolution)| p.1).push(*r));
                rs = rs.push(*r);
            }
            match r.status() {
                ItemStatus::Fresh => fresh = fresh + 1,
                ItemStatus::Stale => stale = stale + 1,
                ItemStatus::Failed => failed = failed + 1,
            }
            j = j + 1;
        }
        proof {
            assert(a.by_version@.subrange(0, a.by_version@.len() as int) =~= a.by_version@);
        }
        if crate::generate::is_versioned_api(a) {
            let ghost l = a.symlink;
            proof {
                lemma_count_links_push(ls, l, 0);
                lemma_count_links_push(ls, l, 1);
                lemma_count_links_push(ls, l, 2);
                ls = ls.push(l);
            }
            match &a.symlink {
                None => fresh = fresh + 1,
                Some(p) => {
                    if p.is_fixable() {
                        other = other + 1;
                    } else {
                        failed = failed + 1;
                    }
                },
            }
        }
        proof {
            assert(rs == all_resolutions(av.subrange(0, i + 1)));
            assert(ls =~= versioned_links(av.subrange(0, i + 1)));
        }
        i = i + 1;
    }
    proof {
        assert(av.subrange(0, av.len() as int) =~= av);
    }
    let ghost gp = general_problems_of(general@);
    let mut k: usize = 0;
    while k < general.len()
        invariant
            k <= general@.len(),
            gp == general_problems_of(general@),
            total <= usize::MAX,
            rs.len() + ls.len() + general@.len() == total,
            stale == count_status(rs, ItemStatus::Stale),
            fresh == count_status(rs, ItemStatus::Fresh) + count_links(ls, 0),
            failed == count_status(rs, ItemStatus::Failed) + count_links(ls, 2) + count_fixable(gp.subrange(0, k as int), false),
            other == count_links(ls, 1) + count_fixable(gp.subrange(0, k as int), true),
            fresh + stale + failed + other == rs.len() + ls.len() + k,
        decreases general@.len() - k,
    {
        let p = &general[k].problem;
        proof {
            assert(gp[k as int] == *p);
            assert(gp.subrange(0, k + 1) =~= gp.subrange(0, k as int).push(*p));
            lemma_count_fixable_push(gp.subrange(0, k as int), *p, true);
            lemma_count_fixable_push(gp.subrange(0, k as int), *p, false);
        }
        if p.is_fixable() {
            other = other + 1;
        } else {
            failed = failed + 1;
        }
        k = k + 1;
    }
    proof {
        assert(gp.subrange(0, general@.len() as int) =~= gp);
    }
    CheckTally { fresh, stale, failed, other }
}

proof fn lemma_prefix_sizes(av: Seq<ApiResolved>, i: int)
    requires
        0 <= i <= av.len(),
    ensures
        all_resolutions(av.subrange(0, i)).len() + versioned_links(av.subrange(0, i)).len() <= all_resolutions(av).len()
            + versioned_links(av).len(),
    decreases av.len() - i,
{
    if i < av.len() {
        lemma_prefix_sizes(av, i + 1);
        assert(av.subrange(0, i + 1).drop_last() =~= av.subrange(0, i));
    } else {
        assert(av.subrange(0, i) =~= av);
    }
}

} // verus!
