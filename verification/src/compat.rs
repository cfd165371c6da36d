//! Compatibility issues between a blessed and a generated OpenAPI document,
//! and the bookkeeping that renders an issue reported for several API
//! versions in full only once.

use vstd::prelude::*;
use crate::docpath::{base_view, parse_pointer_spec, DocumentBasePath, DocumentPath};
use crate::names::{same_version, ApiIdent, SemVersion};
use crate::pointer::ChangeClass;
use crate::tree::PathTree;

verus! {

/// A non-trivial change at a particular subpath within a base location.
#[derive(Debug, Clone, PartialEq, Eq)]
pub struct SubpathChange {
    /// Severity of the change.
    pub class: ChangeClass,
    /// Description of the change.
    pub message: String,
    /// Subpath of the change within the base, on the blessed side.
    pub old_subpath: DocumentPath,
    /// Subpath on the generated side.
    pub new_subpath: DocumentPath,
}

impl SubpathChange {
    /// A change as the comparison reports it: its class and message, and
    /// the subpaths on both sides as JSON pointers.
    pub fn from_info(class: ChangeClass, message: String, old_subpath: &str, new_subpath: &str) -> (res: Self)
        ensures
            res.class == class,
            res.message@ == message@,
            res.old_subpath@ == parse_pointer_spec(old_subpath@),
            res.new_subpath@ == parse_pointer_spec(new_subpath@),
    {
        SubpathChange {
            class,
            message,
            old_subpath: DocumentPath::parse(old_subpath),
            new_subpath: DocumentPath::parse(new_subpath),
        }
    }
}

/// Abstract value of a change.
pub open spec fn change_view(c: SubpathChange) -> (ChangeClass, Seq<char>, Seq<Seq<char>>, Seq<
    Seq<char>,
>) {
    (c.class, c.message@, c.old_subpath@, c.new_subpath@)
}

/// A compatibility issue: one component or endpoint with non-trivial
/// changes.
#[derive(Debug)]
pub struct ApiCompatIssue {
    /// Base location in the blessed (old) document.
    pub blessed_base: DocumentBasePath,
    /// Base location in the generated (new) document.
    pub generated_base: DocumentBasePath,
    /// Non-trivial changes within this base location.
    pub changes: Vec<SubpathChange>,
    /// Inverted reference tree of `$ref` chains leading to this base.
    pub tree: PathTree,
    /// Pretty-printed JSON of the blessed value at the base, if any.
    pub blessed_value: Option<String>,
    /// Pretty-printed JSON of the generated value at the base, if any.
    pub generated_value: Option<String>,
}

/// The text of an optional value, or nothing.
pub open spec fn opt_text(v: Option<String>) -> Option<Seq<char>> {
    match v {
        Some(s) => Some(s@),
        None => None,
    }
}

/// The changes of an issue, as abstract values.
pub open spec fn changes_seq(v: Seq<SubpathChange>) -> Seq<
    (ChangeClass, Seq<char>, Seq<Seq<char>>, Seq<Seq<char>>),
> {
    v.map_values(|c: SubpathChange| change_view(c))
}

/// The set of changes of an issue.
pub open spec fn change_set(issue: ApiCompatIssue) -> Set<
    (ChangeClass, Seq<char>, Seq<Seq<char>>, Seq<Seq<char>>),
> {
    changes_seq(issue.changes@).to_set()
}

/// Every element of `a` occurs in `b`.
pub open spec fn all_within<T>(a: Seq<T>, b: Seq<T>) -> bool {
    forall|i: int| 0 <= i < a.len() ==> b.contains(#[trigger] a[i])
}

/// What identifies an issue for deduplication: both bases, the set of
/// changes, and both values. The reference tree is not part of it.
pub open spec fn change_key(issue: ApiCompatIssue) -> (
    (int, Seq<Seq<char>>, Option<Seq<char>>),
    (int, Seq<Seq<char>>, Option<Seq<char>>),
    Set<(ChangeClass, Seq<char>, Seq<Seq<char>>, Seq<Seq<char>>)>,
    Option<Seq<char>>,
    Option<Seq<char>>,
) {
    (
        base_view(issue.blessed_base),
        base_view(issue.generated_base),
        change_set(issue),
        opt_text(issue.blessed_value),
        opt_text(issue.generated_value),
    )
}

fn same_change(a: &SubpathChange, b: &SubpathChange) -> (res: bool)
    ensures
        res == (change_view(*a) == change_view(*b)),
{
    a.class == b.class && a.message == b.message && a.old_subpath.same_as(&b.old_subpath)
        && a.new_subpath.same_as(&b.new_subpath)
}

fn changes_within(a: &Vec<SubpathChange>, b: &Vec<SubpathChange>) -> (res: bool)
    ensures
        res == all_within(changes_seq(a@), changes_seq(b@)),
{
    let ghost sa = changes_seq(a@);
    let ghost sb = changes_seq(b@);
    let mut i: usize = 0;
    while i < a.len()
        invariant
            i <= a@.len(),
            sa == changes_seq(a@),
            sb == changes_seq(b@),
            forall|k: int| 0 <= k < i ==> sb.contains(#[trigger] sa[k]),
        decreases a@.len() - i,
    {
        let mut j: usize = 0;
        let mut found = false;
        while j < b.len()
            invariant
                j <= b@.len(),
                i < a@.len(),
                sa == changes_seq(a@),
                sb == changes_seq(b@),
                !found ==> forall|m: int| 0 <= m < j ==> sb[m] != sa[i as int],
                found ==> sb.contains(sa[i as int]),
            decreases b@.len() - j,
        {
            if !found && same_change(&a[i], &b[j]) {
                found = true;
                assert(sb[j as int] == sa[i as int]);
            }
            j = j + 1;
        }
        if !found {
            assert(!sb.contains(sa[i as int]));
            return false;
        }
        i = i + 1;
    }
    true
}

proof fn lemma_change_set_eq(a: Seq<SubpathChange>, b: Seq<SubpathChange>)
    ensures
        (changes_seq(a).to_set() == changes_seq(b).to_set()) == (all_within(
            changes_seq(a),
            changes_seq(b),
        ) && all_within(changes_seq(b), changes_seq(a))),
{
    let sa = changes_seq(a);
    let sb = changes_seq(b);
    if all_within(sa, sb) && all_within(sb, sa) {
        assert forall|x| sa.to_set().contains(x) == sb.to_set().contains(x) by {
            if sa.contains(x) {
                let i = choose|i: int| 0 <= i < sa.len() && sa[i] == x;
                assert(sb.contains(sa[i]));
            }
            if sb.contains(x) {
                let i = choose|i: int| 0 <= i < sb.len() && sb[i] == x;
                assert(sa.contains(sb[i]));
            }
        }
        assert(sa.to_set() =~= sb.to_set());
    }
    if sa.to_set() == sb.to_set() {
        assert forall|i: int| 0 <= i < sa.len() implies sb.contains(#[trigger] sa[i]) by {
            assert(sa.to_set().contains(sa[i]));
        }
        assert forall|i: int| 0 <= i < sb.len() implies sa.contains(#[trigger] sb[i]) by {
            assert(sb.to_set().contains(sb[i]));
        }
    }
}

fn same_opt_text(a: &Option<String>, b: &Option<String>) -> (res: bool)
    ensures
        res == (opt_text(*a) == opt_text(*b)),
{
    match (a, b) {
        (Some(x), Some(y)) => *x == *y,
        (None, None) => true,
        _ => false,
    }
}

fn json_or_empty(v: &Option<String>) -> (res: String)
    ensures
        res@ == match opt_text(*v) {
            Some(t) => t,
            None => Seq::<char>::empty(),
        },
{
    match v {
        Some(s) => s.clone(),
        None => String::new(),
    }
}

impl ApiCompatIssue {
    /// True when this issue describes the same change as `other`: same
    /// bases, same set of changes (in any order), and same values. The
    /// reference tree is ignored.
    pub fn is_same_change_as(&self, other: &ApiCompatIssue) -> (res: bool)
        ensures
            res == (change_key(*self) == change_key(*other)),
    {
        proof {
            lemma_change_set_eq(self.changes@, other.changes@);
        }
        self.blessed_base.same_as(&other.blessed_base) && self.generated_base.same_as(
            &other.generated_base,
        ) && changes_within(&self.changes, &other.changes) && changes_within(
            &other.changes,
            &self.changes,
        ) && same_opt_text(&self.blessed_value, &other.blessed_value) && same_opt_text(
            &self.generated_value,
            &other.generated_value,
        )
    }

    /// The blessed JSON value at the base, pretty-printed, or empty.
    pub fn blessed_json(&self) -> (res: String)
        ensures
            res@ == match opt_text(self.blessed_value) {
                Some(t) => t,
                None => Seq::<char>::empty(),
            },
    {
        json_or_empty(&self.blessed_value)
    }

    /// The generated JSON value at the base, pretty-printed, or empty.
    pub fn generated_json(&self) -> (res: String)
        ensures
            res@ == match opt_text(self.generated_value) {
                Some(t) => t,
                None => Seq::<char>::empty(),
            },
    {
        json_or_empty(&self.generated_value)
    }
}

/// Where an issue was reported: an API and one of its versions.
#[derive(Debug, Clone, PartialEq, Eq)]
pub struct CompatIssueLocation {
    /// The API.
    pub api: ApiIdent,
    /// The version of the API.
    pub version: SemVersion,
}

/// Abstract value of a location.
pub open spec fn loc_view(l: CompatIssueLocation) -> (Seq<char>, SemVersion) {
    (l.api@, l.version)
}

/// Two locations are the same when they name the same API and version.
pub open spec fn same_loc(a: CompatIssueLocation, b: CompatIssueLocation) -> bool {
    a.api@ == b.api@ && same_version(a.version, b.version)
}

impl CompatIssueLocation {
    /// A copy of this location.
    pub fn duplicate(&self) -> (res: Self)
        ensures
            res == *self,
    {
        CompatIssueLocation { api: self.api.duplicate(), version: self.version.duplicate() }
    }

    /// True when both locations name the same API and version.
    pub fn same_as(&self, other: &CompatIssueLocation) -> (res: bool)
        ensures
            res == same_loc(*self, *other),
    {
        self.api.same_as(&other.api) && self.version.same_as(&other.version)
    }
}

/// How an issue should be rendered at a given location.
#[derive(Debug, Clone, Copy, PartialEq, Eq, Structural)]
#[allow(inconsistent_fields)]
pub enum CompatRenderStatus {
    /// Render in full. `anchor` is set when the issue is also reported
    /// elsewhere.
    FirstOccurrence { anchor: Option<usize> },
    /// Already rendered in full at the location with this anchor.
    Duplicate { anchor: usize },
}

/// The key of a recorded issue.
pub type IssueKey = (
    (int, Seq<Seq<char>>, Option<Seq<char>>),
    (int, Seq<Seq<char>>, Option<Seq<char>>),
    Set<(ChangeClass, Seq<char>, Seq<Seq<char>>, Seq<Seq<char>>)>,
    Option<Seq<char>>,
    Option<Seq<char>>,
);

/// Number of insertions in `history` whose issue has key `key`.
pub open spec fn count_key(history: Seq<(IssueKey, CompatIssueLocation)>, key: IssueKey) -> nat
    decreases history.len(),
{
    if history.len() == 0 {
        0
    } else {
        count_key(history.drop_last(), key) + if history.last().0 == key {
            1nat
        } else {
            0nat
        }
    }
}

/// Location of the first insertion in `history` whose issue has key
/// `key`, if any.
pub open spec fn first_loc(history: Seq<(IssueKey, CompatIssueLocation)>, key: IssueKey) -> Option<
    CompatIssueLocation,
>
    decreases history.len(),
{
    if history.len() == 0 {
        None
    } else {
        match first_loc(history.drop_last(), key) {
            Some(l) => Some(l),
            None => if history.last().0 == key {
                Some(history.last().1)
            } else {
                None
            },
        }
    }
}

/// The distinct keys of `history`, in order of first insertion.
pub open spec fn distinct_keys(history: Seq<(IssueKey, CompatIssueLocation)>) -> Seq<IssueKey>
    decreases history.len(),
{
    if history.len() == 0 {
        seq![]
    } else {
        let prev = distinct_keys(history.drop_last());
        if prev.contains(history.last().0) {
            prev
        } else {
            prev.push(history.last().0)
        }
    }
}

/// Number of keys among the first `n` distinct keys of `history` that were
/// inserted more than once.
pub open spec fn multi_before(history: Seq<(IssueKey, CompatIssueLocation)>, n: int) -> nat
    decreases n,
{
    if n <= 0 {
        0
    } else {
        multi_before(history, n - 1) + if count_key(history, distinct_keys(history)[n - 1]) > 1 {
            1nat
        } else {
            0nat
        }
    }
}

/// The anchor of the `i`-th distinct key of `history`: issues inserted more
/// than once are numbered 1, 2, ... in order of first insertion; issues
/// inserted once get none.
pub open spec fn anchor_spec(history: Seq<(IssueKey, CompatIssueLocation)>, i: int) -> Option<nat> {
    if count_key(history, distinct_keys(history)[i]) > 1 {
        Some(multi_before(history, i) + 1)
    } else {
        None
    }
}

/// Index of `key` among the distinct keys of `history`.
pub open spec fn key_index(history: Seq<(IssueKey, CompatIssueLocation)>, key: IssueKey) -> int {
    distinct_keys(history).index_of(key)
}

/// How an issue with key `key` is rendered at `current`, given everything
/// that was inserted.
pub open spec fn status_spec(
    history: Seq<(IssueKey, CompatIssueLocation)>,
    key: IssueKey,
    current: CompatIssueLocation,
) -> CompatRenderStatus {
    let i = key_index(history, key);
    match anchor_spec(history, i) {
        None => CompatRenderStatus::FirstOccurrence { anchor: None },
        Some(a) => if same_loc(first_loc(history, key).unwrap(), current) {
            CompatRenderStatus::FirstOccurrence { anchor: Some(a as usize) }
        } else {
            CompatRenderStatus::Duplicate { anchor: a as usize }
        },
    }
}

proof fn lemma_push_facts(
    h: Seq<(IssueKey, CompatIssueLocation)>,
    x: (IssueKey, CompatIssueLocation),
    k: IssueKey,
)
    ensures
        count_key(h.push(x), k) == count_key(h, k) + if x.0 == k {
            1nat
        } else {
            0nat
        },
        first_loc(h.push(x), k) == match first_loc(h, k) {
            Some(l) => Some(l),
            None => if x.0 == k {
                Some(x.1)
            } else {
                None
            },
        },
        distinct_keys(h.push(x)) == if distinct_keys(h).contains(x.0) {
            distinct_keys(h)
        } else {
            distinct_keys(h).push(x.0)
        },
{
    assert(h.push(x).drop_last() == h);
}

proof fn lemma_count_first(h: Seq<(IssueKey, CompatIssueLocation)>, k: IssueKey)
    ensures
        (count_key(h, k) >= 1) == (first_loc(h, k) is Some),
        (count_key(h, k) >= 1) == distinct_keys(h).contains(k),
    decreases h.len(),
{
    if h.len() > 0 {
        lemma_count_first(h.drop_last(), k);
        let prev = distinct_keys(h.drop_last());
        if !prev.contains(h.last().0) {
            assert(prev.push(h.last().0)[prev.len() as int] == h.last().0);
            if prev.push(h.last().0).contains(k) && !prev.contains(k) {
                let i = choose|i: int|
                    0 <= i < prev.len() + 1 && prev.push(h.last().0)[i] == k;
                if i < prev.len() {
                    assert(prev[i] == k);
                }
            }
            if prev.contains(k) {
                let i = choose|i: int| 0 <= i < prev.len() && prev[i] == k;
                assert(prev.push(h.last().0)[i] == k);
            }
        }
    }
}

proof fn lemma_distinct_keys_no_dup(h: Seq<(IssueKey, CompatIssueLocation)>)
    ensures
        distinct_keys(h).no_duplicates(),
    decreases h.len(),
{
    if h.len() > 0 {
        lemma_distinct_keys_no_dup(h.drop_last());
        let prev = distinct_keys(h.drop_last());
        if !prev.contains(h.last().0) {
            let next = prev.push(h.last().0);
            assert forall|i: int, j: int| 0 <= i < j < next.len() implies next[i] != next[j] by {
                if j == prev.len() {
                    assert(next[i] == prev[i]);
                    assert(prev.contains(prev[i]));
                }
            }
        }
    }
}

struct RawEntry<'a> {
    issue: &'a ApiCompatIssue,
    first_occurrence: CompatIssueLocation,
    count: usize,
}

/// Tracks compatibility issues to deduplicate them. Call `insert` once per
/// (location, issue) pair, then `finalize` to enable lookups.
pub struct CompatDedupMap<'a> {
    entries: Vec<RawEntry<'a>>,
    history: Ghost<Seq<(IssueKey, CompatIssueLocation)>>,
}

impl<'a> CompatDedupMap<'a> {
    /// The insertions made so far: each issue's key and location.
    pub closed spec fn history(&self) -> Seq<(IssueKey, CompatIssueLocation)> {
        self.history@
    }

    /// The map's internal state agrees with its history: one entry per
    /// distinct key, in order of first insertion, each holding the first
    /// location and the number of insertions for its key.
    pub closed spec fn wf(&self) -> bool {
        let h = self.history@;
        &&& self.entries@.len() == distinct_keys(h).len()
        &&& forall|i: int|
            0 <= i < self.entries@.len() ==> {
                let k = change_key(*#[trigger] self.entries@[i].issue);
                &&& k == distinct_keys(h)[i]
                &&& self.entries@[i].count == count_key(h, k)
                &&& Some(self.entries@[i].first_occurrence) == first_loc(h, k)
            }
        &&& self.entries@.len() <= h.len()
        &&& h.len() < usize::MAX
    }

    /// An empty map.
    pub fn new() -> (res: Self)
        ensures
            res.wf(),
            res.history() == Seq::<(IssueKey, CompatIssueLocation)>::empty(),
    {
        CompatDedupMap { entries: Vec::new(), history: Ghost(Seq::empty()) }
    }

    /// Records that `issue` was reported at `location`.
    pub fn insert(&mut self, location: CompatIssueLocation, issue: &'a ApiCompatIssue)
        requires
            old(self).wf(),
            old(self).history().len() + 1 < usize::MAX,
        ensures
            final(self).wf(),
            final(self).history() == old(self).history().push((change_key(*issue), location)),
    {
        let ghost h = self.history@;
        let ghost x = (change_key(*issue), location);
        let ghost k = change_key(*issue);
        proof {
            lemma_distinct_keys_no_dup(h);
        }
        let mut i: usize = 0;
        while i < self.entries.len()
            invariant
                self.wf(),
                self.history@ == h,
                old(self).history() == h,
                h.len() + 1 < usize::MAX,
                distinct_keys(h).no_duplicates(),
                x == (change_key(*issue), location),
                k == change_key(*issue),
                i <= self.entries@.len(),
                forall|j: int| 0 <= j < i ==> change_key(*self.entries@[j].issue) != k,
            decreases self.entries@.len() - i,
        {
            if self.entries[i].issue.is_same_change_as(issue) {
                proof {
                    lemma_count_first(h, k);
                    assert(count_key(h, k) <= h.len()) by {
                        lemma_count_bound(h, k);
                    }
                }
                let c = self.entries[i].count;
                assert(c == count_key(h, k));
                let ghost before = self.entries@;
                let updated = RawEntry {
                    issue: self.entries[i].issue,
                    first_occurrence: self.entries[i].first_occurrence.duplicate(),
                    count: c + 1,
                };
                self.entries.set(i, updated);
                self.history = Ghost(h.push(x));
                proof {
                    assert(self.entries@ == before.update(i as int, updated));
                    lemma_push_facts(h, x, k);
                    assert(distinct_keys(h)[i as int] == k);
                    assert(distinct_keys(h).contains(k));
                    assert forall|j: int| 0 <= j < self.entries@.len() implies {
                        let kj = change_key(*#[trigger] self.entries@[j].issue);
                        &&& kj == distinct_keys(h.push(x))[j]
                        &&& self.entries@[j].count == count_key(h.push(x), kj)
                        &&& Some(self.entries@[j].first_occurrence) == first_loc(h.push(x), kj)
                    } by {
                        let kj = change_key(*self.entries@[j].issue);
                        lemma_count_first(h, kj);
                        lemma_push_facts(h, x, kj);
                        assert(change_key(*before[j].issue) == kj);
                        if j != i {
                            assert(distinct_keys(h)[j] != distinct_keys(h)[i as int]);
                        }
                    }
                }
                return;
            }
            i = i + 1;
        }
        proof {
            lemma_count_first(h, k);
            if distinct_keys(h).contains(k) {
                let j = distinct_keys(h).index_of(k);
                assert(change_key(*self.entries@[j].issue) == k);
            }
        }
        self.entries.push(RawEntry { issue, first_occurrence: location, count: 1 });
        self.history = Ghost(h.push(x));
        proof {
            lemma_push_facts(h, x, k);
            assert forall|j: int| 0 <= j < self.entries@.len() implies {
                let kj = change_key(*#[trigger] self.entries@[j].issue);
                &&& kj == distinct_keys(h.push(x))[j]
                &&& self.entries@[j].count == count_key(h.push(x), kj)
                &&& Some(self.entries@[j].first_occurrence) == first_loc(h.push(x), kj)
            } by {
                let kj = change_key(*self.entries@[j].issue);
                lemma_push_facts(h, x, kj);
                lemma_count_first(h, kj);
            }
        }
    }

    /// Finalizes the map, numbering (from 1, in order of first insertion)
    /// the issues that were inserted more than once.
    pub fn finalize(self) -> (res: FinalizedCompatDedupMap<'a>)
        requires
            self.wf(),
        ensures
            res.wf(),
            res.history() == self.history(),
    {
        let ghost h = self.history@;
        let mut next_anchor: usize = 1;
        let mut out: Vec<FinalizedEntry<'a>> = Vec::new();
        let mut entries = self.entries;
        let ghost all = entries@;
        let mut i: usize = 0;
        while i < entries.len()
            invariant
                entries@ == all,
                all.len() == distinct_keys(h).len(),
                all.len() <= h.len(),
                h.len() < usize::MAX,
                forall|j: int|
                    0 <= j < all.len() ==> {
                        let k = change_key(*#[trigger] all[j].issue);
                        &&& k == distinct_keys(h)[j]
                        &&& all[j].count == count_key(h, k)
                        &&& Some(all[j].first_occurrence) == first_loc(h, k)
                    },
                i <= all.len(),
                out@.len() == i,
                next_anchor == multi_before(h, i as int) + 1,
                multi_before(h, i as int) <= i,
                forall|j: int|
                    0 <= j < i ==> {
                        let e = #[trigger] out@[j];
                        &&& e.issue == all[j].issue
                        &&& e.first_occurrence == all[j].first_occurrence
                        &&& e.anchor == match anchor_spec(h, j) {
                            Some(a) => Some(a as usize),
                            None => None,
                        }
                    },
            decreases all.len() - i,
        {
            let e = &entries[i];
            let anchor = if e.count > 1 {
                let a = next_anchor;
                next_anchor = next_anchor + 1;
                Some(a)
            } else {
                None
            };
            out.push(FinalizedEntry {
                issue: e.issue,
                first_occurrence: e.first_occurrence.duplicate(),
                anchor,
            });
            i = i + 1;
        }
        FinalizedCompatDedupMap { entries: out, history: Ghost(h) }
    }
}

proof fn lemma_count_bound(h: Seq<(IssueKey, CompatIssueLocation)>, k: IssueKey)
    ensures
        count_key(h, k) <= h.len(),
    decreases h.len(),
{
    if h.len() > 0 {
        lemma_count_bound(h.drop_last(), k);
    }
}

struct FinalizedEntry<'a> {
    issue: &'a ApiCompatIssue,
    first_occurrence: CompatIssueLocation,
    anchor: Option<usize>,
}

/// Lookup-phase dedup map, produced by `CompatDedupMap::finalize`.
pub struct FinalizedCompatDedupMap<'a> {
    entries: Vec<FinalizedEntry<'a>>,
    history: Ghost<Seq<(IssueKey, CompatIssueLocation)>>,
}

impl<'a> FinalizedCompatDedupMap<'a> {
    /// The insertions that were made before finalizing.
    pub closed spec fn history(&self) -> Seq<(IssueKey, CompatIssueLocation)> {
        self.history@
    }

    /// One entry per distinct key, with its first location and anchor.
    pub closed spec fn wf(&self) -> bool {
        let h = self.history@;
        &&& self.entries@.len() == distinct_keys(h).len()
        &&& forall|j: int|
            0 <= j < self.entries@.len() ==> {
                let e = #[trigger] self.entries@[j];
                let k = change_key(*e.issue);
                &&& k == distinct_keys(h)[j]
                &&& Some(e.first_occurrence) == first_loc(h, k)
                &&& e.anchor == match anchor_spec(h, j) {
                    Some(a) => Some(a as usize),
                    None => None,
                }
            }
    }

    /// Where `issue` was first inserted.
    pub fn first_location(&self, issue: &ApiCompatIssue) -> (res: &CompatIssueLocation)
        requires
            self.wf(),
            distinct_keys(self.history()).contains(change_key(*issue)),
        ensures
            Some(*res) == first_loc(self.history(), change_key(*issue)),
    {
        let ghost h = self.history@;
        let ghost k = change_key(*issue);
        proof {
            lemma_distinct_keys_no_dup(h);
        }
        let mut i: usize = 0;
        while i < self.entries.len()
            invariant
                self.wf(),
                h == self.history@,
                k == change_key(*issue),
                distinct_keys(h).contains(k),
                i <= self.entries@.len(),
                forall|j: int| 0 <= j < i ==> distinct_keys(h)[j] != k,
            decreases self.entries@.len() - i,
        {
            let e = &self.entries[i];
            if e.issue.is_same_change_as(issue) {
                proof {
                    assert(distinct_keys(h)[i as int] == k);
                }
                return &e.first_occurrence;
            }
            i = i + 1;
        }
        proof {
            let j = distinct_keys(h).index_of(k);
            assert(distinct_keys(h)[j] == k);
        }
        &self.entries[0].first_occurrence
    }

    /// How `issue`, reported at `current`, should be rendered: in full
    /// without an anchor if it was inserted once; in full with its anchor at
    /// the first location where it was inserted; and as a duplicate pointing
    /// at its anchor elsewhere.
    pub fn status_for(&self, issue: &ApiCompatIssue, current: &CompatIssueLocation) -> (res:
        CompatRenderStatus)
        requires
            self.wf(),
            distinct_keys(self.history()).contains(change_key(*issue)),
        ensures
            res == status_spec(self.history(), change_key(*issue), *current),
    {
        let ghost h = self.history@;
        let ghost k = change_key(*issue);
        proof {
            lemma_distinct_keys_no_dup(h);
        }
        let mut i: usize = 0;
        while i < self.entries.len()
            invariant
                self.wf(),
                h == self.history@,
                distinct_keys(h).no_duplicates(),
                k == change_key(*issue),
                distinct_keys(h).contains(k),
                i <= self.entries@.len(),
                forall|j: int| 0 <= j < i ==> distinct_keys(h)[j] != k,
            decreases self.entries@.len() - i,
        {
            let e = &self.entries[i];
            if e.issue.is_same_change_as(issue) {
                proof {
                    assert(distinct_keys(h)[i as int] == k);
                    let j = distinct_keys(h).index_of(k);
                    assert(distinct_keys(h)[j] == k);
                    assert(j == i as int);
                }
                return match e.anchor {
                    None => CompatRenderStatus::FirstOccurrence { anchor: None },
                    Some(a) => if e.first_occurrence.same_as(current) {
                        CompatRenderStatus::FirstOccurrence { anchor: Some(a) }
                    } else {
                        CompatRenderStatus::Duplicate { anchor: a }
                    },
                };
            }
            i = i + 1;
        }
        proof {
            let j = distinct_keys(h).index_of(k);
            assert(distinct_keys(h)[j] == k);
        }
        CompatRenderStatus::FirstOccurrence { anchor: None }
    }
}

proof fn lemma_multi_before_grows(history: Seq<(IssueKey, CompatIssueLocation)>, i: int, j: int)
    requires
        0 <= i < j,
    ensures
        multi_before(history, j) >= multi_before(history, i) + if count_key(history, distinct_keys(history)[i]) > 1 {
            1nat
        } else {
            0nat
        },
    decreases j - i,
{
    if j > i + 1 {
        lemma_multi_before_grows(history, i, j - 1);
    }
}

proof fn lemma_anchors_reach(history: Seq<(IssueKey, CompatIssueLocation)>, m: int, a: nat)
    requires
        0 <= m,
        1 <= a <= multi_before(history, m),
    ensures
        exists|i: int| 0 <= i < m && #[trigger] anchor_spec(history, i) == Some(a),
    decreases m,
{
    if a <= multi_before(history, m - 1) {
        lemma_anchors_reach(history, m - 1, a);
        let i = choose|i: int| 0 <= i < m - 1 && #[trigger] anchor_spec(history, i) == Some(a);
        assert(anchor_spec(history, i) == Some(a));
    } else {
        assert(anchor_spec(history, m - 1) == Some(a));
    }
}

/// Anchors are numbered contiguously, in order of first insertion: the
/// issues inserted more than once, taken in that order, get 1, 2, ..., K
/// (each issue before them that was inserted once is skipped), so every
/// anchor is between 1 and K and every number between 1 and K is the
/// anchor of one of them (here, for the number `a`).
pub proof fn law_anchors_contiguous(history: Seq<(IssueKey, CompatIssueLocation)>, a: nat)
    ensures
        forall|i: int|
            0 <= i < distinct_keys(history).len() && #[trigger] anchor_spec(history, i) is Some ==> 1 <= anchor_spec(
                history,
                i,
            )->0 <= multi_before(history, distinct_keys(history).len() as int),
        1 <= a <= multi_before(history, distinct_keys(history).len() as int) ==> exists|i: int|
            0 <= i < distinct_keys(history).len() && #[trigger] anchor_spec(history, i) == Some(a),
        forall|i: int|
            0 <= i < distinct_keys(history).len() && #[trigger] anchor_spec(history, i) is Some ==> anchor_spec(
                history,
                i,
            )->0 == multi_before(history, i) + 1,
{
    let n = distinct_keys(history).len() as int;
    assert forall|i: int| 0 <= i < n && #[trigger] anchor_spec(history, i) is Some implies 1 <= anchor_spec(history, i)->0 <= multi_before(history, n) by {
        if i + 1 < n {
            lemma_multi_before_grows(history, i, n);
        }
    }
    if 1 <= a <= multi_before(history, n) {
        lemma_anchors_reach(history, n, a);
    }
}

/// Issues shown more than once are numbered apart: two different positions
/// among the distinct issues that both have an anchor have different
/// anchors.
pub proof fn law_anchors_distinct(history: Seq<(IssueKey, CompatIssueLocation)>, i: int, j: int)
    requires
        0 <= i < distinct_keys(history).len(),
        0 <= j < distinct_keys(history).len(),
        i != j,
        anchor_spec(history, i) is Some,
        anchor_spec(history, j) is Some,
    ensures
        anchor_spec(history, i) != anchor_spec(history, j),
{
    if i < j {
        lemma_multi_before_grows(history, i, j);
    } else {
        lemma_multi_before_grows(history, j, i);
    }
}

/// An issue reported at several locations is shown in full at only one of
/// them: when two locations both render it in full, they are the same
/// location.
pub proof fn law_full_rendering_unique(
    history: Seq<(IssueKey, CompatIssueLocation)>,
    key: IssueKey,
    a: CompatIssueLocation,
    b: CompatIssueLocation,
)
    requires
        anchor_spec(history, key_index(history, key)) is Some,
        status_spec(history, key, a) is FirstOccurrence,
        status_spec(history, key, b) is FirstOccurrence,
    ensures
        same_loc(a, b),
{
}

/// The order in which an issue lists its changes does not matter for
/// deduplication, and neither does its reference tree: issues with the same
/// bases, the same set of changes and the same values have the same key.
pub proof fn law_dedup_key_ignores_order_and_tree(a: ApiCompatIssue, b: ApiCompatIssue)
    requires
        base_view(a.blessed_base) == base_view(b.blessed_base),
        base_view(a.generated_base) == base_view(b.generated_base),
        changes_seq(a.changes@).to_set() == changes_seq(b.changes@).to_set(),
        opt_text(a.blessed_value) == opt_text(b.blessed_value),
        opt_text(a.generated_value) == opt_text(b.generated_value),
    ensures
        change_key(a) == change_key(b),
{
}

} // verus!
