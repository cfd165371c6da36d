//! Inverted reference trees: for a changed component, the chains of `$ref`
//! sources that lead back to the endpoints using it. The children of each
//! node are kept in key order, the order in which they are shown.

use vstd::prelude::*;
use crate::docpath::{
    base_view, classify_spec, parse_pointer_spec, strings_view, strip_ref_spec, ends_in_ref_spec, DocumentBasePath, DocumentPath,
    OperationIdMap, PathTreeKey,
};
use crate::text::chars_of;

verus! {

/// Abstract value of a tree key: its base and its subpath.
pub type KeyView = ((int, Seq<Seq<char>>, Option<Seq<char>>), Seq<Seq<char>>);

/// The abstract value of a key.
pub open spec fn key_view(k: PathTreeKey) -> KeyView {
    (base_view(k.base), k.subpath@)
}

/// -1, 0 or 1 as `a` is before, equal to or after `b`.
pub open spec fn int_order(a: int, b: int) -> int {
    if a < b {
        -1
    } else if a == b {
        0
    } else {
        1
    }
}

/// Lexicographic order of strings (by code point, which is also the order
/// of their UTF-8 bytes).
pub open spec fn chars_order(a: Seq<char>, b: Seq<char>) -> int
    decreases a.len(),
{
    if a.len() == 0 {
        if b.len() == 0 {
            0
        } else {
            -1
        }
    } else if b.len() == 0 {
        1
    } else if a[0] != b[0] {
        int_order(a[0] as int, b[0] as int)
    } else {
        chars_order(a.drop_first(), b.drop_first())
    }
}

/// Lexicographic order of segment lists.
pub open spec fn segs_order(a: Seq<Seq<char>>, b: Seq<Seq<char>>) -> int
    decreases a.len(),
{
    if a.len() == 0 {
        if b.len() == 0 {
            0
        } else {
            -1
        }
    } else if b.len() == 0 {
        1
    } else if chars_order(a[0], b[0]) != 0 {
        chars_order(a[0], b[0])
    } else {
        segs_order(a.drop_first(), b.drop_first())
    }
}

/// Order of optional strings: none first.
pub open spec fn opt_order(a: Option<Seq<char>>, b: Option<Seq<char>>) -> int {
    match (a, b) {
        (None, None) => 0,
        (None, Some(_)) => -1,
        (Some(_), None) => 1,
        (Some(x), Some(y)) => chars_order(x, y),
    }
}

/// Order of keys: by base (kind of base, then its path, then its
/// operation id), then by subpath; the order of the derived `Ord`.
pub open spec fn key_order(a: KeyView, b: KeyView) -> int {
    let ((ta, pa, oa), sa) = a;
    let ((tb, pb, ob), sb) = b;
    if ta != tb {
        int_order(ta, tb)
    } else if segs_order(pa, pb) != 0 {
        segs_order(pa, pb)
    } else if opt_order(oa, ob) != 0 {
        opt_order(oa, ob)
    } else {
        segs_order(sa, sb)
    }
}

pub(crate) proof fn lemma_chars_order(a: Seq<char>, b: Seq<char>)
    ensures
        (chars_order(a, b) == 0) == (a == b),
        chars_order(a, b) == -chars_order(b, a),
        -1 <= chars_order(a, b) <= 1,
    decreases a.len(),
{
    if a.len() > 0 && b.len() > 0 && a[0] == b[0] {
        lemma_chars_order(a.drop_first(), b.drop_first());
        if a.drop_first() == b.drop_first() {
            assert(a =~= seq![a[0]] + a.drop_first());
            assert(b =~= seq![b[0]] + b.drop_first());
        }
    }
    if a.len() > 0 && b.len() > 0 && a[0] != b[0] {
        assert((a[0] as int) != (b[0] as int));
    }
    if a.len() == 0 && b.len() == 0 {
        assert(a =~= b);
    }
}

pub(crate) proof fn lemma_segs_order(a: Seq<Seq<char>>, b: Seq<Seq<char>>)
    ensures
        (segs_order(a, b) == 0) == (a == b),
        segs_order(a, b) == -segs_order(b, a),
        -1 <= segs_order(a, b) <= 1,
    decreases a.len(),
{
    if a.len() > 0 && b.len() > 0 {
        lemma_chars_order(a[0], b[0]);
        if chars_order(a[0], b[0]) == 0 {
            lemma_segs_order(a.drop_first(), b.drop_first());
            if a.drop_first() == b.drop_first() {
                assert(a =~= seq![a[0]] + a.drop_first());
                assert(b =~= seq![b[0]] + b.drop_first());
            }
        }
    }
    if a.len() == 0 && b.len() == 0 {
        assert(a =~= b);
    }
}

/// Keys compare equal exactly when they are equal, and comparing the other
/// way round flips the result.
pub proof fn lemma_key_order(a: KeyView, b: KeyView)
    ensures
        (key_order(a, b) == 0) == (a == b),
        key_order(a, b) == -key_order(b, a),
{
    let ((ta, pa, oa), sa) = a;
    let ((tb, pb, ob), sb) = b;
    lemma_segs_order(pa, pb);
    lemma_segs_order(sa, sb);
    match (oa, ob) {
        (Some(x), Some(y)) => lemma_chars_order(x, y),
        _ => {},
    }
}

fn compare_chars(a: &[char], b: &[char]) -> (res: i8)
    ensures
        res as int == chars_order(a@, b@),
{
    let mut i: usize = 0;
    assert(a@.subrange(0, a@.len() as int) =~= a@);
    assert(b@.subrange(0, b@.len() as int) =~= b@);
    while i < a.len() && i < b.len() && a[i] == b[i]
        invariant
            i <= a@.len(),
            i <= b@.len(),
            chars_order(a@, b@) == chars_order(a@.subrange(i as int, a@.len() as int), b@.subrange(
                i as int,
                b@.len() as int,
            )),
        decreases a@.len() - i,
    {
        assert(a@.subrange(i as int, a@.len() as int).drop_first() =~= a@.subrange(
            i + 1,
            a@.len() as int,
        ));
        assert(b@.subrange(i as int, b@.len() as int).drop_first() =~= b@.subrange(
            i + 1,
            b@.len() as int,
        ));
        i = i + 1;
    }
    let ghost ra = a@.subrange(i as int, a@.len() as int);
    let ghost rb = b@.subrange(i as int, b@.len() as int);
    if i == a.len() {
        if i == b.len() {
            0
        } else {
            -1
        }
    } else if i == b.len() {
        1
    } else {
        assert(ra[0] == a@[i as int] && rb[0] == b@[i as int]);
        if a[i] < b[i] {
            -1
        } else {
            1
        }
    }
}

pub(crate) fn compare_strings(a: &String, b: &String) -> (res: i8)
    ensures
        res as int == chars_order(a@, b@),
{
    let ca = chars_of(a.as_str());
    let cb = chars_of(b.as_str());
    compare_chars(ca.as_slice(), cb.as_slice())
}

pub(crate) fn compare_paths(a: &DocumentPath, b: &DocumentPath) -> (res: i8)
    ensures
        res as int == segs_order(a@, b@),
{
    let mut i: usize = 0;
    assert(a@.subrange(0, a@.len() as int) =~= a@);
    assert(b@.subrange(0, b@.len() as int) =~= b@);
    while i < a.segments.len() && i < b.segments.len()
        invariant
            i <= a@.len(),
            i <= b@.len(),
            a@.len() == a.segments@.len(),
            b@.len() == b.segments@.len(),
            segs_order(a@, b@) == segs_order(a@.subrange(i as int, a@.len() as int), b@.subrange(
                i as int,
                b@.len() as int,
            )),
        decreases a@.len() - i,
    {
        let ghost ra = a@.subrange(i as int, a@.len() as int);
        let ghost rb = b@.subrange(i as int, b@.len() as int);
        let c = compare_strings(&a.segments[i], &b.segments[i]);
        assert(ra[0] == a@[i as int] && rb[0] == b@[i as int]);
        if c != 0 {
            return c;
        }
        assert(ra.drop_first() =~= a@.subrange(i + 1, a@.len() as int));
        assert(rb.drop_first() =~= b@.subrange(i + 1, b@.len() as int));
        i = i + 1;
    }
    if i == a.segments.len() {
        if i == b.segments.len() {
            0
        } else {
            -1
        }
    } else {
        1
    }
}

fn base_tag(b: &DocumentBasePath) -> (res: u8)
    ensures
        res as int == base_view(*b).0,
{
    match b {
        DocumentBasePath::Component(_) => 0,
        DocumentBasePath::Endpoint { .. } => 1,
        DocumentBasePath::PathsRoot => 2,
        DocumentBasePath::Other(_) => 3,
    }
}

pub(crate) fn compare_bases(a: &DocumentBasePath, b: &DocumentBasePath) -> (res: i8)
    ensures
        res as int == key_order((base_view(*a), seq![]), (base_view(*b), seq![])),
{
    let ta = base_tag(a);
    let tb = base_tag(b);
    if ta != tb {
        return if ta < tb {
            -1
        } else {
            1
        };
    }
    match (a, b) {
        (DocumentBasePath::Component(pa), DocumentBasePath::Component(pb)) => compare_paths(pa, pb),
        (DocumentBasePath::Other(pa), DocumentBasePath::Other(pb)) => compare_paths(pa, pb),
        (
            DocumentBasePath::Endpoint { name: na, operation_id: oa },
            DocumentBasePath::Endpoint { name: nb, operation_id: ob },
        ) => {
            let c = compare_paths(na, nb);
            if c != 0 {
                return c;
            }
            match (oa, ob) {
                (None, None) => 0,
                (None, Some(_)) => -1,
                (Some(_), None) => 1,
                (Some(x), Some(y)) => compare_strings(x, y),
            }
        },
        _ => 0,
    }
}

/// Compares two keys (see `key_order`).
pub fn compare_keys(a: &PathTreeKey, b: &PathTreeKey) -> (res: i8)
    ensures
        res as int == key_order(key_view(*a), key_view(*b)),
{
    let c = compare_bases(&a.base, &b.base);
    if c != 0 {
        return c;
    }
    compare_paths(&a.subpath, &b.subpath)
}

/// An inverted reference tree, rooted at the directly-changed component or
/// endpoint. Each child is one immediate `$ref` source pointing at the
/// root, with the tree of refs pointing at that source below it.
#[derive(Debug, Default)]
pub struct PathTree {
    /// The children of this node, each with its subtree, in key order.
    pub children: Vec<(PathTreeKey, PathTree)>,
}

/// The subtree under the first child with key `kv`.
pub open spec fn find_child(cs: Seq<(PathTreeKey, PathTree)>, kv: KeyView) -> Option<PathTree>
    decreases cs.len(),
{
    if cs.len() == 0 {
        None
    } else if key_view(cs[0].0) == kv {
        Some(cs[0].1)
    } else {
        find_child(cs.drop_first(), kv)
    }
}

/// The tree holds the chain of keys `p`, starting at its root.
pub open spec fn has_path(t: PathTree, p: Seq<KeyView>) -> bool
    decreases p.len(),
{
    if p.len() == 0 {
        true
    } else {
        match find_child(t.children@, p[0]) {
            Some(c) => has_path(c, p.drop_first()),
            None => false,
        }
    }
}

/// The keys of the children.
pub open spec fn child_keys(cs: Seq<(PathTreeKey, PathTree)>) -> Seq<KeyView> {
    cs.map_values(|c: (PathTreeKey, PathTree)| key_view(c.0))
}

/// The children have distinct keys, each before the next.
pub open spec fn children_ordered(cs: Seq<(PathTreeKey, PathTree)>) -> bool {
    &&& child_keys(cs).no_duplicates()
    &&& forall|i: int| 0 <= i < cs.len() - 1 ==> key_order(key_view(#[trigger] cs[i].0), key_view(cs[i + 1].0)) < 0
}

/// Down to depth `d`, every node's children are ordered.
pub open spec fn ordered_to(t: PathTree, d: nat) -> bool
    decreases d,
{
    &&& children_ordered(t.children@)
    &&& d > 0 ==> forall|i: int| 0 <= i < t.children@.len() ==> ordered_to(#[trigger] t.children@[i].1, (d - 1) as nat)
}

/// Every node's children are ordered.
pub open spec fn ordered(t: PathTree) -> bool {
    forall|d: nat| ordered_to(t, d)
}

/// `p` is a prefix of `chain`.
pub open spec fn is_prefix_of(p: Seq<KeyView>, chain: Seq<KeyView>) -> bool {
    p.len() <= chain.len() && p == chain.subrange(0, p.len() as int)
}

/// The keys of a chain.
pub open spec fn chain_view(chain: Seq<PathTreeKey>) -> Seq<KeyView> {
    chain.map_values(|k: PathTreeKey| key_view(k))
}

proof fn lemma_find_child_first(cs: Seq<(PathTreeKey, PathTree)>, kv: KeyView, i: int)
    requires
        0 <= i < cs.len(),
        key_view(cs[i].0) == kv,
        forall|j: int| 0 <= j < i ==> key_view(#[trigger] cs[j].0) != kv,
    ensures
        find_child(cs, kv) == Some(cs[i].1),
    decreases cs.len(),
{
    if i > 0 {
        assert forall|j: int| 0 <= j < i - 1 implies key_view(#[trigger] cs.drop_first()[j].0) != kv by {
            assert(cs.drop_first()[j] == cs[j + 1]);
        }
        assert(key_view(cs[0].0) != kv);
        lemma_find_child_first(cs.drop_first(), kv, i - 1);
    }
}

proof fn lemma_find_child_none(cs: Seq<(PathTreeKey, PathTree)>, kv: KeyView)
    requires
        forall|j: int| 0 <= j < cs.len() ==> key_view(#[trigger] cs[j].0) != kv,
    ensures
        find_child(cs, kv) is None,
    decreases cs.len(),
{
    if cs.len() > 0 {
        assert forall|j: int| 0 <= j < cs.len() - 1 implies key_view(#[trigger] cs.drop_first()[j].0) != kv by {
            assert(cs.drop_first()[j] == cs[j + 1]);
        }
        assert(key_view(cs[0].0) != kv);
        lemma_find_child_none(cs.drop_first(), kv);
    }
}

pub(crate) proof fn lemma_find_child_some(cs: Seq<(PathTreeKey, PathTree)>, kv: KeyView)
    ensures
        find_child(cs, kv) is Some ==> exists|i: int|
            0 <= i < cs.len() && key_view(#[trigger] cs[i].0) == kv && find_child(cs, kv) == Some(cs[i].1)
                && forall|j: int| 0 <= j < i ==> key_view(#[trigger] cs[j].0) != kv,
        find_child(cs, kv) is None ==> forall|j: int| 0 <= j < cs.len() ==> key_view(#[trigger] cs[j].0) != kv,
    decreases cs.len(),
{
    if cs.len() > 0 {
        lemma_find_child_some(cs.drop_first(), kv);
        if key_view(cs[0].0) == kv {
            assert(key_view(cs[0].0) == kv && find_child(cs, kv) == Some(cs[0].1));
        } else {
            if find_child(cs, kv) is Some {
                let i = choose|i: int|
                    0 <= i < cs.drop_first().len() && key_view(#[trigger] cs.drop_first()[i].0) == kv
                        && find_child(cs.drop_first(), kv) == Some(cs.drop_first()[i].1)
                        && forall|j: int| 0 <= j < i ==> key_view(#[trigger] cs.drop_first()[j].0) != kv;
                assert(cs[i + 1] == cs.drop_first()[i]);
                assert forall|j: int| 0 <= j < i + 1 implies key_view(#[trigger] cs[j].0) != kv by {
                    if j > 0 {
                        assert(cs[j] == cs.drop_first()[j - 1]);
                    }
                }
            } else {
                assert forall|j: int| 0 <= j < cs.len() implies key_view(#[trigger] cs[j].0) != kv by {
                    if j > 0 {
                        assert(cs[j] == cs.drop_first()[j - 1]);
                    }
                }
            }
        }
    }
}

/// With distinct keys, the child found for a key is the one at that key's
/// position.
pub(crate) proof fn lemma_find_child_at(cs: Seq<(PathTreeKey, PathTree)>, kv: KeyView)
    requires
        child_keys(cs).no_duplicates(),
    ensures
        forall|i: int| 0 <= i < cs.len() && key_view(#[trigger] cs[i].0) == kv ==> find_child(cs, kv) == Some(cs[i].1),
        (forall|j: int| 0 <= j < cs.len() ==> key_view(#[trigger] cs[j].0) != kv) ==> find_child(cs, kv) is None,
{
    assert forall|i: int| 0 <= i < cs.len() && key_view(#[trigger] cs[i].0) == kv implies find_child(cs, kv) == Some(cs[i].1) by {
        assert forall|j: int| 0 <= j < i implies key_view(#[trigger] cs[j].0) != kv by {
            assert(child_keys(cs)[j] == key_view(cs[j].0));
            assert(child_keys(cs)[i] == key_view(cs[i].0));
        }
        lemma_find_child_first(cs, kv, i);
    }
    if forall|j: int| 0 <= j < cs.len() ==> key_view(#[trigger] cs[j].0) != kv {
        lemma_find_child_none(cs, kv);
    }
}

impl PathTreeKey {
    /// A copy of this key.
    pub fn duplicate(&self) -> (res: Self)
        ensures
            key_view(res) == key_view(*self),
    {
        PathTreeKey { base: self.base.duplicate(), subpath: self.subpath.duplicate() }
    }
}

pub(crate) proof fn lemma_empty_paths(t: PathTree, p: Seq<KeyView>)
    requires
        t.children@.len() == 0,
    ensures
        has_path(t, p) == (p.len() == 0),
{
}

proof fn lemma_prefix_step(p: Seq<KeyView>, cv: Seq<KeyView>)
    requires
        p.len() > 0,
        cv.len() > 0,
    ensures
        is_prefix_of(p, cv) == (p[0] == cv[0] && is_prefix_of(p.drop_first(), cv.drop_first())),
{
    if is_prefix_of(p, cv) {
        assert(p.drop_first() =~= cv.drop_first().subrange(0, p.len() - 1));
    }
    if p[0] == cv[0] && is_prefix_of(p.drop_first(), cv.drop_first()) {
        assert forall|k: int| 0 <= k < p.len() implies p[k] == cv.subrange(0, p.len() as int)[k] by {
            if k > 0 {
                assert(p[k] == p.drop_first()[k - 1]);
                assert(p.drop_first()[k - 1] == cv.drop_first().subrange(0, p.len() - 1)[k - 1]);
            }
        }
        assert(p =~= cv.subrange(0, p.len() as int));
    }
}

proof fn lemma_replace_child_ordered(t0: PathTree, t1: PathTree, pos: int, d: nat)
    requires
        0 <= pos < t0.children@.len(),
        t1.children@.len() == t0.children@.len(),
        forall|m: int| 0 <= m < t0.children@.len() && m != pos ==> t1.children@[m] == t0.children@[m],
        key_view(t1.children@[pos].0) == key_view(t0.children@[pos].0),
        ordered_to(t0, d),
        forall|e: nat| ordered_to(t1.children@[pos].1, e),
    ensures
        ordered_to(t1, d),
{
    let cs = t0.children@;
    let cs2 = t1.children@;
    assert forall|m: int| 0 <= m < cs2.len() implies key_view(cs2[m].0) == key_view(cs[m].0) by {}
    assert(child_keys(cs2) =~= child_keys(cs));
    assert forall|m: int| 0 <= m < cs2.len() - 1 implies key_order(key_view(#[trigger] cs2[m].0), key_view(cs2[m + 1].0)) < 0 by {
        assert(key_view(cs2[m].0) == key_view(cs[m].0));
        assert(key_view(cs2[m + 1].0) == key_view(cs[m + 1].0));
    }
    if d > 0 {
        assert forall|m: int| 0 <= m < cs2.len() implies ordered_to(#[trigger] cs2[m].1, (d - 1) as nat) by {
            if m != pos {
                assert(cs2[m] == cs[m]);
            }
        }
    }
}

proof fn lemma_replace_child_paths(t0: PathTree, t1: PathTree, pos: int, cv: Seq<KeyView>)
    requires
        0 <= pos < t0.children@.len(),
        t1.children@.len() == t0.children@.len(),
        forall|m: int| 0 <= m < t0.children@.len() && m != pos ==> t1.children@[m] == t0.children@[m],
        cv.len() > 0,
        key_view(t1.children@[pos].0) == cv[0],
        key_view(t0.children@[pos].0) == cv[0],
        child_keys(t0.children@).no_duplicates(),
        forall|q: Seq<KeyView>|
            has_path(t1.children@[pos].1, q) == (has_path(t0.children@[pos].1, q) || is_prefix_of(q, cv.drop_first())),
    ensures
        forall|p: Seq<KeyView>| has_path(t1, p) == (has_path(t0, p) || is_prefix_of(p, cv)),
{
    let cs = t0.children@;
    let cs2 = t1.children@;
    assert forall|m: int| 0 <= m < cs2.len() implies key_view(cs2[m].0) == key_view(cs[m].0) by {}
    assert(child_keys(cs2) =~= child_keys(cs));
    assert forall|p: Seq<KeyView>| has_path(t1, p) == (has_path(t0, p) || is_prefix_of(p, cv)) by {
        if p.len() > 0 {
            lemma_prefix_step(p, cv);
            lemma_find_child_at(cs, p[0]);
            lemma_find_child_at(cs2, p[0]);
            if p[0] != cv[0] {
                if exists|m: int| 0 <= m < cs.len() && key_view(#[trigger] cs[m].0) == p[0] {
                    let m = choose|m: int| 0 <= m < cs.len() && key_view(#[trigger] cs[m].0) == p[0];
                    assert(cs2[m] == cs[m]);
                } else {
                    assert forall|m: int| 0 <= m < cs2.len() implies key_view(#[trigger] cs2[m].0) != p[0] by {
                        assert(key_view(cs2[m].0) == key_view(cs[m].0));
                    }
                }
            }
        }
    }
}

proof fn lemma_add_child_ordered(t0: PathTree, t1: PathTree, pos: int, d: nat)
    requires
        0 <= pos <= t0.children@.len(),
        t1.children@.len() == t0.children@.len() + 1,
        forall|m: int| 0 <= m < pos ==> t1.children@[m] == t0.children@[m],
        forall|m: int| pos < m < t1.children@.len() ==> t1.children@[m] == t0.children@[m - 1],
        forall|m: int| 0 <= m < pos ==> key_order(key_view(#[trigger] t0.children@[m].0), key_view(t1.children@[pos].0)) < 0,
        pos < t0.children@.len() ==> key_order(key_view(t1.children@[pos].0), key_view(t0.children@[pos].0)) < 0,
        !child_keys(t0.children@).contains(key_view(t1.children@[pos].0)),
        ordered_to(t0, d),
        forall|e: nat| ordered_to(t1.children@[pos].1, e),
    ensures
        ordered_to(t1, d),
{
    let cs = t0.children@;
    let cs2 = t1.children@;
    let kv = key_view(cs2[pos].0);
    let ck = child_keys(cs);
    let ck2 = child_keys(cs2);
    assert(ck2 =~= ck.insert(pos, kv)) by {
        assert forall|m: int| 0 <= m < ck2.len() implies ck2[m] == ck.insert(pos, kv)[m] by {
            if m < pos {
                assert(cs2[m] == cs[m]);
            } else if m > pos {
                assert(cs2[m] == cs[m - 1]);
            }
        }
    }
    assert forall|a: int, b: int| 0 <= a < b < ck2.len() implies ck2[a] != ck2[b] by {
        if a == pos {
            assert(ck2[b] == ck[b - 1]);
        } else if b == pos {
            assert(ck2[a] == ck[a]);
        } else {
            let aa = if a < pos { a } else { a - 1 };
            let bb = if b < pos { b } else { b - 1 };
            assert(ck2[a] == ck[aa]);
            assert(ck2[b] == ck[bb]);
        }
    }
    assert(ck2.no_duplicates());
    assert forall|m: int| 0 <= m < cs2.len() - 1 implies key_order(key_view(#[trigger] cs2[m].0), key_view(cs2[m + 1].0)) < 0 by {
        if m + 1 < pos {
            assert(cs2[m] == cs[m] && cs2[m + 1] == cs[m + 1]);
        } else if m + 1 == pos {
            assert(cs2[m] == cs[m]);
        } else if m == pos {
            assert(cs2[m + 1] == cs[m]);
        } else {
            assert(cs2[m] == cs[m - 1] && cs2[m + 1] == cs[m]);
        }
    }
    if d > 0 {
        assert forall|m: int| 0 <= m < cs2.len() implies ordered_to(#[trigger] cs2[m].1, (d - 1) as nat) by {
            if m < pos {
                assert(cs2[m] == cs[m]);
            } else if m > pos {
                assert(cs2[m] == cs[m - 1]);
            }
        }
    }
}

proof fn lemma_add_child_paths(t0: PathTree, t1: PathTree, pos: int, cv: Seq<KeyView>)
    requires
        0 <= pos <= t0.children@.len(),
        t1.children@.len() == t0.children@.len() + 1,
        forall|m: int| 0 <= m < pos ==> t1.children@[m] == t0.children@[m],
        forall|m: int| pos < m < t1.children@.len() ==> t1.children@[m] == t0.children@[m - 1],
        cv.len() > 0,
        key_view(t1.children@[pos].0) == cv[0],
        forall|m: int| 0 <= m < t0.children@.len() ==> key_view(#[trigger] t0.children@[m].0) != cv[0],
        child_keys(t0.children@).no_duplicates(),
        child_keys(t1.children@).no_duplicates(),
        forall|q: Seq<KeyView>|
            has_path(t1.children@[pos].1, q) == (q.len() == 0 || is_prefix_of(q, cv.drop_first())),
    ensures
        forall|p: Seq<KeyView>| has_path(t1, p) == (has_path(t0, p) || is_prefix_of(p, cv)),
{
    let cs = t0.children@;
    let cs2 = t1.children@;
    assert forall|p: Seq<KeyView>| has_path(t1, p) == (has_path(t0, p) || is_prefix_of(p, cv)) by {
        if p.len() > 0 {
            lemma_prefix_step(p, cv);
            lemma_find_child_at(cs, p[0]);
            lemma_find_child_at(cs2, p[0]);
            if p[0] != cv[0] {
                if exists|m: int| 0 <= m < cs.len() && key_view(#[trigger] cs[m].0) == p[0] {
                    let m = choose|m: int| 0 <= m < cs.len() && key_view(#[trigger] cs[m].0) == p[0];
                    let m2 = if m < pos { m } else { m + 1 };
                    assert(cs2[m2] == cs[m]);
                } else {
                    assert forall|m: int| 0 <= m < cs2.len() implies key_view(#[trigger] cs2[m].0) != p[0] by {
                        if m < pos {
                            assert(cs2[m] == cs[m]);
                        } else if m > pos {
                            assert(cs2[m] == cs[m - 1]);
                        }
                    }
                }
            } else {
                assert(find_child(cs2, cv[0]) == Some(cs2[pos].1));
                assert(find_child(cs, cv[0]) is None);
                if p.drop_first().len() == 0 {
                    assert(p.drop_first() =~= cv.drop_first().subrange(0, 0));
                }
            }
        }
    }
}

impl PathTree {
    /// A tree without children.
    pub fn new() -> (res: Self)
        ensures
            res.children@.len() == 0,
            ordered(res),
    {
        let res = PathTree { children: Vec::new() };
        assert forall|d: nat| ordered_to(res, d) by {
            assert(child_keys(res.children@) =~= Seq::<KeyView>::empty());
        }
        res
    }

    /// Inserts one `$ref` chain of keys, leaf first: each key walks one
    /// level deeper, reusing a child with the same key and otherwise adding
    /// one in key order. Afterwards the tree holds exactly the chains it
    /// held before and the prefixes of `chain`.
    pub fn insert(&mut self, chain: Vec<PathTreeKey>)
        requires
            ordered(*old(self)),
        ensures
            ordered(*final(self)),
            forall|p: Seq<KeyView>|
                has_path(*final(self), p) == (has_path(*old(self), p) || is_prefix_of(p, chain_view(chain@))),
    {
        self.insert_from(&chain, 0);
        assert(chain_view(chain@).subrange(0, chain@.len() as int) =~= chain_view(chain@));
    }

    #[verifier::rlimit(80)]
    #[verifier::spinoff_prover]
    fn insert_from(&mut self, chain: &Vec<PathTreeKey>, i: usize)
        requires
            i <= chain@.len(),
            ordered(*old(self)),
        ensures
            ordered(*final(self)),
            forall|p: Seq<KeyView>|
                has_path(*final(self), p) == (has_path(*old(self), p) || is_prefix_of(
                    p,
                    chain_view(chain@).subrange(i as int, chain@.len() as int),
                )),
        decreases chain@.len() - i,
    {
        let ghost t0 = *self;
        let ghost cs = self.children@;
        let ghost cv = chain_view(chain@).subrange(i as int, chain@.len() as int);
        if i == chain.len() {
            assert forall|p: Seq<KeyView>| has_path(*self, p) == (has_path(t0, p) || is_prefix_of(p, cv)) by {
                if is_prefix_of(p, cv) {
                    assert(p.len() == 0);
                }
            }
            return;
        }
        let key = &chain[i];
        let ghost kv = key_view(*key);
        assert(cv[0] == kv);
        assert(cv.drop_first() =~= chain_view(chain@).subrange(i + 1, chain@.len() as int));
        assert(ordered_to(t0, 0));
        let mut found: Option<usize> = None;
        let mut j: usize = 0;
        while j < self.children.len() && found.is_none()
            invariant
                j <= cs.len(),
                self.children@ == cs,
                kv == key_view(*key),
                found is None ==> forall|m: int| 0 <= m < j ==> key_view(#[trigger] cs[m].0) != kv,
                found matches Some(f) ==> f < cs.len() && key_view(cs[f as int].0) == kv,
            decreases cs.len() - j,
        {
            let c = compare_keys(&self.children[j].0, key);
            proof {
                lemma_key_order(key_view(cs[j as int].0), kv);
            }
            if c == 0 {
                found = Some(j);
            }
            j = j + 1;
        }
        match found {
            Some(pos) => {
                let (k, mut sub) = self.children.remove(pos);
                assert(sub == cs[pos as int].1);
                proof {
                    assert forall|d: nat| ordered_to(sub, d) by {
                        assert(ordered_to(t0, d + 1));
                    }
                }
                sub.insert_from(chain, i + 1);
                self.children.insert(pos, (k, sub));
                proof {
                    assert forall|d: nat| ordered_to(*self, d) by {
                        assert(ordered_to(t0, d));
                        lemma_replace_child_ordered(t0, *self, pos as int, d);
                    }
                    lemma_replace_child_paths(t0, *self, pos as int, cv);
                }
            },
            None => {
                let mut pos: usize = 0;
                while pos < self.children.len() && compare_keys(&self.children[pos].0, key) < 0
                    invariant
                        pos <= cs.len(),
                        self.children@ == cs,
                        kv == key_view(*key),
                        forall|m: int| 0 <= m < pos ==> key_order(key_view(#[trigger] cs[m].0), kv) < 0,
                    decreases cs.len() - pos,
                {
                    pos = pos + 1;
                }
                proof {
                    if pos < cs.len() {
                        lemma_key_order(key_view(cs[pos as int].0), kv);
                    }
                    assert forall|m: int| 0 <= m < child_keys(cs).len() implies child_keys(cs)[m] != kv by {
                        assert(child_keys(cs)[m] == key_view(cs[m].0));
                    }
                }
                let mut sub = PathTree::new();
                let ghost sub0 = sub;
                sub.insert_from(chain, i + 1);
                proof {
                    assert forall|q: Seq<KeyView>| has_path(sub, q) == (q.len() == 0 || is_prefix_of(q, cv.drop_first())) by {
                        lemma_empty_paths(sub0, q);
                    }
                }
                let k = key.duplicate();
                self.children.insert(pos, (k, sub));
                proof {
                    assert forall|d: nat| ordered_to(*self, d) by {
                        assert(ordered_to(t0, d));
                        lemma_add_child_ordered(t0, *self, pos as int, d);
                    }
                    assert(ordered_to(*self, 0));
                    lemma_add_child_paths(t0, *self, pos as int, cv);
                }
            },
        }
    }
}

/// `t1` is what inserting `chain` into `t0` leaves (see `PathTree::insert`).
pub open spec fn inserted(t0: PathTree, chain: Seq<KeyView>, t1: PathTree) -> bool {
    &&& ordered(t1)
    &&& forall|p: Seq<KeyView>| has_path(t1, p) == (has_path(t0, p) || is_prefix_of(p, chain))
}

/// Inserting a chain makes the whole chain a path of the tree and keeps
/// every path the tree held; each path it adds is a non-empty prefix of the
/// chain, so it adds at most one node per key of the chain, and none for an
/// empty chain; inserting the same chain again adds nothing.
pub proof fn law_insert_keeps_bounds_and_repeats(t0: PathTree, chain: Seq<KeyView>, t1: PathTree, t2: PathTree)
    requires
        inserted(t0, chain, t1),
        inserted(t1, chain, t2),
    ensures
        has_path(t1, chain),
        forall|p: Seq<KeyView>| has_path(t0, p) ==> has_path(t1, p),
        forall|p: Seq<KeyView>|
            has_path(t1, p) && !has_path(t0, p) ==> 1 <= p.len() <= chain.len() && p == chain.subrange(0, p.len() as int),
        chain.len() == 0 ==> forall|p: Seq<KeyView>| has_path(t1, p) == has_path(t0, p),
        forall|p: Seq<KeyView>| has_path(t2, p) == has_path(t1, p),
{
    assert(is_prefix_of(chain, chain)) by {
        assert(chain.subrange(0, chain.len() as int) =~= chain);
    }
    assert forall|p: Seq<KeyView>| has_path(t1, p) && !has_path(t0, p) implies 1 <= p.len() <= chain.len() && p
        == chain.subrange(0, p.len() as int) by {
        assert(p.len() != 0);
    }
    assert forall|p: Seq<KeyView>| chain.len() == 0 implies has_path(t1, p) == has_path(t0, p) by {
        if chain.len() == 0 && is_prefix_of(p, chain) {
            assert(p.len() == 0);
        }
    }
}

/// The key that `PathTreeKey::parse` makes of a `$ref` stack entry.
pub open spec fn key_parse_spec(entry: Seq<char>, op_ids: Map<Seq<Seq<char>>, Seq<char>>) -> KeyView {
    if !ends_in_ref_spec(entry) {
        (classify_spec(parse_pointer_spec(entry), op_ids), seq![])
    } else {
        let segs = parse_pointer_spec(strip_ref_spec(entry));
        if segs.len() <= 3 {
            (classify_spec(segs, op_ids), seq![])
        } else {
            (classify_spec(segs.subrange(0, 3), op_ids), segs.subrange(3, segs.len() as int))
        }
    }
}

/// The chain of keys of a `$ref` stack: its entries after the first (the
/// changed location itself), each parsed as a key.
pub open spec fn stack_chain(stack: Seq<Seq<char>>, op_ids: Map<Seq<Seq<char>>, Seq<char>>) -> Seq<KeyView> {
    if stack.len() == 0 {
        seq![]
    } else {
        stack.drop_first().map_values(|e: Seq<char>| key_parse_spec(e, op_ids))
    }
}

/// `p` is a prefix of the chain of one of the stacks.
pub open spec fn in_some_chain(
    stacks: Seq<Vec<String>>,
    op_ids: Map<Seq<Seq<char>>, Seq<char>>,
    p: Seq<KeyView>,
) -> bool {
    exists|i: int| 0 <= i < stacks.len() && is_prefix_of(p, stack_chain(strings_view(#[trigger] stacks[i]@), op_ids))
}

fn stack_keys(stack: &Vec<String>, op_ids: &OperationIdMap) -> (res: Vec<PathTreeKey>)
    ensures
        chain_view(res@) == stack_chain(strings_view(stack@), op_ids@),
{
    let ghost sv = strings_view(stack@);
    let mut res: Vec<PathTreeKey> = Vec::new();
    if stack.len() == 0 {
        assert(chain_view(res@) =~= stack_chain(sv, op_ids@));
        return res;
    }
    let mut j: usize = 1;
    while j < stack.len()
        invariant
            1 <= j <= stack@.len(),
            sv == strings_view(stack@),
            chain_view(res@) =~= sv.subrange(1, j as int).map_values(|e: Seq<char>| key_parse_spec(e, op_ids@)),
        decreases stack@.len() - j,
    {
        let k = PathTreeKey::parse(stack[j].as_str(), op_ids);
        let ghost r0 = res@;
        proof {
            assert(sv[j as int] == stack@[j as int]@);
            assert(key_view(k) == key_parse_spec(sv[j as int], op_ids@));
        }
        res.push(k);
        proof {
            assert(chain_view(res@) =~= chain_view(r0).push(key_view(k)));
            assert(sv.subrange(1, j + 1) =~= sv.subrange(1, j as int).push(sv[j as int]));
            assert(sv.subrange(1, j + 1).map_values(|e: Seq<char>| key_parse_spec(e, op_ids@)) =~= sv.subrange(
                1,
                j as int,
            ).map_values(|e: Seq<char>| key_parse_spec(e, op_ids@)).push(key_parse_spec(sv[j as int], op_ids@)));
        }
        j = j + 1;
    }
    assert(sv.subrange(1, sv.len() as int) =~= sv.drop_first());
    res
}

impl PathTree {
    /// The tree of the `$ref` stacks of a change: each stack (changed
    /// location first, originating endpoint last) without its first entry,
    /// parsed into keys and inserted. The tree holds exactly the prefixes
    /// of those chains.
    pub fn build(stacks: &Vec<Vec<String>>, op_ids: &OperationIdMap) -> (res: PathTree)
        ensures
            ordered(res),
            forall|p: Seq<KeyView>| has_path(res, p) == (p.len() == 0 || in_some_chain(stacks@, op_ids@, p)),
    {
        let mut tree = PathTree::new();
        proof {
            assert forall|p: Seq<KeyView>| has_path(tree, p) == (p.len() == 0 || in_some_chain(stacks@.subrange(0, 0), op_ids@, p)) by {
                lemma_empty_paths(tree, p);
            }
        }
        let mut k: usize = 0;
        while k < stacks.len()
            invariant
                k <= stacks@.len(),
                ordered(tree),
                forall|p: Seq<KeyView>|
                    has_path(tree, p) == (p.len() == 0 || in_some_chain(stacks@.subrange(0, k as int), op_ids@, p)),
            decreases stacks@.len() - k,
        {
            let chain = stack_keys(&stacks[k], op_ids);
            let ghost cv = chain_view(chain@);
            let ghost before = tree;
            tree.insert(chain);
            proof {
                let s0 = stacks@.subrange(0, k as int);
                let s1 = stacks@.subrange(0, k + 1);
                assert forall|p: Seq<KeyView>| has_path(tree, p) == (p.len() == 0 || in_some_chain(s1, op_ids@, p)) by {
                    if in_some_chain(s0, op_ids@, p) {
                        let i = choose|i: int|
                            0 <= i < s0.len() && is_prefix_of(p, stack_chain(strings_view(#[trigger] s0[i]@), op_ids@));
                        assert(s1[i] == s0[i]);
                    }
                    if is_prefix_of(p, cv) {
                        assert(s1[k as int] == stacks@[k as int]);
                    }
                    if in_some_chain(s1, op_ids@, p) {
                        let i = choose|i: int|
                            0 <= i < s1.len() && is_prefix_of(p, stack_chain(strings_view(#[trigger] s1[i]@), op_ids@));
                        if i < k {
                            assert(s0[i] == s1[i]);
                        }
                    }
                }
            }
            k = k + 1;
        }
        assert(stacks@.subrange(0, stacks@.len() as int) =~= stacks@);
        tree
    }
}

} // verus!
