//! Endpoint groups: the chains of an inverted reference tree, regrouped by
//! the endpoint at their far end, so that a change can be shown endpoint
//! first.

use vstd::prelude::*;
use crate::docpath::{base_view, DocumentBasePath, PathTreeKey};
use crate::tree::{
    chain_view, child_keys, compare_bases, find_child, has_path, is_prefix_of, key_order, key_view,
    lemma_empty_paths, lemma_find_child_at, lemma_find_child_some, lemma_key_order, ordered, ordered_to,
    KeyView, PathTree,
};

verus! {

/// Abstract value of a document base.
pub type BaseView = (int, Seq<Seq<char>>, Option<Seq<char>>);

/// Order of bases (the order of the derived `Ord`).
pub open spec fn base_order(a: BaseView, b: BaseView) -> int {
    key_order((a, seq![]), (b, seq![]))
}

/// A tree whose children are in key order at every node.
#[verifier::opaque]
pub open spec fn tree_ordered(t: PathTree) -> bool {
    ordered(t)
}

/// Base `a` comes before base `b`.
#[verifier::opaque]
pub open spec fn base_before(a: BaseView, b: BaseView) -> bool {
    base_order(a, b) < 0
}

/// One originating endpoint, with the tree of `$ref` chains that lead from
/// it back toward the changed component (endpoint first).
#[derive(Debug)]
pub struct EndpointGroup {
    /// Base of the originating endpoint.
    pub endpoint_base: DocumentBasePath,
    /// The chains from the endpoint toward the changed component, merged
    /// where they share a prefix.
    pub intermediates: PathTree,
}

/// The groups hold one with base `b` whose tree holds the chain `q`.
#[verifier::opaque]
pub open spec fn group_has(gs: Seq<EndpointGroup>, b: BaseView, q: Seq<KeyView>) -> bool {
    exists|i: int| 0 <= i < gs.len() && base_view(#[trigger] gs[i].endpoint_base) == b && has_path(gs[i].intermediates, q)
}

/// The groups have distinct bases in increasing order, and ordered trees.
#[verifier::opaque]
pub open spec fn groups_ordered(gs: Seq<EndpointGroup>) -> bool {
    &&& forall|i: int, j: int|
        0 <= i < j < gs.len() ==> base_view(#[trigger] gs[i].endpoint_base) != base_view(#[trigger] gs[j].endpoint_base)
    &&& forall|i: int|
        0 <= i < gs.len() - 1 ==> base_before(base_view(#[trigger] gs[i].endpoint_base), base_view(gs[i + 1].endpoint_base))
    &&& forall|i: int| 0 <= i < gs.len() ==> tree_ordered(#[trigger] gs[i].intermediates)
}

/// Replacing the group at `pos` by an ordered one with the same base keeps
/// the groups ordered.
proof fn lemma_update_group(g0: Seq<EndpointGroup>, pos: int, g: EndpointGroup)
    requires
        groups_ordered(g0),
        0 <= pos < g0.len(),
        base_view(g.endpoint_base) == base_view(g0[pos].endpoint_base),
        tree_ordered(g.intermediates),
    ensures
        groups_ordered(g0.update(pos, g)),
{
    reveal(groups_ordered);
    let g1 = g0.update(pos, g);
    assert forall|i: int| 0 <= i < g1.len() implies tree_ordered(#[trigger] g1[i].intermediates) by {
        if i != pos {
            assert(g1[i] == g0[i]);
        }
    }
    assert forall|i: int| 0 <= i < g1.len() implies base_view(#[trigger] g1[i].endpoint_base) == base_view(
        g0[i].endpoint_base,
    ) by {}
}

/// What the groups hold after the group at `pos` gained the prefixes of
/// `cv`.
proof fn lemma_update_group_has(
    g0: Seq<EndpointGroup>,
    pos: int,
    g: EndpointGroup,
    cv: Seq<KeyView>,
    b: BaseView,
    q: Seq<KeyView>,
)
    requires
        groups_ordered(g0),
        0 <= pos < g0.len(),
        base_view(g.endpoint_base) == base_view(g0[pos].endpoint_base),
        has_path(g.intermediates, q) == (has_path(g0[pos].intermediates, q) || is_prefix_of(q, cv)),
    ensures
        group_has(g0.update(pos, g), b, q) == (group_has(g0, b, q) || (b == base_view(g.endpoint_base)
            && is_prefix_of(q, cv))),
{
    reveal(groups_ordered);
    reveal(group_has);
    let g1 = g0.update(pos, g);
    if group_has(g1, b, q) {
        let i = choose|i: int|
            0 <= i < g1.len() && base_view(#[trigger] g1[i].endpoint_base) == b && has_path(g1[i].intermediates, q);
        if i != pos {
            assert(g1[i] == g0[i]);
        } else if has_path(g0[pos].intermediates, q) {
            assert(base_view(g0[pos].endpoint_base) == b);
        }
    }
    if group_has(g0, b, q) {
        let i = choose|i: int|
            0 <= i < g0.len() && base_view(#[trigger] g0[i].endpoint_base) == b && has_path(g0[i].intermediates, q);
        if i != pos {
            assert(g1[i] == g0[i]);
        } else {
            assert(base_view(g1[i].endpoint_base) == b && has_path(g1[i].intermediates, q));
        }
    }
    if b == base_view(g.endpoint_base) && is_prefix_of(q, cv) {
        assert(base_view(g1[pos].endpoint_base) == b && has_path(g1[pos].intermediates, q));
    }
}

/// Inserting at `pos` a group with a new base that belongs there in base
/// order, whose tree holds exactly the prefixes of `cv`.
proof fn lemma_insert_group(g0: Seq<EndpointGroup>, pos: int, g: EndpointGroup, cv: Seq<KeyView>)
    requires
        groups_ordered(g0),
        0 <= pos <= g0.len(),
        forall|m: int| 0 <= m < g0.len() ==> base_view(#[trigger] g0[m].endpoint_base) != base_view(g.endpoint_base),
        forall|m: int| 0 <= m < pos ==> base_before(base_view(#[trigger] g0[m].endpoint_base), base_view(g.endpoint_base)),
        pos < g0.len() ==> base_before(base_view(g.endpoint_base), base_view(g0[pos].endpoint_base)),
        tree_ordered(g.intermediates),
        forall|q: Seq<KeyView>| has_path(g.intermediates, q) == is_prefix_of(q, cv),
    ensures
        groups_ordered(g0.insert(pos, g)),
        forall|b: BaseView, q: Seq<KeyView>|
            #[trigger] group_has(g0.insert(pos, g), b, q) == (group_has(g0, b, q) || (b == base_view(g.endpoint_base)
                && is_prefix_of(q, cv))),
{
    lemma_insert_group_ordered(g0, pos, g);
    assert forall|b: BaseView, q: Seq<KeyView>|
        #[trigger] group_has(g0.insert(pos, g), b, q) == (group_has(g0, b, q) || (b == base_view(g.endpoint_base)
            && is_prefix_of(q, cv))) by {
        lemma_insert_group_has(g0, pos, g, cv, b, q);
    }
}

proof fn lemma_insert_group_has(
    g0: Seq<EndpointGroup>,
    pos: int,
    g: EndpointGroup,
    cv: Seq<KeyView>,
    b: BaseView,
    q: Seq<KeyView>,
)
    requires
        0 <= pos <= g0.len(),
        has_path(g.intermediates, q) == is_prefix_of(q, cv),
    ensures
        group_has(g0.insert(pos, g), b, q) == (group_has(g0, b, q) || (b == base_view(g.endpoint_base)
            && is_prefix_of(q, cv))),
{
    reveal(group_has);
    let g1 = g0.insert(pos, g);
    if group_has(g1, b, q) {
        let i = choose|i: int|
            0 <= i < g1.len() && base_view(#[trigger] g1[i].endpoint_base) == b && has_path(g1[i].intermediates, q);
        if i < pos {
            assert(g1[i] == g0[i]);
        } else if i > pos {
            assert(g1[i] == g0[i - 1]);
        }
    }
    if group_has(g0, b, q) {
        let i = choose|i: int|
            0 <= i < g0.len() && base_view(#[trigger] g0[i].endpoint_base) == b && has_path(g0[i].intermediates, q);
        if i < pos {
            assert(g1[i] == g0[i]);
        } else {
            assert(g1[i + 1] == g0[i]);
        }
    }
    if b == base_view(g.endpoint_base) && is_prefix_of(q, cv) {
        assert(base_view(g1[pos].endpoint_base) == b && has_path(g1[pos].intermediates, q));
    }
}

proof fn lemma_insert_group_ordered(g0: Seq<EndpointGroup>, pos: int, g: EndpointGroup)
    requires
        groups_ordered(g0),
        0 <= pos <= g0.len(),
        forall|m: int| 0 <= m < g0.len() ==> base_view(#[trigger] g0[m].endpoint_base) != base_view(g.endpoint_base),
        forall|m: int| 0 <= m < pos ==> base_before(base_view(#[trigger] g0[m].endpoint_base), base_view(g.endpoint_base)),
        pos < g0.len() ==> base_before(base_view(g.endpoint_base), base_view(g0[pos].endpoint_base)),
        tree_ordered(g.intermediates),
    ensures
        groups_ordered(g0.insert(pos, g)),
{
    reveal(groups_ordered);
    let g1 = g0.insert(pos, g);
    assert forall|i: int| 0 <= i < g1.len() implies tree_ordered(#[trigger] g1[i].intermediates) by {
        if i < pos {
            assert(g1[i] == g0[i]);
        } else if i > pos {
            assert(g1[i] == g0[i - 1]);
        }
    }
    assert forall|i: int, k: int|
        0 <= i < k < g1.len() implies base_view(#[trigger] g1[i].endpoint_base) != base_view(
            #[trigger] g1[k].endpoint_base,
        ) by {
        if i < pos {
            assert(g1[i] == g0[i]);
        } else if i > pos {
            assert(g1[i] == g0[i - 1]);
        }
        if k < pos {
            assert(g1[k] == g0[k]);
        } else if k > pos {
            assert(g1[k] == g0[k - 1]);
        }
    }
    assert forall|i: int| 0 <= i < g1.len() - 1 implies base_before(
        base_view(#[trigger] g1[i].endpoint_base),
        base_view(g1[i + 1].endpoint_base),
    ) by {
        if i + 1 < pos {
            assert(g1[i] == g0[i]);
            assert(g1[i + 1] == g0[i + 1]);
        } else if i + 1 == pos {
            assert(g1[i] == g0[i]);
        } else if i == pos {
            assert(g1[i + 1] == g0[i]);
        } else {
            assert(g1[i] == g0[i - 1]);
            assert(g1[i + 1] == g0[i]);
        }
    }
}

/// The position of the group with base `base`, if there is one.
fn find_group(groups: &Vec<EndpointGroup>, base: &DocumentBasePath) -> (res: Option<usize>)
    ensures
        res matches Some(pos) ==> pos < groups@.len() && base_view(groups@[pos as int].endpoint_base) == base_view(*base),
        res is None ==> forall|m: int| 0 <= m < groups@.len() ==> base_view(#[trigger] groups@[m].endpoint_base) != base_view(*base),
{
    let mut j: usize = 0;
    while j < groups.len()
        invariant
            j <= groups@.len(),
            forall|m: int| 0 <= m < j ==> base_view(#[trigger] groups@[m].endpoint_base) != base_view(*base),
        decreases groups@.len() - j,
    {
        let c = compare_bases(&groups[j].endpoint_base, base);
        proof {
            lemma_key_order((base_view(groups@[j as int].endpoint_base), seq![]), (base_view(*base), seq![]));
        }
        if c == 0 {
            return Some(j);
        }
        j = j + 1;
    }
    None
}

/// Adds the chain to the tree of the group at `pos`.
fn extend_group(groups: &mut Vec<EndpointGroup>, pos: usize, chain: Vec<PathTreeKey>)
    requires
        groups_ordered(old(groups)@),
        pos < old(groups)@.len(),
    ensures
        groups_ordered(final(groups)@),
        forall|b: BaseView, q: Seq<KeyView>|
            #[trigger] group_has(final(groups)@, b, q) == (group_has(old(groups)@, b, q) || (b == base_view(
                old(groups)@[pos as int].endpoint_base,
            ) && is_prefix_of(q, chain_view(chain@)))),
{
    let ghost g0 = groups@;
    let ghost cv = chain_view(chain@);
    let mut g = groups.remove(pos);
    assert(g == g0[pos as int]);
    proof {
        reveal(groups_ordered);
        assert(tree_ordered(g.intermediates));
        reveal(tree_ordered);
    }
    g.intermediates.insert(chain);
    groups.insert(pos, g);
    proof {
        reveal(tree_ordered);
        assert(groups@ =~= g0.update(pos as int, g));
        lemma_update_group(g0, pos as int, g);
        assert forall|b: BaseView, q: Seq<KeyView>|
            #[trigger] group_has(groups@, b, q) == (group_has(g0, b, q) || (b == base_view(g0[pos as int].endpoint_base)
                && is_prefix_of(q, cv))) by {
            lemma_update_group_has(g0, pos as int, g, cv, b, q);
        }
    }
}

/// A tree holding just the chain.
fn chain_tree(chain: Vec<PathTreeKey>) -> (t: PathTree)
    ensures
        tree_ordered(t),
        forall|q: Seq<KeyView>| has_path(t, q) == is_prefix_of(q, chain_view(chain@)),
{
    let ghost cv = chain_view(chain@);
    let mut t = PathTree::new();
    let ghost t0 = t;
    t.insert(chain);
    proof {
        assert forall|q: Seq<KeyView>| has_path(t, q) == is_prefix_of(q, cv) by {
            lemma_empty_paths(t0, q);
            if q.len() == 0 {
                assert(q =~= cv.subrange(0, 0));
            }
        }
        reveal(tree_ordered);
    }
    t
}

/// Adds a group with a new base, in base order, holding the chain.
fn add_group(groups: &mut Vec<EndpointGroup>, base: &DocumentBasePath, chain: Vec<PathTreeKey>)
    requires
        groups_ordered(old(groups)@),
        forall|m: int|
            0 <= m < old(groups)@.len() ==> base_view(#[trigger] old(groups)@[m].endpoint_base) != base_view(*base),
    ensures
        groups_ordered(final(groups)@),
        forall|b: BaseView, q: Seq<KeyView>|
            #[trigger] group_has(final(groups)@, b, q) == (group_has(old(groups)@, b, q) || (b == base_view(*base)
                && is_prefix_of(q, chain_view(chain@)))),
{
    let ghost g0 = groups@;
    let ghost bv = base_view(*base);
    let ghost cv = chain_view(chain@);
    let mut pos: usize = 0;
    while pos < groups.len() && compare_bases(&groups[pos].endpoint_base, base) < 0
        invariant
            pos <= g0.len(),
            groups@ == g0,
            bv == base_view(*base),
            forall|m: int| 0 <= m < pos ==> base_before(base_view(#[trigger] g0[m].endpoint_base), bv),
        decreases g0.len() - pos,
    {
        assert(base_before(base_view(g0[pos as int].endpoint_base), bv)) by {
            reveal(base_before);
        }
        pos = pos + 1;
    }
    assert(pos < g0.len() ==> base_before(bv, base_view(g0[pos as int].endpoint_base))) by {
        reveal(base_before);
        if pos < g0.len() {
            lemma_key_order((base_view(g0[pos as int].endpoint_base), seq![]), (bv, seq![]));
        }
    }
    let t = chain_tree(chain);
    let g = EndpointGroup { endpoint_base: base.duplicate(), intermediates: t };
    groups.insert(pos, g);
    proof {
        assert(groups@ =~= g0.insert(pos as int, g));
        lemma_insert_group(g0, pos as int, g, cv);
        assert forall|b: BaseView, q: Seq<KeyView>|
            #[trigger] group_has(groups@, b, q) == (group_has(g0, b, q) || (b == bv && is_prefix_of(q, cv))) by {
            assert(group_has(g0.insert(pos as int, g), b, q) == (group_has(g0, b, q) || (b == base_view(
                g.endpoint_base,
            ) && is_prefix_of(q, cv))));
        }
    }
}

/// Adds the chain `chain` to the group of `base`, creating the group (in
/// base order) if there is none.
fn add_chain(groups: &mut Vec<EndpointGroup>, base: &DocumentBasePath, chain: Vec<PathTreeKey>)
    requires
        groups_ordered(old(groups)@),
    ensures
        groups_ordered(final(groups)@),
        forall|b: BaseView, q: Seq<KeyView>|
            #[trigger] group_has(final(groups)@, b, q) == (group_has(old(groups)@, b, q) || (b == base_view(*base)
                && is_prefix_of(q, chain_view(chain@)))),
{
    match find_group(groups, base) {
        Some(pos) => extend_group(groups, pos, chain),
        None => add_group(groups, base, chain),
    }
}

/// The node reached from the root of `t` along the keys `p`.
pub open spec fn node_at(t: PathTree, p: Seq<KeyView>) -> Option<PathTree>
    decreases p.len(),
{
    if p.len() == 0 {
        Some(t)
    } else {
        match find_child(t.children@, p[0]) {
            Some(c) => node_at(c, p.drop_first()),
            None => None,
        }
    }
}

/// `p` leads from the root of `t` to a node without children: the last key
/// of `p` is an originating endpoint.
pub open spec fn is_leaf_path(t: PathTree, p: Seq<KeyView>) -> bool {
    &&& p.len() > 0
    &&& match node_at(t, p) {
        Some(n) => n.children@.len() == 0,
        None => false,
    }
}

/// Below the keys `anc`, `t` has a leaf whose key has base `b` and whose
/// chain of keys above it (`anc` included), read from the leaf upwards,
/// starts with `q`.
#[verifier::opaque]
pub open spec fn leaf_covers(t: PathTree, anc: Seq<KeyView>, b: BaseView, q: Seq<KeyView>) -> bool {
    exists|s: Seq<KeyView>|
        #[trigger] is_leaf_path(t, s) && s.last().0 == b && is_prefix_of(q, (anc + s).drop_last().reverse())
}

/// `s` leads through the child at `m` of a node with children `cs` to a
/// leaf.
pub open spec fn child_leaf(cs: Seq<(PathTreeKey, PathTree)>, m: int, s: Seq<KeyView>) -> bool {
    &&& s.len() > 0
    &&& s[0] == key_view(cs[m].0)
    &&& if cs[m].1.children@.len() == 0 {
        s.len() == 1
    } else {
        is_leaf_path(cs[m].1, s.drop_first())
    }
}

/// Like `leaf_covers`, for the leaves through the child at `m`.
#[verifier::opaque]
pub open spec fn child_covers(
    cs: Seq<(PathTreeKey, PathTree)>,
    m: int,
    anc: Seq<KeyView>,
    b: BaseView,
    q: Seq<KeyView>,
) -> bool {
    exists|s: Seq<KeyView>|
        #[trigger] child_leaf(cs, m, s) && s.last().0 == b && is_prefix_of(q, (anc + s).drop_last().reverse())
}

/// With distinct child keys, the leaf paths of a node are those through one
/// of its children.
proof fn lemma_leaf_paths(t: PathTree, s: Seq<KeyView>)
    requires
        child_keys(t.children@).no_duplicates(),
    ensures
        is_leaf_path(t, s) == exists|m: int| 0 <= m < t.children@.len() && #[trigger] child_leaf(t.children@, m, s),
{
    let cs = t.children@;
    lemma_find_child_at(cs, s[0]);
    lemma_find_child_some(cs, s[0]);
    if is_leaf_path(t, s) {
        let m = choose|i: int|
            0 <= i < cs.len() && key_view(#[trigger] cs[i].0) == s[0] && find_child(cs, s[0]) == Some(cs[i].1)
                && forall|j: int| 0 <= j < i ==> key_view(#[trigger] cs[j].0) != s[0];
        let c = cs[m].1;
        assert(node_at(t, s) == node_at(c, s.drop_first()));
        if c.children@.len() == 0 && s.len() > 1 {
            assert(find_child(c.children@, s.drop_first()[0]) is None);
            assert(node_at(c, s.drop_first()) is None);
        }
        if c.children@.len() > 0 && s.len() == 1 {
            assert(node_at(c, s.drop_first()) == Some(c));
        }
        assert(child_leaf(cs, m, s));
    }
    if exists|m: int| 0 <= m < cs.len() && #[trigger] child_leaf(cs, m, s) {
        let m = choose|m: int| 0 <= m < cs.len() && #[trigger] child_leaf(cs, m, s);
        let c = cs[m].1;
        assert(find_child(cs, s[0]) == Some(c));
        assert(node_at(t, s) == node_at(c, s.drop_first()));
        if c.children@.len() == 0 {
            assert(node_at(c, s.drop_first()) == Some(c));
        }
    }
}

/// A child of an ordered tree is ordered, and the children have distinct
/// keys.
pub(crate) proof fn lemma_child_ordered(t: PathTree, m: int)
    requires
        tree_ordered(t),
        0 <= m < t.children@.len(),
    ensures
        tree_ordered(t.children@[m].1),
        child_keys(t.children@).no_duplicates(),
{
    reveal(tree_ordered);
    assert(ordered_to(t, 0));
    assert forall|d: nat| ordered_to(t.children@[m].1, d) by {
        assert(ordered_to(t, d + 1));
    }
}

/// The leaves through a child without children: the child itself.
proof fn lemma_leaf_child_covers(cs: Seq<(PathTreeKey, PathTree)>, m: int, av: Seq<KeyView>, b: BaseView, q: Seq<KeyView>)
    requires
        0 <= m < cs.len(),
        cs[m].1.children@.len() == 0,
    ensures
        child_covers(cs, m, av, b, q) == (b == key_view(cs[m].0).0 && is_prefix_of(q, av.reverse())),
{
    reveal(child_covers);
    let s1 = seq![key_view(cs[m].0)];
    assert((av + s1).drop_last() =~= av);
    if child_covers(cs, m, av, b, q) {
        let s = choose|s: Seq<KeyView>|
            #[trigger] child_leaf(cs, m, s) && s.last().0 == b && is_prefix_of(q, (av + s).drop_last().reverse());
        assert(s =~= s1);
    }
    if b == key_view(cs[m].0).0 && is_prefix_of(q, av.reverse()) {
        assert(child_leaf(cs, m, s1));
    }
}

/// The leaves through a child with children: those of the child, one key
/// further down.
proof fn lemma_inner_child_covers(cs: Seq<(PathTreeKey, PathTree)>, m: int, av: Seq<KeyView>, b: BaseView, q: Seq<KeyView>)
    requires
        0 <= m < cs.len(),
        cs[m].1.children@.len() > 0,
    ensures
        child_covers(cs, m, av, b, q) == leaf_covers(cs[m].1, av.push(key_view(cs[m].0)), b, q),
{
    reveal(child_covers);
    reveal(leaf_covers);
    let kv = key_view(cs[m].0);
    let child = cs[m].1;
    if child_covers(cs, m, av, b, q) {
        let s = choose|s: Seq<KeyView>|
            #[trigger] child_leaf(cs, m, s) && s.last().0 == b && is_prefix_of(q, (av + s).drop_last().reverse());
        let s2 = s.drop_first();
        assert(av + s =~= av.push(kv) + s2);
        assert(is_leaf_path(child, s2));
        assert(s.last() == s2.last());
    }
    if leaf_covers(child, av.push(kv), b, q) {
        let s2 = choose|s: Seq<KeyView>|
            #[trigger] is_leaf_path(child, s) && s.last().0 == b && is_prefix_of(q, (av.push(kv) + s).drop_last().reverse());
        let s = seq![kv] + s2;
        assert(s.drop_first() =~= s2);
        assert(av + s =~= av.push(kv) + s2);
        assert(child_leaf(cs, m, s));
        assert(s.last() == s2.last());
    }
}

/// The leaves of a node with distinct child keys are those through its
/// children.
proof fn lemma_leaf_covers_children(t: PathTree, av: Seq<KeyView>, b: BaseView, q: Seq<KeyView>)
    requires
        child_keys(t.children@).no_duplicates(),
    ensures
        leaf_covers(t, av, b, q) == exists|m: int| 0 <= m < t.children@.len() && #[trigger] child_covers(t.children@, m, av, b, q),
{
    reveal(child_covers);
    reveal(leaf_covers);
    let cs = t.children@;
    if leaf_covers(t, av, b, q) {
        let s = choose|s: Seq<KeyView>|
            #[trigger] is_leaf_path(t, s) && s.last().0 == b && is_prefix_of(q, (av + s).drop_last().reverse());
        lemma_leaf_paths(t, s);
        let m = choose|m: int| 0 <= m < cs.len() && #[trigger] child_leaf(cs, m, s);
        assert(child_covers(cs, m, av, b, q));
    }
    if exists|m: int| 0 <= m < cs.len() && #[trigger] child_covers(cs, m, av, b, q) {
        let m = choose|m: int| 0 <= m < cs.len() && #[trigger] child_covers(cs, m, av, b, q);
        let s = choose|s: Seq<KeyView>|
            #[trigger] child_leaf(cs, m, s) && s.last().0 == b && is_prefix_of(q, (av + s).drop_last().reverse());
        lemma_leaf_paths(t, s);
    }
}

/// The keys of `a`, last first.
fn reversed_keys(a: &Vec<PathTreeKey>) -> (res: Vec<PathTreeKey>)
    ensures
        chain_view(res@) == chain_view(a@).reverse(),
{
    let mut res: Vec<PathTreeKey> = Vec::new();
    let mut i: usize = a.len();
    while i > 0
        invariant
            i <= a@.len(),
            res@.len() == a@.len() - i,
            forall|t: int| 0 <= t < res@.len() ==> key_view(#[trigger] res@[t]) == key_view(a@[a@.len() - 1 - t]),
        decreases i,
    {
        i = i - 1;
        let k = a[i].duplicate();
        res.push(k);
    }
    assert(chain_view(res@) =~= chain_view(a@).reverse());
    res
}

/// Walks the child at `j` of `node`, below the keys in `ancestors`, adding
/// the chain of each leaf under it to the group of its endpoint.
fn walk_and_collect(node: &PathTree, j: usize, ancestors: &mut Vec<PathTreeKey>, groups: &mut Vec<EndpointGroup>)
    requires
        tree_ordered(*node),
        j < node.children@.len(),
        groups_ordered(old(groups)@),
    ensures
        final(ancestors)@ == old(ancestors)@,
        groups_ordered(final(groups)@),
        forall|b: BaseView, q: Seq<KeyView>|
            #[trigger] group_has(final(groups)@, b, q) == (group_has(old(groups)@, b, q) || child_covers(
                node.children@,
                j as int,
                chain_view(old(ancestors)@),
                b,
                q,
            )),
    decreases node, 0nat,
{
    let ghost a0 = ancestors@;
    let ghost av = chain_view(a0);
    let ghost cs = node.children@;
    let key = &node.children[j].0;
    let child = &node.children[j].1;
    let ghost kv = key_view(*key);
    proof {
        lemma_child_ordered(*node, j as int);
    }
    if child.children.len() == 0 {
        let chain = reversed_keys(ancestors);
        add_chain(groups, &key.base, chain);
        proof {
            assert forall|b: BaseView, q: Seq<KeyView>|
                #[trigger] child_covers(cs, j as int, av, b, q) == (b == base_view(key.base) && is_prefix_of(q, av.reverse())) by {
                lemma_leaf_child_covers(cs, j as int, av, b, q);
            }
        }
    } else {
        let k = key.duplicate();
        ancestors.push(k);
        walk_children(child, ancestors, groups);
        let _ = ancestors.pop();
        proof {
            assert(ancestors@ =~= a0);
            assert(chain_view(a0.push(k)) =~= av.push(kv));
            assert forall|b: BaseView, q: Seq<KeyView>|
                #[trigger] child_covers(cs, j as int, av, b, q) == leaf_covers(*child, av.push(kv), b, q) by {
                lemma_inner_child_covers(cs, j as int, av, b, q);
            }
        }
    }
}

/// Walks the children of `node`, below the keys in `ancestors`, adding the
/// chain of each leaf to the group of its endpoint.
fn walk_children(node: &PathTree, ancestors: &mut Vec<PathTreeKey>, groups: &mut Vec<EndpointGroup>)
    requires
        tree_ordered(*node),
        groups_ordered(old(groups)@),
    ensures
        final(ancestors)@ == old(ancestors)@,
        groups_ordered(final(groups)@),
        forall|b: BaseView, q: Seq<KeyView>|
            #[trigger] group_has(final(groups)@, b, q) == (group_has(old(groups)@, b, q) || leaf_covers(
                *node,
                chain_view(old(ancestors)@),
                b,
                q,
            )),
    decreases node, 1nat,
{
    let ghost g0 = groups@;
    let ghost a0 = ancestors@;
    let ghost av = chain_view(a0);
    let ghost cs = node.children@;
    let mut j: usize = 0;
    while j < node.children.len()
        invariant
            j <= cs.len(),
            cs == node.children@,
            tree_ordered(*node),
            ancestors@ == a0,
            av == chain_view(a0),
            groups_ordered(groups@),
            forall|b: BaseView, q: Seq<KeyView>|
                #[trigger] group_has(groups@, b, q) == (group_has(g0, b, q) || exists|m: int|
                    0 <= m < j && #[trigger] child_covers(cs, m, av, b, q)),
        decreases cs.len() - j,
    {
        let ghost gj = groups@;
        walk_and_collect(node, j, ancestors, groups);
        proof {
            assert forall|b: BaseView, q: Seq<KeyView>|
                #[trigger] group_has(groups@, b, q) == (group_has(g0, b, q) || exists|m: int|
                    0 <= m < j + 1 && #[trigger] child_covers(cs, m, av, b, q)) by {
                assert(group_has(groups@, b, q) == (group_has(gj, b, q) || child_covers(cs, j as int, av, b, q)));
                assert(group_has(gj, b, q) == (group_has(g0, b, q) || exists|m: int|
                    0 <= m < j && #[trigger] child_covers(cs, m, av, b, q)));
                if child_covers(cs, j as int, av, b, q) {
                    assert(0 <= j < j + 1);
                }
                if exists|m: int| 0 <= m < j + 1 && #[trigger] child_covers(cs, m, av, b, q) {
                    let m = choose|m: int| 0 <= m < j + 1 && #[trigger] child_covers(cs, m, av, b, q);
                    if m < j {
                        assert(0 <= m < j && child_covers(cs, m, av, b, q));
                    }
                }
            }
        }
        j = j + 1;
    }
    proof {
        lemma_child_ordered_keys(*node);
        assert forall|b: BaseView, q: Seq<KeyView>|
            #[trigger] leaf_covers(*node, av, b, q) == exists|m: int| 0 <= m < cs.len() && #[trigger] child_covers(cs, m, av, b, q) by {
            lemma_leaf_covers_children(*node, av, b, q);
        }
    }
}

/// An ordered tree's children have distinct keys.
pub(crate) proof fn lemma_child_ordered_keys(t: PathTree)
    requires
        tree_ordered(t),
    ensures
        child_keys(t.children@).no_duplicates(),
{
    reveal(tree_ordered);
    assert(ordered_to(t, 0));
}

/// No groups hold anything.
proof fn lemma_no_groups()
    ensures
        forall|b: BaseView, q: Seq<KeyView>| !group_has(Seq::<EndpointGroup>::empty(), b, q),
{
    reveal(group_has);
}

/// Regroups the `$ref` chains of `tree` by originating endpoint: one group
/// per distinct endpoint base, in base order, whose tree holds, endpoint
/// first, the chains of keys leading from that endpoint's leaves back
/// toward the root (chains sharing a prefix are merged).
pub fn collect_endpoint_groups(tree: &PathTree) -> (res: Vec<EndpointGroup>)
    requires
        ordered(*tree),
    ensures
        groups_ordered(res@),
        forall|b: BaseView, q: Seq<KeyView>| #[trigger] group_has(res@, b, q) == leaf_covers(*tree, seq![], b, q),
{
    let mut groups: Vec<EndpointGroup> = Vec::new();
    let mut ancestors: Vec<PathTreeKey> = Vec::new();
    assert(tree_ordered(*tree)) by {
        reveal(tree_ordered);
    }
    proof {
        lemma_no_groups();
        reveal(groups_ordered);
    }
    walk_children(tree, &mut ancestors, &mut groups);
    assert(chain_view(Seq::<PathTreeKey>::empty()) =~= Seq::<KeyView>::empty());
    groups
}

} // verus!
