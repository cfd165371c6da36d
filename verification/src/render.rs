//! Rendering of a compatibility issue as a block of styled text: one
//! severity row and one `at:` row per change, then a `used by:` row per
//! originating endpoint with the tree of `$ref` chains below it.
//!
//! The output is a sequence of pieces (styled text, runs of spaces and line
//! breaks) that the terminal layer prints with its styles.

use vstd::prelude::*;
use crate::compat::{ApiCompatIssue, CompatIssueLocation, SubpathChange};
use crate::docpath::{base_view, DocumentBasePath, DocumentPath, PathTreeKey};
use crate::humanize::{
    append_humanized_at_pair, append_humanized_base, at_pair_spans, base_shaped, humanized_base_spans, pushed,
};
use crate::names::version_text;
use crate::pointer::ChangeClass;
use crate::groups::{
    collect_endpoint_groups, group_has, groups_ordered, is_leaf_path, leaf_covers, lemma_child_ordered, node_at,
    tree_ordered, EndpointGroup,
};
use crate::text::{chars_of, push_str_chars, string_from_chars};
use crate::tree::{
    chain_view, is_prefix_of, ordered, child_keys, compare_keys, find_child, has_path, key_view, lemma_find_child_at, lemma_key_order, KeyView,
    PathTree,
};
use crate::wrap::{marked_chars, piece_view, pieces_view, wrap_spec, write_wrapped, Indent, Line, StyleRole, WrapPiece};

verus! {

/// Abstract value of an output piece: 0 styled text, 1 a run of spaces (of
/// the given count), 2 a line break.
pub type PieceView = (int, Seq<char>, StyleRole, nat);

/// A piece of rendered output.
#[derive(Debug, Clone, PartialEq, Eq)]
pub enum OutPiece {
    /// Text in a style.
    Text { text: String, style: StyleRole },
    /// This many spaces, unstyled.
    Spaces(usize),
    /// A line break.
    Newline,
}

/// The abstract value of a piece.
pub open spec fn out_view(p: OutPiece) -> PieceView {
    match p {
        OutPiece::Text { text, style } => (0, text@, style, 0),
        OutPiece::Spaces(n) => (1, seq![], StyleRole::Plain, n as nat),
        OutPiece::Newline => (2, seq![], StyleRole::Plain, 0),
    }
}

/// The abstract values of pieces.
pub open spec fn outs_view(ps: Seq<OutPiece>) -> Seq<PieceView> {
    ps.map_values(|p: OutPiece| out_view(p))
}

/// Styled text.
pub open spec fn text_piece(t: Seq<char>, st: StyleRole) -> PieceView {
    (0, t, st, 0)
}

/// A line break.
pub open spec fn newline_piece() -> PieceView {
    (2, seq![], StyleRole::Plain, 0)
}

/// A run of `n` spaces.
pub open spec fn spaces_piece(n: nat) -> PieceView {
    (1, seq![], StyleRole::Plain, n)
}

/// The spans of a line, each as a piece.
pub open spec fn spans_pieces(spans: Seq<(Seq<char>, StyleRole)>) -> Seq<PieceView> {
    spans.map_values(|s: (Seq<char>, StyleRole)| text_piece(s.0, s.1))
}

/// The word naming a change class in the label column.
pub open spec fn class_label_spec(class: ChangeClass) -> Seq<char> {
    match class {
        ChangeClass::BackwardIncompatible => "backward-incompatible"@,
        ChangeClass::ForwardIncompatible => "forward-incompatible"@,
        ChangeClass::Incompatible => "incompatible"@,
        ChangeClass::Trivial => "trivial"@,
        ChangeClass::Unhandled => "change"@,
    }
}

/// The word naming a change class in the label column.
pub fn class_label(class: ChangeClass) -> (res: &'static str)
    ensures
        res@ == class_label_spec(class),
{
    match class {
        ChangeClass::BackwardIncompatible => "backward-incompatible",
        ChangeClass::ForwardIncompatible => "forward-incompatible",
        ChangeClass::Incompatible => "incompatible",
        ChangeClass::Trivial => "trivial",
        ChangeClass::Unhandled => "change",
    }
}

/// The severity style of a change class: hard incompatibilities as
/// failures, forward incompatibility as a warning header, others as
/// warnings.
pub open spec fn class_style_spec(class: ChangeClass) -> StyleRole {
    match class {
        ChangeClass::BackwardIncompatible | ChangeClass::Incompatible => StyleRole::FailureHeader,
        ChangeClass::ForwardIncompatible => StyleRole::WarningHeader,
        ChangeClass::Unhandled | ChangeClass::Trivial => StyleRole::Warning,
    }
}

/// The severity style of a change class.
pub fn class_style(class: ChangeClass) -> (res: StyleRole)
    ensures
        res == class_style_spec(class),
{
    match class {
        ChangeClass::BackwardIncompatible | ChangeClass::Incompatible => StyleRole::FailureHeader,
        ChangeClass::ForwardIncompatible => StyleRole::WarningHeader,
        ChangeClass::Unhandled | ChangeClass::Trivial => StyleRole::Warning,
    }
}

/// The width of the label column: the longest of `at`, the class words of
/// the changes, and `used by` when some endpoint uses the issue.
pub open spec fn label_width_spec(changes: Seq<SubpathChange>, has_groups: bool) -> nat
    decreases changes.len(),
{
    if changes.len() == 0 {
        if has_groups {
            7
        } else {
            2
        }
    } else {
        let rest = label_width_spec(changes.drop_last(), has_groups);
        let w = class_label_spec(changes.last().class).len();
        if w > rest {
            w
        } else {
            rest
        }
    }
}

proof fn lemma_label_width_bound(changes: Seq<SubpathChange>, has_groups: bool)
    ensures
        label_width_spec(changes, has_groups) <= 21,
    decreases changes.len(),
{
    reveal_strlit("backward-incompatible");
    reveal_strlit("forward-incompatible");
    reveal_strlit("incompatible");
    reveal_strlit("trivial");
    reveal_strlit("change");
    if changes.len() > 0 {
        lemma_label_width_bound(changes.drop_last(), has_groups);
    }
}

/// The width of the label column (see `label_width_spec`).
pub fn block_label_width(changes: &Vec<SubpathChange>, has_groups: bool) -> (res: usize)
    ensures
        res == label_width_spec(changes@, has_groups),
{
    let mut max: usize = 2;
    if has_groups {
        max = 7;
    }
    let mut i: usize = 0;
    while i < changes.len()
        invariant
            i <= changes@.len(),
            max == label_width_spec(changes@.subrange(0, i as int), has_groups),
        decreases changes@.len() - i,
    {
        proof {
            assert(changes@.subrange(0, i + 1).drop_last() =~= changes@.subrange(0, i as int));
            assert(changes@.subrange(0, i + 1).last() == changes@[i as int]);
        }
        let w = class_label(changes[i].class).unicode_len();
        if w > max {
            max = w;
        }
        i = i + 1;
    }
    assert(changes@.subrange(0, changes@.len() as int) =~= changes@);
    max
}

/// A label right-aligned in a column of `width`, then `: `.
pub open spec fn label_pieces(label: Seq<char>, style: StyleRole, width: nat) -> Seq<PieceView> {
    (if width > label.len() {
        seq![spaces_piece((width - label.len()) as nat)]
    } else {
        seq![]
    }) + seq![text_piece(label, style), text_piece(": "@, StyleRole::Plain)]
}

fn push_label(out: &mut Vec<OutPiece>, label: &str, style: StyleRole, width: usize)
    ensures
        outs_view(final(out)@) == outs_view(old(out)@) + label_pieces(label@, style, width as nat),
{
    let ghost before = out@;
    let n = label.unicode_len();
    if width > n {
        out.push(OutPiece::Spaces(width - n));
    }
    let ghost mid = out@;
    let mut t: Vec<char> = Vec::new();
    push_str_chars(&mut t, label);
    out.push(OutPiece::Text { text: string_from_chars(t.as_slice()), style });
    let mut c: Vec<char> = Vec::new();
    push_str_chars(&mut c, ": ");
    out.push(OutPiece::Text { text: string_from_chars(c.as_slice()), style: StyleRole::Plain });
    proof {
        reveal_strlit(": ");
        assert(outs_view(mid) =~= outs_view(before) + (if width > label@.len() {
            seq![spaces_piece((width - label@.len()) as nat)]
        } else {
            seq![]
        }));
        assert(outs_view(out@) =~= outs_view(before) + label_pieces(label@, style, width as nat));
    }
}

/// The content of the `at:` row of a change: the location once when both
/// sides name the same one, or when the base is unchanged and one side is
/// the root (an addition or removal within the base); only the side that
/// is not the `.paths` container when exactly one is; otherwise both
/// sides, joined by ` -> `. Type names and field paths are bold.
pub open spec fn at_content_spans(
    s: Seq<(Seq<char>, StyleRole)>,
    blessed: DocumentBasePath,
    generated: DocumentBasePath,
    old_sub: Seq<Seq<char>>,
    new_sub: Seq<Seq<char>>,
) -> Seq<(Seq<char>, StyleRole)> {
    let same_base = base_view(blessed) == base_view(generated);
    let blessed_side = at_pair_spans(s, blessed, old_sub, StyleRole::Bold);
    let generated_side = at_pair_spans(s, generated, new_sub, StyleRole::Bold);
    if same_base && old_sub == new_sub {
        blessed_side
    } else if same_base && old_sub.len() == 0 {
        generated_side
    } else if same_base && new_sub.len() == 0 {
        blessed_side
    } else if base_view(blessed).0 == 2 && base_view(generated).0 != 2 {
        generated_side
    } else if base_view(blessed).0 != 2 && base_view(generated).0 == 2 {
        blessed_side
    } else {
        at_pair_spans(pushed(blessed_side, " -> "@, StyleRole::Plain), generated, new_sub, StyleRole::Bold)
    }
}

/// Appends the content of the `at:` row of a change (see
/// `at_content_spans`).
pub fn append_at_content(line: &mut Line, issue: &ApiCompatIssue, change: &SubpathChange)
    requires
        base_shaped(issue.blessed_base),
        base_shaped(issue.generated_base),
    ensures
        final(line).view_spans() == at_content_spans(
            old(line).view_spans(),
            issue.blessed_base,
            issue.generated_base,
            change.old_subpath@,
            change.new_subpath@,
        ),
{
    let same_base = issue.blessed_base.same_as(&issue.generated_base);
    let same_subpath = change.old_subpath.same_as(&change.new_subpath);
    if same_base && same_subpath {
        append_humanized_at_pair(line, &issue.blessed_base, &change.old_subpath, StyleRole::Bold);
        return;
    }
    if same_base && change.old_subpath.is_root() {
        append_humanized_at_pair(line, &issue.generated_base, &change.new_subpath, StyleRole::Bold);
        return;
    }
    if same_base && change.new_subpath.is_root() {
        append_humanized_at_pair(line, &issue.blessed_base, &change.old_subpath, StyleRole::Bold);
        return;
    }
    let blessed_root = issue.blessed_base.is_paths_root();
    let generated_root = issue.generated_base.is_paths_root();
    if blessed_root && !generated_root {
        append_humanized_at_pair(line, &issue.generated_base, &change.new_subpath, StyleRole::Bold);
    } else if !blessed_root && generated_root {
        append_humanized_at_pair(line, &issue.blessed_base, &change.old_subpath, StyleRole::Bold);
    } else {
        append_humanized_at_pair(line, &issue.blessed_base, &change.old_subpath, StyleRole::Bold);
        line.push_plain(" -> ");
        proof {
            reveal_strlit(" -> ");
        }
        append_humanized_at_pair(line, &issue.generated_base, &change.new_subpath, StyleRole::Bold);
    }
}

/// A key whose base is a component or an endpoint has the segments that
/// its humanized form reads.
pub open spec fn key_shaped(k: KeyView) -> bool {
    (k.0.0 == 0 || k.0.0 == 1) ==> k.0.1.len() >= 3
}

/// Every key along every chain of the tree is shaped.
pub open spec fn tree_keys_shaped(t: PathTree) -> bool {
    forall|p: Seq<KeyView>| p.len() > 0 && #[trigger] has_path(t, p) ==> key_shaped(p.last())
}

/// The children of a tree with shaped keys have shaped keys, and their
/// subtrees too.
proof fn lemma_child_shaped(t: PathTree, m: int)
    requires
        tree_keys_shaped(t),
        child_keys(t.children@).no_duplicates(),
        0 <= m < t.children@.len(),
    ensures
        key_shaped(key_view(t.children@[m].0)),
        tree_keys_shaped(t.children@[m].1),
{
    let cs = t.children@;
    let kv = key_view(cs[m].0);
    lemma_find_child_at(cs, kv);
    assert(find_child(cs, kv) == Some(cs[m].1));
    assert(seq![kv].drop_first() =~= Seq::<KeyView>::empty());
    assert(has_path(cs[m].1, Seq::<KeyView>::empty()));
    assert(has_path(t, seq![kv]));
    assert(seq![kv].last() == kv);
    assert forall|p: Seq<KeyView>| p.len() > 0 && #[trigger] has_path(cs[m].1, p) implies key_shaped(p.last()) by {
        let full = seq![kv] + p;
        assert(full.drop_first() =~= p);
        assert(has_path(t, full));
        assert(full.last() == p.last());
    }
}

/// The connector drawn before the `i`-th of `n` children.
pub open spec fn connector_spec(is_last: bool) -> Seq<char> {
    if is_last {
        "└─ "@
    } else {
        "├─ "@
    }
}

/// What the rows below the `i`-th of `n` children are indented by.
pub open spec fn child_indent_spec(is_last: bool) -> Seq<char> {
    if is_last {
        "   "@
    } else {
        "│  "@
    }
}

/// The row of one tree key: a line break, the dimmed scaffolding (prefix and
/// connector), then the key's location with its field path unstyled.
pub open spec fn tree_row(prefix: Seq<char>, is_last: bool, k: PathTreeKey) -> Seq<PieceView> {
    seq![newline_piece(), text_piece(prefix, StyleRole::Dimmed), text_piece(connector_spec(is_last), StyleRole::Dimmed)]
        + spans_pieces(at_pair_spans(seq![], k.base, k.subpath@, StyleRole::Plain))
}

/// The rows of a tree below `prefix`, `cargo tree` style, and the keys seen
/// afterwards. A key seen before (anywhere earlier in the block) is marked
/// ` (*)` and its subtree is not repeated.
pub open spec fn tree_pieces(t: PathTree, prefix: Seq<char>, seen: Seq<KeyView>) -> (Seq<PieceView>, Seq<KeyView>)
    decreases t, 1nat, 0int,
{
    children_pieces(t, 0, prefix, seen)
}

/// The rows of the children of `t` from the `i`-th on (see `tree_pieces`).
pub open spec fn children_pieces(t: PathTree, i: int, prefix: Seq<char>, seen: Seq<KeyView>) -> (
    Seq<PieceView>,
    Seq<KeyView>,
)
    decreases t, 0nat, t.children@.len() - i,
{
    if i < 0 || i >= t.children@.len() {
        (seq![], seen)
    } else {
        let k = t.children@[i].0;
        let c = t.children@[i].1;
        let is_last = i == t.children@.len() - 1;
        let row = tree_row(prefix, is_last, k);
        if seen.contains(key_view(k)) {
            let rest = children_pieces(t, i + 1, prefix, seen);
            (row + seq![text_piece(" "@, StyleRole::Plain), text_piece("(*)"@, StyleRole::Dimmed)] + rest.0, rest.1)
        } else {
            let sub = tree_pieces(c, prefix + child_indent_spec(is_last), seen.push(key_view(k)));
            let rest = children_pieces(t, i + 1, prefix, sub.1);
            (row + sub.0 + rest.0, rest.1)
        }
    }
}

/// An owned copy of a string.
fn owned(s: &str) -> (res: String)
    ensures
        res@ == s@,
{
    let cs = chars_of(s);
    string_from_chars(cs.as_slice())
}

/// Appends the spans of a line, each as a piece.
fn push_spans(out: &mut Vec<OutPiece>, line: &Line)
    ensures
        outs_view(final(out)@) == outs_view(old(out)@) + spans_pieces(line.view_spans()),
{
    let spans = line.spans();
    let ghost sv = line.view_spans();
    let ghost base = out@;
    let mut i: usize = 0;
    while i < spans.len()
        invariant
            i <= spans@.len(),
            sv == crate::wrap::spans_view(spans@),
            outs_view(out@) == outs_view(base) + spans_pieces(sv.subrange(0, i as int)),
        decreases spans@.len() - i,
    {
        let ghost prev = out@;
        out.push(OutPiece::Text { text: spans[i].content.clone(), style: spans[i].style });
        proof {
            assert(outs_view(out@) =~= outs_view(prev).push(text_piece(sv[i as int].0, sv[i as int].1)));
            assert(spans_pieces(sv.subrange(0, i + 1)) =~= spans_pieces(sv.subrange(0, i as int)).push(
                text_piece(sv[i as int].0, sv[i as int].1),
            ));
        }
        i = i + 1;
    }
    assert(sv.subrange(0, sv.len() as int) =~= sv);
}

/// Whether a key equal to `k` was seen.
fn seen_contains(seen: &Vec<PathTreeKey>, k: &PathTreeKey) -> (res: bool)
    ensures
        res == chain_view(seen@).contains(key_view(*k)),
{
    let mut i: usize = 0;
    while i < seen.len()
        invariant
            i <= seen@.len(),
            forall|m: int| 0 <= m < i ==> key_view(#[trigger] seen@[m]) != key_view(*k),
        decreases seen@.len() - i,
    {
        let c = compare_keys(&seen[i], k);
        proof {
            lemma_key_order(key_view(seen@[i as int]), key_view(*k));
        }
        if c == 0 {
            assert(chain_view(seen@)[i as int] == key_view(*k));
            return true;
        }
        i = i + 1;
    }
    proof {
        if chain_view(seen@).contains(key_view(*k)) {
            let m = choose|m: int| 0 <= m < chain_view(seen@).len() && chain_view(seen@)[m] == key_view(*k);
            assert(key_view(seen@[m]) == key_view(*k));
        }
    }
    false
}

/// Appends the rows of a tree below `prefix` (see `tree_pieces`), marking
/// and recording the keys seen.
pub fn render_tree(t: &PathTree, prefix: &String, seen: &mut Vec<PathTreeKey>, out: &mut Vec<OutPiece>)
    requires
        tree_ordered(*t),
        tree_keys_shaped(*t),
    ensures
        outs_view(final(out)@) == outs_view(old(out)@) + tree_pieces(*t, prefix@, chain_view(old(seen)@)).0,
        chain_view(final(seen)@) == tree_pieces(*t, prefix@, chain_view(old(seen)@)).1,
    decreases t,
{
    let ghost out0 = out@;
    let ghost total = children_pieces(*t, 0, prefix@, chain_view(seen@));
    let ghost cs = t.children@;
    let n = t.children.len();
    let mut j: usize = 0;
    while j < n
        invariant
            j <= n,
            n == cs.len(),
            cs == t.children@,
            tree_ordered(*t),
            tree_keys_shaped(*t),
            outs_view(out@) + children_pieces(*t, j as int, prefix@, chain_view(seen@)).0 == outs_view(out0) + total.0,
            children_pieces(*t, j as int, prefix@, chain_view(seen@)).1 == total.1,
        decreases n - j,
    {
        let ghost sv = chain_view(seen@);
        let ghost o1 = out@;
        let k = &t.children[j].0;
        let c = &t.children[j].1;
        let is_last = j == n - 1;
        proof {
            lemma_child_ordered(*t, j as int);
            lemma_child_shaped(*t, j as int);
        }
        out.push(OutPiece::Newline);
        out.push(OutPiece::Text { text: prefix.clone(), style: StyleRole::Dimmed });
        let connector = if is_last {
            "└─ "
        } else {
            "├─ "
        };
        out.push(OutPiece::Text { text: owned(connector), style: StyleRole::Dimmed });
        let mut row = Line::new();
        append_humanized_at_pair(&mut row, &k.base, &k.subpath, StyleRole::Plain);
        let ghost o2 = out@;
        push_spans(out, &row);
        proof {
            reveal_strlit("└─ ");
            reveal_strlit("├─ ");
            assert(outs_view(o2) =~= outs_view(o1) + seq![
                newline_piece(),
                text_piece(prefix@, StyleRole::Dimmed),
                text_piece(connector_spec(is_last), StyleRole::Dimmed),
            ]);
            assert(outs_view(out@) =~= outs_view(o1) + tree_row(prefix@, is_last, *k));
        }
        if seen_contains(seen, k) {
            let ghost o3 = out@;
            out.push(OutPiece::Text { text: owned(" "), style: StyleRole::Plain });
            out.push(OutPiece::Text { text: owned("(*)"), style: StyleRole::Dimmed });
            proof {
                reveal_strlit(" ");
                reveal_strlit("(*)");
                assert(outs_view(out@) =~= outs_view(o3) + seq![
                    text_piece(" "@, StyleRole::Plain),
                    text_piece("(*)"@, StyleRole::Dimmed),
                ]);
            }
        } else {
            let ghost o3 = out@;
            seen.push(k.duplicate());
            proof {
                assert(chain_view(seen@) =~= sv.push(key_view(*k)));
            }
            let mut cp: Vec<char> = chars_of(prefix.as_str());
            let indent = if is_last {
                "   "
            } else {
                "│  "
            };
            push_str_chars(&mut cp, indent);
            let child_prefix = string_from_chars(cp.as_slice());
            proof {
                reveal_strlit("   ");
                reveal_strlit("│  ");
                assert(child_prefix@ == prefix@ + child_indent_spec(is_last));
            }
            render_tree(c, &child_prefix, seen, out);
            proof {
                assert(outs_view(out@) == outs_view(o3) + tree_pieces(*c, prefix@ + child_indent_spec(is_last), sv.push(key_view(*k))).0);
            }
        }
        proof {
            assert(outs_view(out@) + children_pieces(*t, j + 1, prefix@, chain_view(seen@)).0 =~= outs_view(o1)
                + children_pieces(*t, j as int, prefix@, sv).0);
        }
        j = j + 1;
    }
}

/// Wrapped output with each line break followed by the continuation
/// indent (`indent` spaces).
pub open spec fn expand_breaks(ps: Seq<PieceView>, indent: nat) -> Seq<PieceView>
    decreases ps.len(),
{
    if ps.len() == 0 {
        seq![]
    } else {
        expand_breaks(ps.drop_last(), indent) + if ps.last().0 == 2 {
            seq![newline_piece(), spaces_piece(indent)]
        } else {
            seq![ps.last()]
        }
    }
}

/// The content of a labeled row: wrapped at `wrap` columns with
/// continuation lines indented to the content column, or (without a width,
/// or for a line longer than the address space) written as it is.
pub open spec fn row_content(spans: Seq<(Seq<char>, StyleRole)>, wrap: Option<usize>, indent: nat) -> Seq<PieceView> {
    match wrap {
        Some(w) => if marked_chars(spans).len() <= usize::MAX {
            expand_breaks(wrap_spec(spans, w as nat, indent), indent)
        } else {
            spans_pieces(spans)
        },
        None => spans_pieces(spans),
    }
}

/// The number of characters of the spans, if it fits in a `usize`.
fn fits_wrapping(line: &Line) -> (res: bool)
    ensures
        res == (marked_chars(line.view_spans()).len() <= usize::MAX),
{
    let spans = line.spans();
    let ghost sv = line.view_spans();
    let mut total: usize = 0;
    let mut i: usize = 0;
    while i < spans.len()
        invariant
            i <= spans@.len(),
            sv == crate::wrap::spans_view(spans@),
            sv == line.view_spans(),
            total == marked_chars(sv.subrange(0, i as int)).len(),
        decreases spans@.len() - i,
    {
        proof {
            let sub = sv.subrange(0, i + 1);
            assert(sub.drop_last() =~= sv.subrange(0, i as int));
            assert(sub.last() == sv[i as int]);
        }
        let n = spans[i].content.unicode_len();
        match total.checked_add(n) {
            Some(t) => {
                total = t;
            },
            None => {
                proof {
                    let sub = sv.subrange(0, i + 1);
                    assert(marked_chars(sub) == marked_chars(sub.drop_last()) + sub.last().0.map_values(
                        |c: char| (c, sub.last().1, i as int),
                    ));
                    assert(marked_chars(sub).len() == total + n);
                    lemma_marked_len_grows(sv, i as int + 1);
                }
                return false;
            },
        }
        i = i + 1;
    }
    assert(sv.subrange(0, sv.len() as int) =~= sv);
    true
}

proof fn lemma_marked_len_grows(sv: Seq<(Seq<char>, StyleRole)>, k: int)
    requires
        0 <= k <= sv.len(),
    ensures
        marked_chars(sv.subrange(0, k)).len() <= marked_chars(sv).len(),
    decreases sv.len() - k,
{
    if k < sv.len() {
        lemma_marked_len_grows(sv, k + 1);
        let sub = sv.subrange(0, k + 1);
        assert(sub.drop_last() =~= sv.subrange(0, k));
    } else {
        assert(sv.subrange(0, k) =~= sv);
    }
}

/// Appends the content of a labeled row (see `row_content`).
fn push_row_content(out: &mut Vec<OutPiece>, line: &Line, wrap: Option<usize>, indent: &Indent)
    ensures
        outs_view(final(out)@) == outs_view(old(out)@) + row_content(line.view_spans(), wrap, indent.width as nat),
{
    match wrap {
        Some(w) => {
            if fits_wrapping(line) {
                let pieces = write_wrapped(line, w, indent);
                let ghost pv = pieces_view(pieces@);
                let ghost base = out@;
                let mut i: usize = 0;
                while i < pieces.len()
                    invariant
                        i <= pieces@.len(),
                        pv == pieces_view(pieces@),
                        outs_view(out@) == outs_view(base) + expand_breaks(pv.subrange(0, i as int), indent.width as nat),
                    decreases pieces@.len() - i,
                {
                    let ghost prev = out@;
                    proof {
                        let sub = pv.subrange(0, i + 1);
                        assert(sub.drop_last() =~= pv.subrange(0, i as int));
                        assert(sub.last() == pv[i as int]);
                    }
                    match &pieces[i] {
                        WrapPiece::Text { text, style } => {
                            out.push(OutPiece::Text { text: text.clone(), style: *style });
                        },
                        WrapPiece::Spaces(n) => {
                            out.push(OutPiece::Spaces(*n));
                        },
                        WrapPiece::Break => {
                            out.push(OutPiece::Newline);
                            out.push(OutPiece::Spaces(indent.width));
                        },
                    }
                    proof {
                        assert(outs_view(out@) =~= outs_view(prev) + (if pv[i as int].0 == 2 {
                            seq![newline_piece(), spaces_piece(indent.width as nat)]
                        } else {
                            seq![pv[i as int]]
                        }));
                    }
                    i = i + 1;
                }
                assert(pv.subrange(0, pv.len() as int) =~= pv);
            } else {
                push_spans(out, line);
            }
        },
        None => {
            push_spans(out, line);
        },
    }
}

/// `n` spaces.
pub open spec fn spaces_text(n: nat) -> Seq<char> {
    Seq::new(n, |i: int| ' ')
}

/// The back-reference to where a duplicate issue was shown in full:
/// `(see <api> v<version>)`.
pub open spec fn see_text(l: CompatIssueLocation) -> Seq<char> {
    "(see "@ + l.api@ + " v"@ + version_text(l.version) + ")"@
}

/// The content of a severity row: the message, then the back-reference in
/// the warning style when there is one.
pub open spec fn severity_spans(message: Seq<char>, prev: Option<CompatIssueLocation>) -> Seq<(Seq<char>, StyleRole)> {
    let s = pushed(seq![], message, StyleRole::Plain);
    match prev {
        Some(l) => pushed(pushed(s, " "@, StyleRole::Plain), see_text(l), StyleRole::Warning),
        None => s,
    }
}

/// The rows of the `i`-th change: its severity row (with the
/// back-reference on the first change only) and its `at:` row, after a
/// line break unless it is the first.
pub open spec fn change_pieces(
    issue: ApiCompatIssue,
    i: int,
    prev: Option<CompatIssueLocation>,
    wrap: Option<usize>,
    lw: nat,
) -> Seq<PieceView> {
    let c = issue.changes@[i];
    (if i > 0 {
        seq![newline_piece()]
    } else {
        seq![]
    }) + label_pieces(class_label_spec(c.class), class_style_spec(c.class), lw) + row_content(
        severity_spans(
            c.message@,
            if i == 0 {
                prev
            } else {
                None
            },
        ),
        wrap,
        lw + 2,
    ) + seq![newline_piece()] + label_pieces("at"@, StyleRole::Dimmed, lw) + row_content(
        at_content_spans(seq![], issue.blessed_base, issue.generated_base, c.old_subpath@, c.new_subpath@),
        wrap,
        lw + 2,
    )
}

/// The rows of the first `n` changes.
pub open spec fn changes_pieces(
    issue: ApiCompatIssue,
    n: int,
    prev: Option<CompatIssueLocation>,
    wrap: Option<usize>,
    lw: nat,
) -> Seq<PieceView>
    decreases n,
{
    if n <= 0 {
        seq![]
    } else {
        changes_pieces(issue, n - 1, prev, wrap, lw) + change_pieces(issue, n - 1, prev, wrap, lw)
    }
}

/// The `used by:` rows of the first `n` groups, each with its tree (keys
/// shown earlier in the block are marked instead of repeated), and the keys
/// seen.
pub open spec fn groups_pieces(gs: Seq<EndpointGroup>, n: int, wrap: Option<usize>, lw: nat) -> (
    Seq<PieceView>,
    Seq<KeyView>,
)
    decreases n,
{
    if n <= 0 {
        (seq![], seq![])
    } else {
        let before = groups_pieces(gs, n - 1, wrap, lw);
        let g = gs[n - 1];
        let head = (if n - 1 > 0 {
            seq![newline_piece()]
        } else {
            seq![]
        }) + label_pieces("used by"@, StyleRole::Dimmed, lw) + row_content(
            humanized_base_spans(seq![], g.endpoint_base),
            wrap,
            lw + 2,
        );
        if g.intermediates.children@.len() > 0 {
            let t = tree_pieces(g.intermediates, spaces_text(lw + 2), before.1);
            (before.0 + head + t.0, t.1)
        } else {
            (before.0 + head, before.1)
        }
    }
}

/// The whole block of an issue whose endpoint groups are `gs`: the rows of
/// each change, then, if some endpoint uses the issue, a line break and the
/// `used by:` rows. Labels are right-aligned in one column.
pub open spec fn block_pieces(
    issue: ApiCompatIssue,
    gs: Seq<EndpointGroup>,
    prev: Option<CompatIssueLocation>,
    wrap: Option<usize>,
) -> Seq<PieceView> {
    let lw = label_width_spec(issue.changes@, gs.len() > 0);
    changes_pieces(issue, issue.changes@.len() as int, prev, wrap, lw) + if gs.len() > 0 {
        seq![newline_piece()] + groups_pieces(gs, gs.len() as int, wrap, lw).0
    } else {
        seq![]
    }
}

/// The location behind an optional reference.
pub open spec fn opt_loc(prev: Option<&CompatIssueLocation>) -> Option<CompatIssueLocation> {
    match prev {
        Some(l) => Some(*l),
        None => None,
    }
}

fn spaces_string(n: usize) -> (res: String)
    ensures
        res@ == spaces_text(n as nat),
{
    let mut v: Vec<char> = Vec::new();
    let mut i: usize = 0;
    while i < n
        invariant
            i <= n,
            v@ =~= spaces_text(i as nat),
        decreases n - i,
    {
        v.push(' ');
        i = i + 1;
    }
    string_from_chars(v.as_slice())
}

fn severity_line(message: &String, prev: Option<&CompatIssueLocation>) -> (res: Line)
    ensures
        res.view_spans() == severity_spans(message@, opt_loc(prev)),
{
    let mut line = Line::new();
    line.push_plain(message.as_str());
    match prev {
        Some(l) => {
            line.push_plain(" ");
            let mut t: Vec<char> = Vec::new();
            push_str_chars(&mut t, "(see ");
            push_str_chars(&mut t, l.api.as_str());
            push_str_chars(&mut t, " v");
            l.version.push_text(&mut t);
            push_str_chars(&mut t, ")");
            let text = string_from_chars(t.as_slice());
            proof {
                reveal_strlit(" ");
                assert(text@ == see_text(*l));
            }
            line.push(text.as_str(), StyleRole::Warning);
        },
        None => {},
    }
    line
}

fn push_change(
    out: &mut Vec<OutPiece>,
    issue: &ApiCompatIssue,
    i: usize,
    prev: Option<&CompatIssueLocation>,
    wrap: Option<usize>,
    lw: usize,
    indent: &Indent,
)
    requires
        i < issue.changes@.len(),
        base_shaped(issue.blessed_base),
        base_shaped(issue.generated_base),
        indent.width == lw + 2,
    ensures
        outs_view(final(out)@) == outs_view(old(out)@) + change_pieces(*issue, i as int, opt_loc(prev), wrap, lw as nat),
{
    let ghost o0 = out@;
    let change = &issue.changes[i];
    if i > 0 {
        out.push(OutPiece::Newline);
    }
    let ghost o1 = out@;
    push_label(out, class_label(change.class), class_style(change.class), lw);
    let p = if i == 0 {
        prev
    } else {
        None
    };
    let sev = severity_line(&change.message, p);
    let ghost o1b = out@;
    push_row_content(out, &sev, wrap, indent);
    let ghost o1c = out@;
    out.push(OutPiece::Newline);
    let ghost o2 = out@;
    push_label(out, "at", StyleRole::Dimmed, lw);
    let ghost o3 = out@;
    let mut at = Line::new();
    append_at_content(&mut at, issue, change);
    push_row_content(out, &at, wrap, indent);
    proof {
        reveal_strlit("at");
        let c = issue.changes@[i as int];
        let pp = if i == 0 {
            opt_loc(prev)
        } else {
            None
        };
        assert(opt_loc(p) == pp);
        let a = if i > 0 {
            seq![newline_piece()]
        } else {
            seq![]
        };
        assert(outs_view(o1) =~= outs_view(o0) + a);
        let b = label_pieces(class_label_spec(c.class), class_style_spec(c.class), lw as nat);
        assert(outs_view(o1b) == outs_view(o1) + b);
        let r1 = row_content(severity_spans(c.message@, pp), wrap, (lw + 2) as nat);
        assert(outs_view(o1c) == outs_view(o1b) + r1);
        assert(outs_view(o2) =~= outs_view(o1c) + seq![newline_piece()]);
        let l2 = label_pieces("at"@, StyleRole::Dimmed, lw as nat);
        assert(outs_view(o3) == outs_view(o2) + l2);
        let r2 = row_content(
            at_content_spans(seq![], issue.blessed_base, issue.generated_base, c.old_subpath@, c.new_subpath@),
            wrap,
            (lw + 2) as nat,
        );
        assert(outs_view(out@) == outs_view(o3) + r2);
        assert(change_pieces(*issue, i as int, opt_loc(prev), wrap, lw as nat) == a + b + r1 + seq![newline_piece()] + l2 + r2);
        assert(outs_view(out@) =~= outs_view(o0) + change_pieces(*issue, i as int, opt_loc(prev), wrap, lw as nat));
    }
}

/// A node reached along `p` means the tree holds `p`.
proof fn lemma_node_at_has_path(t: PathTree, p: Seq<KeyView>)
    requires
        node_at(t, p) is Some,
    ensures
        has_path(t, p),
    decreases p.len(),
{
    if p.len() > 0 {
        let c = find_child(t.children@, p[0]).unwrap();
        lemma_node_at_has_path(c, p.drop_first());
    }
}

/// A tree that holds a chain holds its prefixes.
proof fn lemma_path_prefix(t: PathTree, p: Seq<KeyView>, k: int)
    requires
        has_path(t, p),
        0 <= k <= p.len(),
    ensures
        has_path(t, p.subrange(0, k)),
    decreases p.len(),
{
    if k == 0 {
        assert(p.subrange(0, 0).len() == 0);
    } else {
        let c = find_child(t.children@, p[0]).unwrap();
        lemma_path_prefix(c, p.drop_first(), k - 1);
        let q = p.subrange(0, k);
        assert(q[0] == p[0]);
        assert(q.drop_first() =~= p.drop_first().subrange(0, k - 1));
    }
}

/// The groups of a tree with shaped keys have shaped bases and shaped,
/// ordered trees.
proof fn lemma_groups_shaped(t: PathTree, gs: Seq<EndpointGroup>)
    requires
        tree_keys_shaped(t),
        groups_ordered(gs),
        forall|b: (int, Seq<Seq<char>>, Option<Seq<char>>), q: Seq<KeyView>|
            #[trigger] group_has(gs, b, q) == leaf_covers(t, seq![], b, q),
    ensures
        forall|i: int|
            0 <= i < gs.len() ==> base_shaped(#[trigger] gs[i].endpoint_base) && tree_ordered(gs[i].intermediates)
                && tree_keys_shaped(gs[i].intermediates),
{
    assert forall|i: int| 0 <= i < gs.len() implies base_shaped(#[trigger] gs[i].endpoint_base) && tree_ordered(
        gs[i].intermediates,
    ) && tree_keys_shaped(gs[i].intermediates) by {
        reveal(groups_ordered);
        reveal(group_has);
        reveal(leaf_covers);
        let b = base_view(gs[i].endpoint_base);
        let empty = Seq::<KeyView>::empty();
        assert(has_path(gs[i].intermediates, empty));
        assert(group_has(gs, b, empty));
        let s = choose|s: Seq<KeyView>|
            #[trigger] is_leaf_path(t, s) && s.last().0 == b && is_prefix_of(empty, (seq![] + s).drop_last().reverse());
        lemma_node_at_has_path(t, s);
        assert(key_shaped(s.last()));
        assert forall|q: Seq<KeyView>| q.len() > 0 && #[trigger] has_path(gs[i].intermediates, q) implies key_shaped(
            q.last(),
        ) by {
            assert(group_has(gs, b, q));
            let s2 = choose|s: Seq<KeyView>|
                #[trigger] is_leaf_path(t, s) && s.last().0 == b && is_prefix_of(q, (seq![] + s).drop_last().reverse());
            assert(seq![] + s2 =~= s2);
            lemma_node_at_has_path(t, s2);
            let r = s2.drop_last().reverse();
            let m = s2.len() - 1 - q.len();
            assert(q.last() == r[q.len() - 1]);
            assert(r[q.len() - 1] == s2[m]);
            lemma_path_prefix(t, s2, m + 1);
            assert(s2.subrange(0, m + 1).last() == s2[m]);
        }
    }
}

fn push_groups(out: &mut Vec<OutPiece>, groups: &Vec<EndpointGroup>, wrap: Option<usize>, lw: usize, indent: &Indent)
    requires
        indent.width == lw + 2,
        indent.string@ == spaces_text((lw + 2) as nat),
        forall|i: int|
            0 <= i < groups@.len() ==> base_shaped(#[trigger] groups@[i].endpoint_base) && tree_ordered(
                groups@[i].intermediates,
            ) && tree_keys_shaped(groups@[i].intermediates),
    ensures
        outs_view(final(out)@) == outs_view(old(out)@) + groups_pieces(groups@, groups@.len() as int, wrap, lw as nat).0,
{
    let ghost o0 = out@;
    let mut seen: Vec<PathTreeKey> = Vec::new();
    let mut j: usize = 0;
    while j < groups.len()
        invariant
            j <= groups@.len(),
            indent.width == lw + 2,
            indent.string@ == spaces_text((lw + 2) as nat),
            forall|i: int|
                0 <= i < groups@.len() ==> base_shaped(#[trigger] groups@[i].endpoint_base) && tree_ordered(
                    groups@[i].intermediates,
                ) && tree_keys_shaped(groups@[i].intermediates),
            outs_view(out@) == outs_view(o0) + groups_pieces(groups@, j as int, wrap, lw as nat).0,
            chain_view(seen@) == groups_pieces(groups@, j as int, wrap, lw as nat).1,
        decreases groups@.len() - j,
    {
        let ghost o1 = out@;
        let g = &groups[j];
        assert(base_shaped(groups@[j as int].endpoint_base));
        if j > 0 {
            out.push(OutPiece::Newline);
        }
        let ghost o2 = out@;
        push_label(out, "used by", StyleRole::Dimmed, lw);
        let mut head = Line::new();
        append_humanized_base(&mut head, &g.endpoint_base);
        push_row_content(out, &head, wrap, indent);
        let ghost o3 = out@;
        proof {
            reveal_strlit("used by");
            assert(outs_view(o2) =~= outs_view(o1) + (if j > 0 {
                seq![newline_piece()]
            } else {
                seq![]
            }));
            assert(outs_view(o3) =~= outs_view(o1) + (if j > 0 {
                seq![newline_piece()]
            } else {
                seq![]
            }) + label_pieces("used by"@, StyleRole::Dimmed, lw as nat) + row_content(
                humanized_base_spans(seq![], g.endpoint_base),
                wrap,
                (lw + 2) as nat,
            ));
        }
        if g.intermediates.children.len() > 0 {
            render_tree(&g.intermediates, &indent.string, &mut seen, out);
        }
        proof {
            assert(outs_view(out@) =~= outs_view(o0) + groups_pieces(groups@, j + 1, wrap, lw as nat).0);
        }
        j = j + 1;
    }
}

/// Renders an issue whose endpoint groups are `groups` (see
/// `block_pieces`), with a back-reference to `prev` on its first row and
/// rows wrapped at `wrap` columns.
pub fn render_issue_with_groups(
    issue: &ApiCompatIssue,
    groups: &Vec<EndpointGroup>,
    prev: Option<&CompatIssueLocation>,
    wrap: Option<usize>,
) -> (res: Vec<OutPiece>)
    requires
        base_shaped(issue.blessed_base),
        base_shaped(issue.generated_base),
        forall|i: int|
            0 <= i < groups@.len() ==> base_shaped(#[trigger] groups@[i].endpoint_base) && tree_ordered(
                groups@[i].intermediates,
            ) && tree_keys_shaped(groups@[i].intermediates),
    ensures
        outs_view(res@) == block_pieces(*issue, groups@, opt_loc(prev), wrap),
{
    let lw = block_label_width(&issue.changes, groups.len() > 0);
    proof {
        lemma_label_width_bound(issue.changes@, groups@.len() > 0);
    }
    let ind = spaces_string(lw + 2);
    let indent = Indent::spaces(ind.as_str());
    let mut out: Vec<OutPiece> = Vec::new();
    let mut i: usize = 0;
    while i < issue.changes.len()
        invariant
            i <= issue.changes@.len(),
            lw == label_width_spec(issue.changes@, groups@.len() > 0),
            indent.width == lw + 2,
            base_shaped(issue.blessed_base),
            base_shaped(issue.generated_base),
            outs_view(out@) == changes_pieces(*issue, i as int, opt_loc(prev), wrap, lw as nat),
        decreases issue.changes@.len() - i,
    {
        push_change(&mut out, issue, i, prev, wrap, lw, &indent);
        i = i + 1;
    }
    if groups.len() > 0 {
        out.push(OutPiece::Newline);
        let ghost o1 = out@;
        push_groups(&mut out, groups, wrap, lw, &indent);
        proof {
            assert(outs_view(o1) =~= changes_pieces(*issue, issue.changes@.len() as int, opt_loc(prev), wrap, lw as nat)
                + seq![newline_piece()]);
        }
    }
    assert(outs_view(out@) =~= block_pieces(*issue, groups@, opt_loc(prev), wrap));
    out
}

/// Renders an issue as a block of styled text: for each change its
/// severity row (the first with a back-reference to `prev`, where the issue
/// was shown in full) and its `at:` row; then a `used by:` row for each
/// originating endpoint, in base order, with the tree of `$ref` chains
/// leading from it toward the changed component. Rows are wrapped at
/// `wrap` columns when it is given.
pub fn render_issue(issue: &ApiCompatIssue, prev: Option<&CompatIssueLocation>, wrap: Option<usize>) -> (res: Vec<
    OutPiece,
>)
    requires
        base_shaped(issue.blessed_base),
        base_shaped(issue.generated_base),
        ordered(issue.tree),
        tree_keys_shaped(issue.tree),
    ensures
        exists|gs: Seq<EndpointGroup>|
            {
                &&& groups_ordered(gs)
                &&& forall|b: (int, Seq<Seq<char>>, Option<Seq<char>>), q: Seq<KeyView>|
                    #[trigger] group_has(gs, b, q) == leaf_covers(issue.tree, seq![], b, q)
                &&& outs_view(res@) == block_pieces(*issue, gs, opt_loc(prev), wrap)
            },
{
    let groups = collect_endpoint_groups(&issue.tree);
    proof {
        lemma_groups_shaped(issue.tree, groups@);
    }
    render_issue_with_groups(issue, &groups, prev, wrap)
}

/// The back-reference to where an issue was shown in full goes on the
/// first severity row only: the rows of every later change are the same
/// with or without it.
pub proof fn law_back_reference_first_row_only(
    issue: ApiCompatIssue,
    i: int,
    prev: Option<CompatIssueLocation>,
    wrap: Option<usize>,
    lw: nat,
)
    requires
        i > 0,
    ensures
        change_pieces(issue, i, prev, wrap, lw) == change_pieces(issue, i, None, wrap, lw),
{
}

} // verus!
