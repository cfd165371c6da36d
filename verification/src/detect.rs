//! Comparing a blessed and a generated OpenAPI document: the comparison
//! itself is `drift`'s, made by the caller; turning its report into
//! compatibility issues
//! (dropping trivial changes, classifying the bases, sorting and
//! de-duplicating the changes, building the reference trees and ordering the
//! issues) is verified here.

use vstd::prelude::*;
use crate::compat::{change_view, opt_text, ApiCompatIssue, SubpathChange};
use crate::docpath::{
    base_view, classify_spec, parse_pointer_spec, strings_view, DocumentBasePath, DocumentPath, OperationIdMap,
};
use crate::pointer::{trim_start_spec, unescape_pointer_component, unescape_spec, ChangeClass};
use crate::resolve::CompatOutcome;
use crate::text::{chars_of, slice_chars, str_eq, string_from_chars};
use crate::tree::{
    chars_order, compare_bases, compare_paths, compare_strings, has_path, in_some_chain, int_order, is_prefix_of, key_order, stack_chain,
    lemma_chars_order, lemma_key_order, lemma_segs_order, ordered, segs_order, KeyView, PathTree,
};

verus! {

/// One change as `drift::compare` reports it: the `$ref` stacks of the
/// paths through which it was reached (on the blessed side), the base
/// pointers of its first path on both sides, and the individual changes as
/// (class code, message, old subpath, new subpath).
#[derive(Debug)]
pub struct RawChange {
    /// For each path, the entries of its blessed-side `$ref` stack.
    pub old_paths: Vec<Vec<String>>,
    /// The blessed-side base pointer of the first path.
    pub old_base: String,
    /// The generated-side base pointer of the first path.
    pub new_base: String,
    /// The individual changes; the class is given by its code (see
    /// `class_of_code`).
    pub infos: Vec<(u8, String, String, String)>,
}

/// Abstract value of one reported individual change.
pub type InfoView = (u8, Seq<char>, Seq<char>, Seq<char>);

/// Abstract value of a reported change.
pub type RawChangeView = (Seq<Seq<Seq<char>>>, Seq<char>, Seq<char>, Seq<InfoView>);

/// Abstract value of the individual changes.
pub open spec fn infos_view(v: Seq<(u8, String, String, String)>) -> Seq<InfoView> {
    v.map_values(|i: (u8, String, String, String)| (i.0, i.1@, i.2@, i.3@))
}

/// Abstract value of a reported change.
pub open spec fn raw_view(c: RawChange) -> RawChangeView {
    (c.old_paths@.map_values(|s: Vec<String>| strings_view(s@)), c.old_base@, c.new_base@, infos_view(c.infos@))
}

/// Abstract value of a list of reported changes.
pub open spec fn raws_view(v: Seq<RawChange>) -> Seq<RawChangeView> {
    v.map_values(|c: RawChange| raw_view(c))
}

/// The endpoints of a document as (route, method, operation id) for each
/// method entry under `/paths`, the id being there when the operation has a
/// string `operationId`; nothing when the bytes are not JSON.
pub uninterp spec fn doc_operations(doc: Seq<u8>) -> Seq<(Seq<char>, Seq<char>, Option<Seq<char>>)>;

/// The pretty-printed JSON object `{key: value}`, where `value` is what the
/// JSON pointer `pointer` selects in the document; none when the bytes are
/// not JSON or the pointer selects nothing.
pub uninterp spec fn json_entry_text(doc: Seq<u8>, pointer: Seq<char>, key: Seq<char>) -> Option<Seq<char>>;

/// Abstract value of a comparison report: the reported changes, or the
/// text of the comparison's error.
pub open spec fn report_view(r: Result<Vec<RawChange>, String>) -> Result<Seq<RawChangeView>, Seq<char>> {
    match r {
        Ok(v) => Ok(raws_view(v@)),
        Err(e) => Err(e@),
    }
}

/// Lists the method entries under `/paths` of a document parsed with
/// `serde_json::from_slice`, with each operation's string `operationId`
/// (`Value::get`, `Value::as_str`).
///
/// Trusted: the result is `doc_operations` of the document; how the JSON is
/// parsed is not restated.
#[verifier::external_body]
fn doc_operations_call(doc: &[u8]) -> (res: Vec<(String, String, Option<String>)>)
    ensures
        ops_view(res@) == doc_operations(doc@),
{
    let Ok(doc) = serde_json::from_slice::<serde_json::Value>(doc) else { return Vec::new() };
    let paths = doc.pointer("/paths").and_then(|v| v.as_object()).into_iter().flatten();
    paths.flat_map(|(route, item)| item.as_object().into_iter().flatten().map(move |(method, op)| {
        (route.clone(), method.clone(), op.get("operationId").and_then(|v| v.as_str()).map(String::from))
    })).collect()
}

/// Abstract value of a list of endpoints.
pub open spec fn ops_view(v: Seq<(String, String, Option<String>)>) -> Seq<(Seq<char>, Seq<char>, Option<Seq<char>>)> {
    v.map_values(|o: (String, String, Option<String>)| (o.0@, o.1@, opt_text(o.2)))
}

/// Parses the document with `serde_json::from_slice`, looks up `pointer`
/// with `Value::pointer`, and writes `{key: value}` with
/// `serde_json::to_string_pretty`.
///
/// Trusted: the result is `json_entry_text` of the three arguments; the
/// JSON text is not restated.
#[verifier::external_body]
fn json_entry_call(doc: &[u8], pointer: &str, key: &str) -> (res: Option<String>)
    ensures
        opt_text(res) == json_entry_text(doc@, pointer@, key@),
{
    let doc: serde_json::Value = serde_json::from_slice(doc).ok()?;
    let value = doc.pointer(pointer)?.clone();
    let entry = serde_json::Value::Object(std::iter::once((key.to_string(), value)).collect());
    serde_json::to_string_pretty(&entry).ok()
}

/// The operation-id map of a list of endpoints: the base
/// `paths/<route>/<method>` of each endpoint with an id, mapped to the id.
pub open spec fn ops_map(ops: Seq<(Seq<char>, Seq<char>, Option<Seq<char>>)>) -> Map<Seq<Seq<char>>, Seq<char>>
    decreases ops.len(),
{
    if ops.len() == 0 {
        Map::empty()
    } else {
        let (route, method, id) = ops.last();
        match id {
            Some(id) => ops_map(ops.drop_last()).insert(seq!["paths"@, route, method], id),
            None => ops_map(ops.drop_last()),
        }
    }
}

/// The operation id of each endpoint of a document, keyed by its
/// `paths/<route>/<method>` base; operations without one are left out.
pub fn extract_operation_ids(doc: &[u8]) -> (res: OperationIdMap)
    ensures
        res@ == ops_map(doc_operations(doc@)),
{
    let ops = doc_operations_call(doc);
    let mut out = OperationIdMap::new();
    let mut i: usize = 0;
    while i < ops.len()
        invariant
            i <= ops@.len(),
            out@ == ops_map(ops_view(ops@).subrange(0, i as int)),
        decreases ops@.len() - i,
    {
        let ghost before = ops_view(ops@).subrange(0, i as int);
        proof {
            assert(ops_view(ops@).subrange(0, i + 1).drop_last() =~= before);
            reveal_strlit("paths");
        }
        let (route, method, id) = &ops[i];
        match id {
            Some(id) => {
                let mut segments: Vec<String> = Vec::new();
                segments.push("paths".to_string());
                segments.push(route.clone());
                segments.push(method.clone());
                let base = DocumentPath { segments };
                proof {
                    assert(base@ =~= seq!["paths"@, route@, method@]);
                }
                out.insert(base, id.clone());
            },
            None => {},
        }
        i = i + 1;
    }
    proof {
        assert(ops_view(ops@).subrange(0, ops@.len() as int) =~= ops_view(ops@));
    }
    out
}

/// The class with code `code` (its index in declaration order).
pub open spec fn class_of_code(code: u8) -> ChangeClass {
    if code == 0 {
        ChangeClass::BackwardIncompatible
    } else if code == 1 {
        ChangeClass::ForwardIncompatible
    } else if code == 2 {
        ChangeClass::Incompatible
    } else if code == 3 {
        ChangeClass::Trivial
    } else {
        ChangeClass::Unhandled
    }
}

fn class_from_code(code: u8) -> (res: ChangeClass)
    ensures
        code < 5 ==> class_rank(res) == code as int,
        res == class_of_code(code),
{
    if code == 0 {
        ChangeClass::BackwardIncompatible
    } else if code == 1 {
        ChangeClass::ForwardIncompatible
    } else if code == 2 {
        ChangeClass::Incompatible
    } else if code == 3 {
        ChangeClass::Trivial
    } else {
        ChangeClass::Unhandled
    }
}

/// The rank of a class in the order of its declaration.
pub open spec fn class_rank(c: ChangeClass) -> int {
    match c {
        ChangeClass::BackwardIncompatible => 0,
        ChangeClass::ForwardIncompatible => 1,
        ChangeClass::Incompatible => 2,
        ChangeClass::Trivial => 3,
        ChangeClass::Unhandled => 4,
    }
}

fn class_rank_of(c: ChangeClass) -> (res: u8)
    ensures
        res as int == class_rank(c),
{
    match c {
        ChangeClass::BackwardIncompatible => 0,
        ChangeClass::ForwardIncompatible => 1,
        ChangeClass::Incompatible => 2,
        ChangeClass::Trivial => 3,
        ChangeClass::Unhandled => 4,
    }
}

/// Abstract value of a change.
pub type ChangeView = (ChangeClass, Seq<char>, Seq<Seq<char>>, Seq<Seq<char>>);

/// Order of changes: by class, then message, then old subpath, then new
/// subpath (the order of the derived `Ord`).
pub open spec fn change_order(a: ChangeView, b: ChangeView) -> int {
    if class_rank(a.0) != class_rank(b.0) {
        int_order(class_rank(a.0), class_rank(b.0))
    } else if chars_order(a.1, b.1) != 0 {
        chars_order(a.1, b.1)
    } else if segs_order(a.2, b.2) != 0 {
        segs_order(a.2, b.2)
    } else {
        segs_order(a.3, b.3)
    }
}

proof fn lemma_change_order(a: ChangeView, b: ChangeView)
    ensures
        (change_order(a, b) == 0) == (a == b),
        change_order(a, b) == -change_order(b, a),
{
    lemma_chars_order(a.1, b.1);
    lemma_segs_order(a.2, b.2);
    lemma_segs_order(a.3, b.3);
    if class_rank(a.0) == class_rank(b.0) {
        assert(a.0 == b.0);
    }
}

fn compare_changes(a: &SubpathChange, b: &SubpathChange) -> (res: i8)
    ensures
        res as int == change_order(change_view(*a), change_view(*b)),
{
    let ra = class_rank_of(a.class);
    let rb = class_rank_of(b.class);
    if ra != rb {
        return if ra < rb {
            -1
        } else {
            1
        };
    }
    let c = compare_strings(&a.message, &b.message);
    if c != 0 {
        return c;
    }
    let c = compare_paths(&a.old_subpath, &b.old_subpath);
    if c != 0 {
        return c;
    }
    compare_paths(&a.new_subpath, &b.new_subpath)
}

/// The change that a reported individual change describes.
pub open spec fn info_change(i: InfoView) -> ChangeView {
    (class_of_code(i.0), i.1, parse_pointer_spec(i.2), parse_pointer_spec(i.3))
}

/// A reported individual change is kept unless it is trivial.
pub open spec fn info_kept(i: InfoView) -> bool {
    class_of_code(i.0) != ChangeClass::Trivial
}

/// `cs` is the set of changes described by the kept individual changes of
/// `infos`, each once, in strictly ascending order.
pub open spec fn sorted_changes_of(cs: Seq<ChangeView>, infos: Seq<InfoView>) -> bool {
    &&& sorted_distinct(cs)
    &&& covers(cs, infos, infos.len() as int)
}

/// Abstract value of a list of changes.
pub open spec fn changes_view(v: Seq<SubpathChange>) -> Seq<ChangeView> {
    v.map_values(|c: SubpathChange| change_view(c))
}

/// Strictly ascending, each change once.
pub open spec fn sorted_distinct(cs: Seq<ChangeView>) -> bool {
    &&& forall|i: int| 0 <= i < cs.len() - 1 ==> change_order(#[trigger] cs[i], cs[i + 1]) < 0
    &&& forall|i: int, j: int| 0 <= i < j < cs.len() ==> cs[i] != cs[j]
}

/// Adds `c` to a sorted list of distinct changes, unless it is there.
fn add_change(out: &mut Vec<SubpathChange>, c: SubpathChange)
    requires
        sorted_distinct(changes_view(old(out)@)),
    ensures
        sorted_distinct(changes_view(final(out)@)),
        forall|x: ChangeView| changes_view(final(out)@).contains(x) <==> (changes_view(old(out)@).contains(x) || x == change_view(c)),
{
    let ghost ov = changes_view(out@);
    let ghost cv = change_view(c);
    let mut j: usize = 0;
    while j < out.len()
        invariant
            j <= out@.len(),
            ov == changes_view(out@),
            cv == change_view(c),
            sorted_distinct(ov),
            forall|t: int| 0 <= t < j ==> ov[t] != cv,
        decreases out@.len() - j,
    {
        let o = compare_changes(&out[j], &c);
        proof {
            lemma_change_order(ov[j as int], cv);
        }
        if o == 0 {
            proof {
                assert forall|x: ChangeView| ov.contains(x) <==> (ov.contains(x) || x == cv) by {
                    if x == cv {
                        assert(ov[j as int] == x);
                    }
                }
            }
            return;
        }
        j = j + 1;
    }
    let mut pos: usize = 0;
    while pos < out.len() && compare_changes(&out[pos], &c) < 0
        invariant
            pos <= out@.len(),
            ov == changes_view(out@),
            cv == change_view(c),
            sorted_distinct(ov),
            !ov.contains(cv),
            forall|t: int| 0 <= t < pos ==> change_order(ov[t], cv) < 0,
        decreases out@.len() - pos,
    {
        pos = pos + 1;
    }
    proof {
        if pos < ov.len() {
            lemma_change_order(ov[pos as int], cv);
        }
        lemma_insert_sorted(ov, pos as int, cv);
    }
    out.insert(pos, c);
    proof {
        assert(changes_view(out@) =~= ov.insert(pos as int, cv));
    }
}

#[verifier::spinoff_prover]
#[verifier::rlimit(40)]
proof fn lemma_insert_sorted(ov: Seq<ChangeView>, pos: int, cv: ChangeView)
    requires
        0 <= pos <= ov.len(),
        sorted_distinct(ov),
        !ov.contains(cv),
        forall|t: int| 0 <= t < pos ==> change_order(ov[t], cv) < 0,
        pos < ov.len() ==> change_order(cv, ov[pos]) < 0,
    ensures
        sorted_distinct(ov.insert(pos, cv)),
        forall|x: ChangeView| ov.insert(pos, cv).contains(x) <==> (ov.contains(x) || x == cv),
{
    let nv = ov.insert(pos, cv);
    assert forall|i: int| 0 <= i < nv.len() - 1 implies change_order(#[trigger] nv[i], nv[i + 1]) < 0 by {
        if i + 1 < pos {
        } else if i + 1 == pos {
            assert(nv[i] == ov[i]);
        } else if i == pos {
            assert(nv[i + 1] == ov[pos]);
        } else {
            assert(nv[i] == ov[i - 1] && nv[i + 1] == ov[i]);
        }
    }
    assert forall|i: int, j: int| 0 <= i < j < nv.len() implies nv[i] != nv[j] by {
        if j < pos {
        } else if i < pos && j == pos {
            assert(ov.contains(ov[i]));
        } else if i < pos {
            assert(nv[j] == ov[j - 1]);
        } else if i == pos {
            assert(nv[j] == ov[j - 1]);
            assert(ov.contains(ov[j - 1]));
        } else {
            assert(nv[i] == ov[i - 1] && nv[j] == ov[j - 1]);
        }
    }
    assert forall|x: ChangeView| nv.contains(x) <==> (ov.contains(x) || x == cv) by {
        if nv.contains(x) {
            let i = choose|i: int| 0 <= i < nv.len() && nv[i] == x;
            if i < pos {
                assert(ov[i] == x);
            } else if i > pos {
                assert(ov[i - 1] == x);
            }
        }
        if ov.contains(x) {
            let i = choose|i: int| 0 <= i < ov.len() && ov[i] == x;
            if i < pos {
                assert(nv[i] == x);
            } else {
                assert(nv[i + 1] == x);
            }
        }
        if x == cv {
            assert(nv[pos] == x);
        }
    }
}

/// The kept individual changes among the first `n` of `infos` describe
/// exactly the changes in `cs`.
pub open spec fn covers(cs: Seq<ChangeView>, infos: Seq<InfoView>, n: int) -> bool {
    forall|x: ChangeView| cs.contains(x) <==> exists|k: int| 0 <= k < n && info_kept(#[trigger] infos[k]) && info_change(infos[k]) == x
}

/// The changes of a reported change's kept individual changes, sorted and
/// each once.
fn sorted_changes(infos: &Vec<(u8, String, String, String)>) -> (res: Vec<SubpathChange>)
    ensures
        sorted_changes_of(changes_view(res@), infos_view(infos@)),
{
    let ghost iv = infos_view(infos@);
    let mut out: Vec<SubpathChange> = Vec::new();
    let mut k: usize = 0;
    proof {
        assert(changes_view(out@) =~= Seq::<ChangeView>::empty());
    }
    while k < infos.len()
        invariant
            k <= infos@.len(),
            iv == infos_view(infos@),
            iv.len() == infos@.len(),
            sorted_distinct(changes_view(out@)),
            covers(changes_view(out@), iv, k as int),
        decreases infos@.len() - k,
    {
        let ghost ov = changes_view(out@);
        let (code, message, old_sub, new_sub) = &infos[k];
        proof {
            assert(iv[k as int] == (*code, message@, old_sub@, new_sub@));
        }
        let class = class_from_code(*code);
        if class != ChangeClass::Trivial {
            let c = SubpathChange::from_info(class, message.clone(), old_sub.as_str(), new_sub.as_str());
            proof {
                assert(change_view(c) == info_change(iv[k as int]));
            }
            add_change(&mut out, c);
        }
        proof {
            let nv = changes_view(out@);
            assert forall|x: ChangeView| nv.contains(x) <==> exists|t: int| 0 <= t < k + 1 && info_kept(#[trigger] iv[t]) && info_change(iv[t]) == x by {
                if exists|t: int| 0 <= t < k + 1 && info_kept(#[trigger] iv[t]) && info_change(iv[t]) == x {
                    let t = choose|t: int| 0 <= t < k + 1 && info_kept(#[trigger] iv[t]) && info_change(iv[t]) == x;
                    if t < k {
                        assert(ov.contains(x));
                    }
                }
            }
        }
        k = k + 1;
    }
    out
}

/// The part of `s` after its last `/` (all of it when there is none).
pub open spec fn last_component(s: Seq<char>) -> Seq<char>
    decreases s.len(),
{
    if s.len() == 0 {
        s
    } else if s.last() == '/' {
        seq![]
    } else {
        last_component(s.drop_last()).push(s.last())
    }
}

/// The JSON shown for a base: the value at the base pointer (leading `#`s
/// dropped), as an object under the base's last (unescaped) component.
pub open spec fn json_value_of(doc: Seq<u8>, base_ptr: Seq<char>) -> Option<Seq<char>> {
    let p = trim_start_spec(base_ptr, '#');
    json_entry_text(doc, p, unescape_spec(last_component(p)))
}

fn json_value_at(doc: &[u8], base_ptr: &str) -> (res: Option<String>)
    ensures
        opt_text(res) == json_value_of(doc@, base_ptr@),
{
    let cs = chars_of(base_ptr);
    let mut start: usize = 0;
    assert(cs@.subrange(0, cs@.len() as int) =~= cs@);
    while start < cs.len() && cs[start] == '#'
        invariant
            start <= cs@.len(),
            trim_start_spec(cs@, '#') == trim_start_spec(cs@.subrange(start as int, cs@.len() as int), '#'),
        decreases cs@.len() - start,
    {
        proof {
            let r = cs@.subrange(start as int, cs@.len() as int);
            assert(r.subrange(1, r.len() as int) =~= cs@.subrange(start + 1, cs@.len() as int));
        }
        start = start + 1;
    }
    let ghost p = cs@.subrange(start as int, cs@.len() as int);
    proof {
        assert(trim_start_spec(p, '#') == p);
    }
    let mut cut: usize = cs.len();
    while cut > start && cs[cut - 1] != '/'
        invariant
            start <= cut <= cs@.len(),
            last_component(p) == last_component(cs@.subrange(start as int, cut as int)) + cs@.subrange(cut as int, cs@.len() as int),
        decreases cut - start,
    {
        proof {
            let q = cs@.subrange(start as int, cut as int);
            assert(q.drop_last() =~= cs@.subrange(start as int, cut - 1));
            assert(cs@.subrange(cut - 1, cs@.len() as int) =~= seq![q.last()] + cs@.subrange(cut as int, cs@.len() as int));
        }
        cut = cut - 1;
    }
    proof {
        let q = cs@.subrange(start as int, cut as int);
        if cut > start {
            assert(q.last() == '/');
        } else {
            assert(q.len() == 0);
        }
        assert(last_component(p) =~= cs@.subrange(cut as int, cs@.len() as int));
    }
    let pointer = string_from_chars(slice_chars(cs.as_slice(), start, cs.len()).as_slice());
    let last = string_from_chars(slice_chars(cs.as_slice(), cut, cs.len()).as_slice());
    let key = unescape_pointer_component(last.as_str());
    proof {
        assert(pointer@ =~= p);
    }
    json_entry_call(doc, pointer.as_str(), key.as_str())
}

/// `p` is a prefix of the chain of one of the stacks.
pub open spec fn in_some_stack_chain(stacks: Seq<Seq<Seq<char>>>, op_ids: Map<Seq<Seq<char>>, Seq<char>>, p: Seq<KeyView>) -> bool {
    exists|i: int| 0 <= i < stacks.len() && is_prefix_of(p, stack_chain(#[trigger] stacks[i], op_ids))
}

/// A reported change has an individual change that is kept.
pub open spec fn raw_kept(c: RawChangeView) -> bool {
    exists|k: int| 0 <= k < c.3.len() && info_kept(#[trigger] c.3[k])
}

/// `issue` is the compatibility issue of the reported change `c`: its bases
/// classified from the base pointers, the JSON at each base that is not the
/// paths container, the kept changes sorted and each once, and the tree of
/// the blessed-side `$ref` stacks.
#[verifier::opaque]
pub open spec fn issue_of(
    issue: ApiCompatIssue,
    c: RawChangeView,
    bdoc: Seq<u8>,
    gdoc: Seq<u8>,
    bops: Map<Seq<Seq<char>>, Seq<char>>,
    gops: Map<Seq<Seq<char>>, Seq<char>>,
) -> bool {
    &&& base_view(issue.blessed_base) == classify_spec(parse_pointer_spec(c.1), bops)
    &&& base_view(issue.generated_base) == classify_spec(parse_pointer_spec(c.2), gops)
    &&& opt_text(issue.blessed_value) == if base_view(issue.blessed_base).0 == 2 {
        None
    } else {
        json_value_of(bdoc, c.1)
    }
    &&& opt_text(issue.generated_value) == if base_view(issue.generated_base).0 == 2 {
        None
    } else {
        json_value_of(gdoc, c.2)
    }
    &&& sorted_changes_of(changes_view(issue.changes@), c.3)
    &&& ordered(issue.tree)
    &&& forall|p: Seq<KeyView>| has_path(issue.tree, p) == (p.len() == 0 || in_some_stack_chain(c.0, bops, p))
}

fn make_issue(
    ch: &RawChange,
    changes: Vec<SubpathChange>,
    bdoc: &[u8],
    gdoc: &[u8],
    bops: &OperationIdMap,
    gops: &OperationIdMap,
) -> (res: ApiCompatIssue)
    requires
        sorted_changes_of(changes_view(changes@), infos_view(ch.infos@)),
    ensures
        issue_of(res, raw_view(*ch), bdoc@, gdoc@, bops@, gops@),
{
    let blessed_base = DocumentBasePath::classify(DocumentPath::parse(ch.old_base.as_str()), bops);
    let generated_base = DocumentBasePath::classify(DocumentPath::parse(ch.new_base.as_str()), gops);
    let blessed_value = if blessed_base.is_paths_root() {
        None
    } else {
        json_value_at(bdoc, ch.old_base.as_str())
    };
    let generated_value = if generated_base.is_paths_root() {
        None
    } else {
        json_value_at(gdoc, ch.new_base.as_str())
    };
    let tree = PathTree::build(&ch.old_paths, bops);
    proof {
        let sv = raw_view(*ch).0;
        assert forall|p: Seq<KeyView>| in_some_chain(ch.old_paths@, bops@, p) == in_some_stack_chain(sv, bops@, p) by {
            if in_some_chain(ch.old_paths@, bops@, p) {
                let i = choose|i: int| 0 <= i < ch.old_paths@.len() && is_prefix_of(p, stack_chain(strings_view(#[trigger] ch.old_paths@[i]@), bops@));
                assert(sv[i] == strings_view(ch.old_paths@[i]@));
            }
            if in_some_stack_chain(sv, bops@, p) {
                let i = choose|i: int| 0 <= i < sv.len() && is_prefix_of(p, stack_chain(#[trigger] sv[i], bops@));
                assert(sv[i] == strings_view(ch.old_paths@[i]@));
            }
        }
    }
    let res = ApiCompatIssue { blessed_base, generated_base, changes, tree, blessed_value, generated_value };
    proof {
        reveal(issue_of);
    }
    res
}

/// Order of issues: by blessed base, then by generated base.
pub open spec fn issue_order(a: ApiCompatIssue, b: ApiCompatIssue) -> int {
    let o = key_order((base_view(a.blessed_base), seq![]), (base_view(b.blessed_base), seq![]));
    if o != 0 {
        o
    } else {
        key_order((base_view(a.generated_base), seq![]), (base_view(b.generated_base), seq![]))
    }
}

fn compare_issues(a: &ApiCompatIssue, b: &ApiCompatIssue) -> (res: i8)
    ensures
        res as int == issue_order(*a, *b),
{
    let o = compare_bases(&a.blessed_base, &b.blessed_base);
    if o != 0 {
        o
    } else {
        compare_bases(&a.generated_base, &b.generated_base)
    }
}

proof fn lemma_issue_order(a: ApiCompatIssue, b: ApiCompatIssue)
    ensures
        issue_order(a, b) == -issue_order(b, a),
{
    lemma_key_order((base_view(a.blessed_base), seq![]), (base_view(b.blessed_base), seq![]));
    lemma_key_order((base_view(a.generated_base), seq![]), (base_view(b.generated_base), seq![]));
}

/// `issues` are the issues of the reported changes `cs` that have a kept
/// individual change, one for each, ordered by base: `perm` gives, for each
/// issue, the index of its reported change.
pub open spec fn issues_of(
    issues: Seq<ApiCompatIssue>,
    perm: Seq<int>,
    cs: Seq<RawChangeView>,
    n: int,
    bdoc: Seq<u8>,
    gdoc: Seq<u8>,
    bops: Map<Seq<Seq<char>>, Seq<char>>,
    gops: Map<Seq<Seq<char>>, Seq<char>>,
) -> bool {
    &&& perm.len() == issues.len()
    &&& perm.no_duplicates()
    &&& forall|i: int| 0 <= i < perm.len() ==> 0 <= #[trigger] perm[i] < n && raw_kept(cs[perm[i]])
        && issue_of(issues[i], cs[perm[i]], bdoc, gdoc, bops, gops)
    &&& forall|k: int| 0 <= k < n && raw_kept(#[trigger] cs[k]) ==> perm.contains(k)
}

/// The issues are in order of their bases.
pub open spec fn issues_sorted(issues: Seq<ApiCompatIssue>) -> bool {
    forall|i: int| 0 <= i < issues.len() - 1 ==> issue_order(#[trigger] issues[i], issues[i + 1]) <= 0
}

proof fn lemma_issue_insert_sorted(o0: Seq<ApiCompatIssue>, pos: int, issue: ApiCompatIssue)
    requires
        0 <= pos <= o0.len(),
        issues_sorted(o0),
        forall|t: int| 0 <= t < pos ==> issue_order(o0[t], issue) <= 0,
        pos < o0.len() ==> issue_order(issue, o0[pos]) < 0,
    ensures
        issues_sorted(o0.insert(pos, issue)),
{
    let o1 = o0.insert(pos, issue);
    assert forall|i: int| 0 <= i < o1.len() - 1 implies issue_order(#[trigger] o1[i], o1[i + 1]) <= 0 by {
        if i + 1 < pos {
        } else if i + 1 == pos {
            assert(o1[i] == o0[i]);
        } else if i == pos {
            assert(o1[i + 1] == o0[pos]);
        } else {
            assert(o1[i] == o0[i - 1] && o1[i + 1] == o0[i]);
        }
    }
}

proof fn lemma_issue_insert(
    o0: Seq<ApiCompatIssue>,
    p0: Seq<int>,
    pos: int,
    issue: ApiCompatIssue,
    k: int,
    cv: Seq<RawChangeView>,
    bdoc: Seq<u8>,
    gdoc: Seq<u8>,
    bops: Map<Seq<Seq<char>>, Seq<char>>,
    gops: Map<Seq<Seq<char>>, Seq<char>>,
)
    requires
        0 <= pos <= o0.len(),
        0 <= k < cv.len(),
        issues_of(o0, p0, cv, k, bdoc, gdoc, bops, gops),
        raw_kept(cv[k]),
        issue_of(issue, cv[k], bdoc, gdoc, bops, gops),
    ensures
        issues_of(o0.insert(pos, issue), p0.insert(pos, k), cv, k + 1, bdoc, gdoc, bops, gops),
{
    let o1 = o0.insert(pos, issue);
    let perm = p0.insert(pos, k);
    assert forall|i: int| 0 <= i < perm.len() implies 0 <= #[trigger] perm[i] < k + 1 && raw_kept(cv[perm[i]])
        && issue_of(o1[i], cv[perm[i]], bdoc, gdoc, bops, gops) by {
        if i < pos {
            assert(perm[i] == p0[i] && o1[i] == o0[i]);
        } else if i > pos {
            assert(perm[i] == p0[i - 1] && o1[i] == o0[i - 1]);
        }
    }
    assert(!p0.contains(k)) by {
        if p0.contains(k) {
            let i = choose|i: int| 0 <= i < p0.len() && p0[i] == k;
            assert(0 <= p0[i] < k);
        }
    }
    assert forall|a: int, b: int| 0 <= a < perm.len() && 0 <= b < perm.len() && a != b implies perm[a] != perm[b] by {
        if a != pos && b != pos {
            let a0 = if a < pos { a } else { a - 1 };
            let b0 = if b < pos { b } else { b - 1 };
            assert(perm[a] == p0[a0] && perm[b] == p0[b0]);
        } else if a == pos {
            let b0 = if b < pos { b } else { b - 1 };
            assert(perm[b] == p0[b0]);
            assert(p0.contains(p0[b0]));
        } else {
            let a0 = if a < pos { a } else { a - 1 };
            assert(perm[a] == p0[a0]);
            assert(p0.contains(p0[a0]));
        }
    }
    assert forall|j: int| 0 <= j < k + 1 && raw_kept(#[trigger] cv[j]) implies perm.contains(j) by {
        if j == k {
            assert(perm[pos] == j);
        } else {
            assert(p0.contains(j));
            let i = choose|i: int| 0 <= i < p0.len() && p0[i] == j;
            if i < pos {
                assert(perm[i] == j);
            } else {
                assert(perm[i + 1] == j);
            }
        }
    }
}

/// The compatibility issues of the reported changes: a change whose
/// individual changes are all trivial is skipped; each other change gives
/// one issue (see `issue_of`); the issues are ordered by base.
pub fn issues_from_changes(
    changes: &Vec<RawChange>,
    bdoc: &[u8],
    gdoc: &[u8],
    bops: &OperationIdMap,
    gops: &OperationIdMap,
) -> (res: Vec<ApiCompatIssue>)
    ensures
        issues_sorted(res@),
        exists|perm: Seq<int>| issues_of(res@, perm, raws_view(changes@), changes@.len() as int, bdoc@, gdoc@, bops@, gops@),
{
    let ghost cv = raws_view(changes@);
    let mut out: Vec<ApiCompatIssue> = Vec::new();
    let ghost mut perm: Seq<int> = seq![];
    let mut k: usize = 0;
    while k < changes.len()
        invariant
            k <= changes@.len(),
            cv == raws_view(changes@),
            cv.len() == changes@.len(),
            issues_sorted(out@),
            issues_of(out@, perm, cv, k as int, bdoc@, gdoc@, bops@, gops@),
        decreases changes@.len() - k,
    {
        let ch = &changes[k];
        proof {
            assert(cv[k as int] == raw_view(*ch));
        }
        let cs = sorted_changes(&ch.infos);
        let ghost iv = infos_view(ch.infos@);
        if cs.len() == 0 {
            proof {
                if raw_kept(cv[k as int]) {
                    let t = choose|t: int| 0 <= t < iv.len() && info_kept(#[trigger] iv[t]);
                    assert(changes_view(cs@).contains(info_change(iv[t])));
                }
                assert forall|j: int| 0 <= j < k + 1 && raw_kept(#[trigger] cv[j]) implies perm.contains(j) by {}
                assert forall|i: int| 0 <= i < perm.len() implies 0 <= #[trigger] perm[i] < k + 1 && raw_kept(cv[perm[i]])
                    && issue_of(out@[i], cv[perm[i]], bdoc@, gdoc@, bops@, gops@) by {}
            }
        } else {
            proof {
                let x = changes_view(cs@)[0];
                assert(changes_view(cs@).contains(x));
                let t = choose|t: int| 0 <= t < iv.len() && info_kept(#[trigger] iv[t]) && info_change(iv[t]) == x;
                assert(raw_kept(cv[k as int]));
            }
            let issue = make_issue(ch, cs, bdoc, gdoc, bops, gops);
            let mut pos: usize = 0;
            while pos < out.len() && compare_issues(&out[pos], &issue) <= 0
                invariant
                    pos <= out@.len(),
                    forall|t: int| 0 <= t < pos ==> issue_order(out@[t], issue) <= 0,
                decreases out@.len() - pos,
            {
                pos = pos + 1;
            }
            let ghost o0 = out@;
            let ghost p0 = perm;
            proof {
                if pos < o0.len() {
                    lemma_issue_order(o0[pos as int], issue);
                }
                lemma_issue_insert_sorted(o0, pos as int, issue);
                lemma_issue_insert(o0, p0, pos as int, issue, k as int, cv, bdoc@, gdoc@, bops@, gops@);
            }
            out.insert(pos, issue);
            proof {
                perm = p0.insert(pos as int, k as int);
                assert(out@ =~= o0.insert(pos as int, issue));
            }
        }
        k = k + 1;
    }
    out
}

/// The `responses` of a websocket endpoint as documents once wrote them,
/// as compact JSON (keys in sorted order).
pub const OLD_WS_RESPONSES: &'static str = "{\"default\":{\"content\":{\"*/*\":{\"schema\":{}}},\"description\":\"\"}}";

/// The `responses` of a websocket endpoint as documents now write them, as
/// compact JSON (keys in sorted order).
pub const NEW_WS_RESPONSES: &'static str = "{\"101\":{\"description\":\"Negotiating protocol upgrade from HTTP/1.1 to WebSocket\"},\"4XX\":{\"$ref\":\"#/components/responses/Error\"},\"5XX\":{\"$ref\":\"#/components/responses/Error\"}}";

/// For each method entry under `/paths` of a document: its route, its
/// method, whether the operation has the `x-dropshot-websocket` key, and its
/// `responses` as compact JSON, if it has them; nothing when the bytes are
/// not JSON.
pub uninterp spec fn doc_ws_ops(doc: Seq<u8>) -> Seq<(Seq<char>, Seq<char>, bool, Option<Seq<char>>)>;

/// The document with the `responses` of each listed (route, method)
/// operation replaced by the JSON `responses`, written back as JSON.
pub uninterp spec fn with_responses(doc: Seq<u8>, edits: Seq<(Seq<char>, Seq<char>)>, responses: Seq<char>) -> Seq<u8>;

/// Parses the document with `serde_json::from_slice` and lists its method
/// entries under `/paths` with `Value::get` and `serde_json::to_string`.
///
/// Trusted: the result is `doc_ws_ops` of the document; the JSON text is
/// not restated.
#[verifier::external_body]
fn doc_ws_ops_call(doc: &[u8]) -> (res: Vec<(String, String, bool, Option<String>)>)
    ensures
        ws_ops_view(res@) == doc_ws_ops(doc@),
{
    let Ok(doc) = serde_json::from_slice::<serde_json::Value>(doc) else { return Vec::new() };
    let paths = doc.pointer("/paths").and_then(|v| v.as_object()).into_iter().flatten();
    paths.flat_map(|(route, item)| item.as_object().into_iter().flatten().map(move |(method, op)| {
        let responses = op.get("responses").map(|r| serde_json::to_string(r).unwrap_or_default());
        (route.clone(), method.clone(), op.get("x-dropshot-websocket").is_some(), responses)
    })).collect()
}

/// Parses the document and the responses with `serde_json::from_slice`,
/// sets `responses` of each listed operation (`Value::pointer_mut`,
/// `Map::insert`) and writes it back with `serde_json::to_vec`.
///
/// Trusted: the result is `with_responses` of the three arguments.
#[verifier::external_body]
fn with_responses_call(doc: &[u8], edits: &Vec<(String, String)>, responses: &str) -> (res: Vec<u8>)
    ensures
        res@ == with_responses(doc@, edits@.map_values(|e: (String, String)| (e.0@, e.1@)), responses@),
{
    let mut doc: serde_json::Value = serde_json::from_slice(doc).unwrap_or_default();
    let responses: serde_json::Value = serde_json::from_str(responses).unwrap_or_default();
    for (route, method) in edits {
        let op = doc.get_mut("paths").and_then(|p| p.get_mut(route)).and_then(|i| i.get_mut(method));
        if let Some(serde_json::Value::Object(op)) = op {
            op.insert("responses".to_string(), responses.clone());
        }
    }
    serde_json::to_vec(&doc).unwrap_or_default()
}

/// Abstract value of a list of websocket facts.
pub open spec fn ws_ops_view(v: Seq<(String, String, bool, Option<String>)>) -> Seq<(Seq<char>, Seq<char>, bool, Option<Seq<char>>)> {
    v.map_values(|o: (String, String, bool, Option<String>)| (o.0@, o.1@, o.2, opt_text(o.3)))
}

/// The generated document has the operation at `route`/`method` as a
/// websocket endpoint with the new-format responses.
pub open spec fn generated_is_new_ws(g: Seq<(Seq<char>, Seq<char>, bool, Option<Seq<char>>)>, route: Seq<char>, method: Seq<char>) -> bool {
    exists|j: int| 0 <= j < g.len() && (#[trigger] g[j]).0 == route && g[j].1 == method && g[j].2 && g[j].3 == Some(NEW_WS_RESPONSES@)
}

/// The blessed websocket endpoints, in document order, whose responses are
/// exactly the old format while the generated document has the same
/// endpoint as a websocket endpoint with exactly the new format.
pub open spec fn ws_edits(
    b: Seq<(Seq<char>, Seq<char>, bool, Option<Seq<char>>)>,
    g: Seq<(Seq<char>, Seq<char>, bool, Option<Seq<char>>)>,
) -> Seq<(Seq<char>, Seq<char>)>
    decreases b.len(),
{
    if b.len() == 0 {
        seq![]
    } else {
        let (route, method, ws, responses) = b.last();
        let rest = ws_edits(b.drop_last(), g);
        if ws && responses == Some(OLD_WS_RESPONSES@) && generated_is_new_ws(g, route, method) {
            rest.push((route, method))
        } else {
            rest
        }
    }
}

/// The blessed document with old-format websocket responses rewritten to
/// the new format where the generated document has the new format (see
/// `ws_edits`); unchanged when there is nothing to rewrite.
pub open spec fn normalized_blessed(blessed: Seq<u8>, generated: Seq<u8>) -> Seq<u8> {
    let edits = ws_edits(doc_ws_ops(blessed), doc_ws_ops(generated));
    if edits.len() == 0 {
        blessed
    } else {
        with_responses(blessed, edits, NEW_WS_RESPONSES@)
    }
}

fn has_new_ws(g: &Vec<(String, String, bool, Option<String>)>, route: &String, method: &String) -> (res: bool)
    ensures
        res == generated_is_new_ws(ws_ops_view(g@), route@, method@),
{
    let ghost gv = ws_ops_view(g@);
    let mut j: usize = 0;
    while j < g.len()
        invariant
            j <= g@.len(),
            gv == ws_ops_view(g@),
            forall|t: int| 0 <= t < j ==> !(gv[t].0 == route@ && gv[t].1 == method@ && gv[t].2 && gv[t].3 == Some(NEW_WS_RESPONSES@)),
        decreases g@.len() - j,
    {
        let (r, m, ws, responses) = &g[j];
        proof {
            assert(gv[j as int] == (r@, m@, *ws, opt_text(*responses)));
        }
        if *ws && str_eq(r.as_str(), route.as_str()) && str_eq(m.as_str(), method.as_str()) {
            match responses {
                Some(text) => {
                    if str_eq(text.as_str(), NEW_WS_RESPONSES) {
                        return true;
                    }
                },
                None => {},
            }
        }
        j = j + 1;
    }
    false
}

/// Rewrites old-format websocket responses in the blessed document to the
/// format the generated document uses, where both sides are exactly in those
/// formats (the wire format did not change); see `normalized_blessed`.
/// `serde_json` keeps object keys sorted here (its `preserve_order` feature
/// is off), and neither format holds a number or `null`, so a `responses`
/// value equals one of the formats exactly when its compact text does.
pub fn normalize_old_websocket_responses(blessed: &[u8], generated: &[u8]) -> (res: Vec<u8>)
    ensures
        res@ == normalized_blessed(blessed@, generated@),
{
    let b = doc_ws_ops_call(blessed);
    let g = doc_ws_ops_call(generated);
    let ghost bv = ws_ops_view(b@);
    let ghost gv = ws_ops_view(g@);
    let mut edits: Vec<(String, String)> = Vec::new();
    let mut i: usize = 0;
    while i < b.len()
        invariant
            i <= b@.len(),
            bv == ws_ops_view(b@),
            gv == ws_ops_view(g@),
            edits@.map_values(|e: (String, String)| (e.0@, e.1@)) == ws_edits(bv.subrange(0, i as int), gv),
        decreases b@.len() - i,
    {
        let ghost e0 = edits@;
        let (route, method, ws, responses) = &b[i];
        proof {
            assert(bv[i as int] == (route@, method@, *ws, opt_text(*responses)));
            assert(bv.subrange(0, i + 1).drop_last() =~= bv.subrange(0, i as int));
        }
        let mut old_format = false;
        match responses {
            Some(text) => {
                old_format = str_eq(text.as_str(), OLD_WS_RESPONSES);
            },
            None => {},
        }
        if *ws && old_format && has_new_ws(&g, route, method) {
            edits.push((route.clone(), method.clone()));
            proof {
                assert(edits@.map_values(|e: (String, String)| (e.0@, e.1@)) =~= e0.map_values(
                    |e: (String, String)| (e.0@, e.1@),
                ).push((route@, method@)));
            }
        }
        i = i + 1;
    }
    proof {
        assert(bv.subrange(0, b@.len() as int) =~= bv);
    }
    if edits.len() == 0 {
        let mut out: Vec<u8> = Vec::new();
        let mut k: usize = 0;
        while k < blessed.len()
            invariant
                k <= blessed@.len(),
                out@ == blessed@.subrange(0, k as int),
            decreases blessed@.len() - k,
        {
            out.push(blessed[k]);
            proof {
                assert(blessed@.subrange(0, k + 1) =~= blessed@.subrange(0, k as int).push(blessed@[k as int]));
            }
            k = k + 1;
        }
        proof {
            assert(blessed@.subrange(0, blessed@.len() as int) =~= blessed@);
        }
        out
    } else {
        with_responses_call(blessed, &edits, NEW_WS_RESPONSES)
    }
}

/// What comparing a blessed and a generated document gives, from `report`,
/// what the comparison reported for the normalized blessed document (see
/// `normalized_blessed`) and the generated one: either its error, or the
/// issues of its changes (see `issues_of`), ordered by base, with the
/// operation ids of each document taken from its endpoints.
pub open spec fn compat_spec(
    res: CompatOutcome,
    blessed: Seq<u8>,
    generated: Seq<u8>,
    report: Result<Seq<RawChangeView>, Seq<char>>,
) -> bool {
    let nb = normalized_blessed(blessed, generated);
    match report {
        Err(e) => res is CompareError && res->CompareError_0@ == e,
        Ok(cs) => res is Issues && issues_sorted(res->Issues_0@) && exists|perm: Seq<int>|
            issues_of(
                res->Issues_0@,
                perm,
                cs,
                cs.len() as int,
                nb,
                generated,
                ops_map(doc_operations(nb)),
                ops_map(doc_operations(generated)),
            ),
    }
}

/// The outcome of comparing a blessed and a generated document (see
/// `compat_spec`). `report` is what `drift::compare` reported for the
/// blessed document as `normalize_old_websocket_responses` leaves it and the
/// generated one; the comparison is made by the caller, since `drift`
/// panics on some documents that cannot be told apart beforehand.
pub fn api_compatible(blessed: &[u8], generated: &[u8], report: Result<Vec<RawChange>, String>) -> (res: CompatOutcome)
    ensures
        compat_spec(res, blessed@, generated@, report_view(report)),
{
    let ghost rv = report_view(report);
    let nb = normalize_old_websocket_responses(blessed, generated);
    let bops = extract_operation_ids(nb.as_slice());
    let gops = extract_operation_ids(generated);
    match report {
        Err(e) => {
            assert(rv == Err::<Seq<RawChangeView>, Seq<char>>(e@));
            let res = CompatOutcome::CompareError(e);
            assert(res is CompareError && res->CompareError_0@ == rv->Err_0);
            assert(rv is Err);
            assert(compat_spec(res, blessed@, generated@, rv)) by {
                let e2 = rv->Err_0;
                assert(rv == Err::<Seq<RawChangeView>, Seq<char>>(e2));
            }
            res
        },
        Ok(changes) => {
            let issues = issues_from_changes(&changes, nb.as_slice(), generated, &bops, &gops);
            let ghost cs = raws_view(changes@);
            assert(cs.len() == changes@.len());
            let ghost perm = choose|perm: Seq<int>| issues_of(issues@, perm, cs, changes@.len() as int, nb@, generated@, bops@, gops@);
            assert(issues_of(issues@, perm, cs, cs.len() as int, nb@, generated@, ops_map(doc_operations(nb@)), ops_map(doc_operations(generated@))));
            let res = CompatOutcome::Issues(issues);
            assert(res->Issues_0@ == issues@);
            assert(issues_of(res->Issues_0@, perm, cs, cs.len() as int, nb@, generated@, ops_map(doc_operations(nb@)), ops_map(doc_operations(generated@))));
            assert(exists|p: Seq<int>| issues_of(res->Issues_0@, p, cs, cs.len() as int, nb@, generated@, ops_map(doc_operations(nb@)), ops_map(doc_operations(generated@))));
            assert(normalized_blessed(blessed@, generated@) == nb@);
            assert(rv == Ok::<Seq<RawChangeView>, Seq<char>>(cs));
            assert(rv is Ok);
            assert(rv->Ok_0 == cs);
            assert(res is Issues);
            assert(issues_sorted(res->Issues_0@));
            assert(compat_spec(res, blessed@, generated@, rv));
            res
        },
    }
}

/// A reported class code is the declaration index of the class in
/// `drift::ChangeClass`: 0 backward-incompatible, 1 forward-incompatible,
/// 2 incompatible, 3 trivial, 4 unhandled; the change made of a report
/// keeps that class, and only code 3 is trivial.
pub proof fn law_class_code_is_declaration_index(code: u8)
    requires
        code < 5,
    ensures
        class_rank(class_of_code(code)) == code as int,
        info_kept((code, seq![], seq![], seq![])) == (code != 3),
{
}

/// Every change of every issue that a comparison gives comes from an
/// individual change of the report, with the class whose declaration index
/// is the reported code, and with the reported message: the classes are
/// not renamed, and no change is trivial.
pub proof fn law_issue_change_classes(
    res: CompatOutcome,
    blessed: Seq<u8>,
    generated: Seq<u8>,
    cs: Seq<RawChangeView>,
    i: int,
    k: int,
)
    requires
        compat_spec(res, blessed, generated, Ok(cs)),
        forall|j: int, t: int| 0 <= j < cs.len() && 0 <= t < cs[j].3.len() ==> (#[trigger] cs[j].3[t]).0 < 5,
        0 <= i < res->Issues_0@.len(),
        0 <= k < res->Issues_0@[i].changes@.len(),
    ensures
        ({
            let c = res->Issues_0@[i].changes@[k];
            &&& c.class != ChangeClass::Trivial
            &&& exists|j: int, t: int|
                0 <= j < cs.len() && 0 <= t < cs[j].3.len() && class_rank(c.class) == (#[trigger] cs[j].3[t]).0 as int
                    && c.message@ == cs[j].3[t].1
        }),
{
    let nb = normalized_blessed(blessed, generated);
    let v = res->Issues_0@;
    let perm = choose|perm: Seq<int>|
        issues_of(v, perm, cs, cs.len() as int, nb, generated, ops_map(doc_operations(nb)), ops_map(doc_operations(generated)));
    let j = perm[i];
    assert(issue_of(v[i], cs[j], nb, generated, ops_map(doc_operations(nb)), ops_map(doc_operations(generated))));
    reveal(issue_of);
    let cv = changes_view(v[i].changes@);
    let c = v[i].changes@[k];
    assert(cv[k] == change_view(c));
    assert(cv.contains(change_view(c)));
    let t = choose|t: int| 0 <= t < cs[j].3.len() && info_kept(#[trigger] cs[j].3[t]) && info_change(cs[j].3[t]) == change_view(c);
    let code = cs[j].3[t].0;
    law_class_code_is_declaration_index(code);
    assert(class_rank(c.class) == cs[j].3[t].0 as int);
}

/// A blessed version is broken exactly when the comparison of its documents
/// finds a change that is not trivial: when the comparison succeeds, there
/// is an issue exactly for each reported change with a non-trivial part.
pub proof fn law_broken_iff_non_trivial(
    res: CompatOutcome,
    blessed: Seq<u8>,
    generated: Seq<u8>,
    cs: Seq<RawChangeView>,
)
    requires
        compat_spec(res, blessed, generated, Ok(cs)),
    ensures
        res is Issues,
        (res->Issues_0@.len() > 0) == exists|k: int| 0 <= k < cs.len() && raw_kept(#[trigger] cs[k]),
{
    let nb = normalized_blessed(blessed, generated);
    let v = res->Issues_0@;
    let perm = choose|perm: Seq<int>| issues_of(v, perm, cs, cs.len() as int, nb, generated, ops_map(doc_operations(nb)), ops_map(doc_operations(generated)));
    if v.len() > 0 {
        assert(raw_kept(cs[perm[0]]));
    }
    if exists|k: int| 0 <= k < cs.len() && raw_kept(#[trigger] cs[k]) {
        let k = choose|k: int| 0 <= k < cs.len() && raw_kept(#[trigger] cs[k]);
        assert(perm.contains(k));
    }
}

} // verus!
