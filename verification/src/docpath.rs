//! Locations inside an OpenAPI document, parsed from JSON Pointers into
//! their (unescaped) segments, and their classification as components,
//! endpoints or the `paths` container.

use vstd::prelude::*;
use crate::pointer::{split_spec, trim_spec, unescape_spec, trim_matches, unescape_chars};
use crate::text::{chars_of, chars_eq, ends_with, slice_chars, string_from_chars};

verus! {

/// A location within an OpenAPI document: its segments, unescaped. The
/// root location has no segments.
#[derive(Debug, Clone, PartialEq, Eq, PartialOrd, Ord, Hash)]
pub struct DocumentPath {
    /// The segments of this path, unescaped.
    pub segments: Vec<String>,
}

/// The segments of a list of strings, as character sequences.
pub open spec fn strings_view(v: Seq<String>) -> Seq<Seq<char>> {
    v.map_values(|s: String| s@)
}

impl View for DocumentPath {
    type V = Seq<Seq<char>>;

    open spec fn view(&self) -> Seq<Seq<char>> {
        strings_view(self.segments@)
    }
}

/// Segments of a JSON Pointer (or relative subpath): leading and trailing
/// `#` then `/` are dropped; an empty remainder is the root, and otherwise
/// each `/`-separated piece is unescaped.
pub open spec fn parse_pointer_spec(pointer: Seq<char>) -> Seq<Seq<char>> {
    let t = trim_spec(trim_spec(pointer, '#'), '/');
    if t.len() == 0 {
        seq![]
    } else {
        split_spec(t, '/').map_values(|c: Seq<char>| unescape_spec(c))
    }
}

proof fn lemma_strings_view_push(v: Seq<String>, s: String)
    ensures
        strings_view(v.push(s)) == strings_view(v).push(s@),
{
    assert(strings_view(v.push(s)) =~= strings_view(v).push(s@));
}

proof fn lemma_unescape_map_push(p: Seq<Seq<char>>)
    requires
        p.len() >= 1,
    ensures
        p.map_values(|c: Seq<char>| unescape_spec(c)) == p.drop_last().map_values(
            |c: Seq<char>| unescape_spec(c),
        ).push(unescape_spec(p.last())),
{
    assert(p.map_values(|c: Seq<char>| unescape_spec(c)) =~= p.drop_last().map_values(
        |c: Seq<char>| unescape_spec(c),
    ).push(unescape_spec(p.last())));
}

fn string_of(cs: &[char]) -> (res: String)
    ensures
        res@ == cs@,
{
    string_from_chars(cs)
}

impl DocumentPath {
    /// Parses a JSON Pointer (or relative subpath) into segments; a leading
    /// `#` or `/` is accepted and an empty input is the root.
    pub fn parse(pointer: &str) -> (res: Self)
        ensures
            res@ == parse_pointer_spec(pointer@),
    {
        let p = chars_of(pointer);
        let t1 = trim_matches(p.as_slice(), '#');
        let t = trim_matches(t1.as_slice(), '/');
        if t.len() == 0 {
            let r = DocumentPath::root();
            assert(r@ =~= parse_pointer_spec(pointer@));
            return r;
        }
        let mut segments: Vec<String> = Vec::new();
        let mut cur: Vec<char> = Vec::new();
        let mut i: usize = 0;
        proof {
            assert(t@.subrange(0, 0) == Seq::<char>::empty());
        }
        while i < t.len()
            invariant
                i <= t@.len(),
                strings_view(segments@) == split_spec(t@.subrange(0, i as int), '/').drop_last()
                    .map_values(|c: Seq<char>| unescape_spec(c)),
                cur@ == split_spec(t@.subrange(0, i as int), '/').last(),
                split_spec(t@.subrange(0, i as int), '/').len() >= 1,
            decreases t@.len() - i,
        {
            let ghost prev = split_spec(t@.subrange(0, i as int), '/');
            assert(t@.subrange(0, i + 1).drop_last() == t@.subrange(0, i as int));
            assert(t@.subrange(0, i + 1).last() == t@[i as int]);
            let c = t[i];
            if c == '/' {
                let un = unescape_chars(cur.as_slice());
                let ghost before = segments@;
                let seg = string_of(un.as_slice());
                segments.push(seg);
                cur = Vec::new();
                proof {
                    let next = prev.push(seq![]);
                    assert(next.drop_last() == prev);
                    lemma_strings_view_push(before, seg);
                    lemma_unescape_map_push(prev);
                }
            } else {
                cur.push(c);
                proof {
                    let next = prev.update(prev.len() - 1, prev.last().push(c));
                    assert(next.drop_last() == prev.drop_last());
                }
            }
            i = i + 1;
        }
        assert(t@.subrange(0, t@.len() as int) == t@);
        let un = unescape_chars(cur.as_slice());
        let ghost before = segments@;
        let seg = string_of(un.as_slice());
        segments.push(seg);
        proof {
            let parts = split_spec(t@, '/');
            lemma_strings_view_push(before, seg);
            lemma_unescape_map_push(parts);
        }
        DocumentPath { segments }
    }

    /// The root path (no segments).
    pub fn root() -> (res: Self)
        ensures
            res@ == Seq::<Seq<char>>::empty(),
    {
        let r = DocumentPath { segments: Vec::new() };
        assert(r@ =~= Seq::<Seq<char>>::empty());
        r
    }

    /// True for the root path.
    pub fn is_root(&self) -> (res: bool)
        ensures
            res == (self@.len() == 0),
    {
        self.segments.len() == 0
    }

    /// A copy of this path.
    pub fn duplicate(&self) -> (res: Self)
        ensures
            res@ == self@,
    {
        let mut out: Vec<String> = Vec::new();
        let mut i: usize = 0;
        while i < self.segments.len()
            invariant
                i <= self.segments@.len(),
                strings_view(out@) =~= strings_view(self.segments@.subrange(0, i as int)),
            decreases self.segments@.len() - i,
        {
            let ghost before = out@;
            let seg = self.segments[i].clone();
            out.push(seg);
            proof {
                lemma_strings_view_push(before, seg);
                lemma_strings_view_push(self.segments@.subrange(0, i as int), self.segments@[i as int]);
                assert(self.segments@.subrange(0, i + 1) == self.segments@.subrange(0, i as int).push(
                    self.segments@[i as int],
                ));
            }
            i = i + 1;
        }
        assert(self.segments@.subrange(0, self.segments@.len() as int) == self.segments@);
        DocumentPath { segments: out }
    }

    /// True when both paths have the same segments.
    pub fn same_as(&self, other: &DocumentPath) -> (res: bool)
        ensures
            res == (self@ == other@),
    {
        if self.segments.len() != other.segments.len() {
            assert(self@.len() != other@.len());
            return false;
        }
        let mut i: usize = 0;
        while i < self.segments.len()
            invariant
                self.segments@.len() == other.segments@.len(),
                i <= self.segments@.len(),
                forall|j: int| 0 <= j < i ==> self@[j] == other@[j],
            decreases self.segments@.len() - i,
        {
            if self.segments[i] != other.segments[i] {
                assert(self@[i as int] != other@[i as int]);
                return false;
            }
            i = i + 1;
        }
        assert(self@ =~= other@);
        true
    }

    /// Splits into the first `n` segments and the remainder; with `n` or
    /// fewer segments, the head is the whole path and the tail is the root.
    pub fn split_at(self, n: usize) -> (res: (Self, Self))
        ensures
            n >= self@.len() ==> res.0@ == self@ && res.1@ == Seq::<Seq<char>>::empty(),
            n < self@.len() ==> res.0@ == self@.subrange(0, n as int) && res.1@ == self@.subrange(
                n as int,
                self@.len() as int,
            ),
    {
        if n >= self.segments.len() {
            return (self, DocumentPath::root());
        }
        let mut head = self.segments;
        let tail = head.split_off(n);
        let h = DocumentPath { segments: head };
        let t = DocumentPath { segments: tail };
        assert(h@ =~= self@.subrange(0, n as int));
        assert(t@ =~= self@.subrange(n as int, self@.len() as int));
        (h, t)
    }
}

/// A map from endpoint base (`paths/<route>/<method>`) to its
/// `operationId`.
#[derive(Debug, Clone, Default)]
pub struct OperationIdMap {
    entries: Vec<(DocumentPath, String)>,
}

/// The map described by a list of entries, later entries taking precedence.
pub open spec fn op_map_of(entries: Seq<(DocumentPath, String)>) -> Map<Seq<Seq<char>>, Seq<char>>
    decreases entries.len(),
{
    if entries.len() == 0 {
        Map::empty()
    } else {
        op_map_of(entries.drop_last()).insert(entries.last().0@, entries.last().1@)
    }
}

impl View for OperationIdMap {
    type V = Map<Seq<Seq<char>>, Seq<char>>;

    closed spec fn view(&self) -> Map<Seq<Seq<char>>, Seq<char>> {
        op_map_of(self.entries@)
    }
}

impl OperationIdMap {
    /// An empty map.
    pub fn new() -> (res: Self)
        ensures
            res@ == Map::<Seq<Seq<char>>, Seq<char>>::empty(),
    {
        OperationIdMap { entries: Vec::new() }
    }

    /// Records `op_id` as the operation id of the endpoint at `base`.
    pub fn insert(&mut self, base: DocumentPath, op_id: String)
        ensures
            final(self)@ == old(self)@.insert(base@, op_id@),
    {
        let ghost old_entries = self.entries@;
        self.entries.push((base, op_id));
        assert(self.entries@.drop_last() == old_entries);
    }

    /// The operation id recorded for `base`, if any.
    pub fn get(&self, base: &DocumentPath) -> (res: Option<String>)
        ensures
            match res {
                Some(s) => self@.contains_key(base@) && self@[base@] == s@,
                None => !self@.contains_key(base@),
            },
    {
        let mut i: usize = self.entries.len();
        assert(self.entries@.subrange(0, i as int) == self.entries@);
        while i > 0
            invariant
                i <= self.entries@.len(),
                op_map_of(self.entries@).contains_key(base@) == op_map_of(
                    self.entries@.subrange(0, i as int),
                ).contains_key(base@),
                op_map_of(self.entries@).contains_key(base@) ==> op_map_of(self.entries@)[base@]
                    == op_map_of(self.entries@.subrange(0, i as int))[base@],
            decreases i,
        {
            let ghost pre = self.entries@.subrange(0, i as int);
            assert(pre.drop_last() == self.entries@.subrange(0, i - 1));
            if self.entries[i - 1].0.same_as(base) {
                return Some(self.entries[i - 1].1.clone());
            }
            i = i - 1;
        }
        assert(self.entries@.subrange(0, 0) == Seq::<(DocumentPath, String)>::empty());
        None
    }
}

/// A base location within an OpenAPI document.
#[derive(Debug, Clone, PartialEq, Eq, PartialOrd, Ord, Hash)]
pub enum DocumentBasePath {
    /// A reusable component, e.g. `#/components/schemas/Foo`.
    Component(DocumentPath),
    /// An endpoint, e.g. `#/paths/~1users~1{id}/get`.
    Endpoint {
        /// The path (`paths/<route>/<method>`).
        name: DocumentPath,
        /// The endpoint's `operationId`, if found.
        operation_id: Option<String>,
    },
    /// The `paths` container itself.
    PathsRoot,
    /// Anything that does not match a known base shape.
    Other(DocumentPath),
}

/// Abstract value of a base path: a tag (0 component, 1 endpoint, 2 the
/// `paths` container, 3 other), its segments, and the operation id.
pub open spec fn base_view(b: DocumentBasePath) -> (int, Seq<Seq<char>>, Option<Seq<char>>) {
    match b {
        DocumentBasePath::Component(p) => (0, p@, None),
        DocumentBasePath::Endpoint { name, operation_id } => (
            1,
            name@,
            match operation_id {
                Some(s) => Some(s@),
                None => None,
            },
        ),
        DocumentBasePath::PathsRoot => (2, seq![], None),
        DocumentBasePath::Other(p) => (3, p@, None),
    }
}

/// How a path is classified given the operation ids of the document.
pub open spec fn classify_spec(
    path: Seq<Seq<char>>,
    op_ids: Map<Seq<Seq<char>>, Seq<char>>,
) -> (int, Seq<Seq<char>>, Option<Seq<char>>) {
    if path.len() == 3 && path[0] == "components"@ {
        (0, path, None)
    } else if path.len() == 3 && path[0] == "paths"@ {
        (
            1,
            path,
            if op_ids.contains_key(path) {
                Some(op_ids[path])
            } else {
                None
            },
        )
    } else if path.len() == 1 && path[0] == "paths"@ {
        (2, seq![], None)
    } else {
        (3, path, None)
    }
}

fn is_word(s: &String, word: &str) -> (res: bool)
    ensures
        res == (s@ == word@),
{
    let a = chars_of(s.as_str());
    let b = chars_of(word);
    chars_eq(a.as_slice(), b.as_slice())
}

impl DocumentBasePath {
    /// Classifies `path`: `components/<kind>/<name>` is a component,
    /// `paths/<route>/<method>` an endpoint (with its operation id looked up
    /// in `op_ids`), `paths` alone the paths container, and anything else
    /// other.
    pub fn classify(path: DocumentPath, op_ids: &OperationIdMap) -> (res: Self)
        ensures
            base_view(res) == classify_spec(path@, op_ids@),
    {
        proof {
            reveal_strlit("components");
            reveal_strlit("paths");
        }
        let n = path.segments.len();
        if n == 3 && is_word(&path.segments[0], "components") {
            return DocumentBasePath::Component(path);
        }
        if n == 3 && is_word(&path.segments[0], "paths") {
            let operation_id = op_ids.get(&path);
            return DocumentBasePath::Endpoint { name: path, operation_id };
        }
        if n == 1 && is_word(&path.segments[0], "paths") {
            let r = DocumentBasePath::PathsRoot;
            assert(base_view(r).1 =~= Seq::<Seq<char>>::empty());
            return r;
        }
        DocumentBasePath::Other(path)
    }

    /// True for the `paths` container.
    pub fn is_paths_root(&self) -> (res: bool)
        ensures
            res == (base_view(*self).0 == 2),
    {
        match self {
            DocumentBasePath::PathsRoot => true,
            _ => false,
        }
    }

    /// A copy of this base.
    pub fn duplicate(&self) -> (res: Self)
        ensures
            base_view(res) == base_view(*self),
    {
        match self {
            DocumentBasePath::Component(p) => DocumentBasePath::Component(p.duplicate()),
            DocumentBasePath::Endpoint { name, operation_id } => DocumentBasePath::Endpoint {
                name: name.duplicate(),
                operation_id: match operation_id {
                    Some(s) => Some(s.clone()),
                    None => None,
                },
            },
            DocumentBasePath::PathsRoot => DocumentBasePath::PathsRoot,
            DocumentBasePath::Other(p) => DocumentBasePath::Other(p.duplicate()),
        }
    }

    /// True when both bases denote the same location (and operation id).
    pub fn same_as(&self, other: &DocumentBasePath) -> (res: bool)
        ensures
            res == (base_view(*self) == base_view(*other)),
    {
        match (self, other) {
            (DocumentBasePath::Component(a), DocumentBasePath::Component(b)) => a.same_as(b),
            (
                DocumentBasePath::Endpoint { name: a, operation_id: oa },
                DocumentBasePath::Endpoint { name: b, operation_id: ob },
            ) => {
                let same_ids = match (oa, ob) {
                    (Some(x), Some(y)) => *x == *y,
                    (None, None) => true,
                    _ => false,
                };
                a.same_as(b) && same_ids
            },
            (DocumentBasePath::PathsRoot, DocumentBasePath::PathsRoot) => true,
            (DocumentBasePath::Other(a), DocumentBasePath::Other(b)) => a.same_as(b),
            _ => false,
        }
    }
}

/// Number of segments in a ref base (`components/<kind>/<name>` or
/// `paths/<route>/<method>`).
pub const BASE_SEGMENTS: usize = 3;

/// One edge of a reference tree: a base location together with the subpath
/// of the `$ref` source within it.
#[derive(Debug, Clone, PartialEq, Eq, PartialOrd, Ord, Hash)]
pub struct PathTreeKey {
    /// The base location.
    pub base: DocumentBasePath,
    /// The subpath within the base.
    pub subpath: DocumentPath,
}

/// `entry` ends in `/$ref`.
pub open spec fn ends_in_ref_spec(entry: Seq<char>) -> bool {
    let suffix = "/$ref"@;
    suffix.len() <= entry.len() && entry.subrange(entry.len() - suffix.len(), entry.len() as int) == suffix
}

/// `entry` without its trailing `/$ref`.
pub open spec fn strip_ref_spec(entry: Seq<char>) -> Seq<char> {
    entry.subrange(0, entry.len() - "/$ref"@.len())
}

impl PathTreeKey {
    /// Parses a `$ref` stack entry `<base>/<subpath>/$ref` into its base (the
    /// first three segments) and subpath (the rest); an entry that does not
    /// end in `/$ref` is taken whole as the base, with no subpath.
    pub fn parse(entry: &str, op_ids: &OperationIdMap) -> (res: Self)
        ensures
            ends_in_ref_spec(entry@) ==> ({
                let segs = parse_pointer_spec(strip_ref_spec(entry@));
                if segs.len() <= 3 {
                    base_view(res.base) == classify_spec(segs, op_ids@) && res.subpath@
                        == Seq::<Seq<char>>::empty()
                } else {
                    base_view(res.base) == classify_spec(segs.subrange(0, 3), op_ids@)
                        && res.subpath@ == segs.subrange(3, segs.len() as int)
                }
            }),
            !ends_in_ref_spec(entry@) ==> base_view(res.base) == classify_spec(parse_pointer_spec(entry@), op_ids@)
                && res.subpath@ == Seq::<Seq<char>>::empty(),
    {
        proof {
            reveal_strlit("/$ref");
        }
        let cs = chars_of(entry);
        let suffix = chars_of("/$ref");
        if ends_with(cs.as_slice(), suffix.as_slice()) {
            let without_ref = slice_chars(cs.as_slice(), 0, cs.len() - suffix.len());
            let text = string_from_chars(without_ref.as_slice());
            let path = DocumentPath::parse(text.as_str());
            let (base, subpath) = path.split_at(BASE_SEGMENTS);
            PathTreeKey { base: DocumentBasePath::classify(base, op_ids), subpath }
        } else {
            let path = DocumentPath::parse(entry);
            PathTreeKey { base: DocumentBasePath::classify(path, op_ids), subpath: DocumentPath::root() }
        }
    }
}

} // verus!
