//! JSON Pointer (RFC 6901) helpers: escaping and unescaping of pointer
//! components, choosing the most specific of two related pointers, and
//! rendering a pointer in `jq` path notation.

use vstd::prelude::*;
use crate::text::{chars_of, chars_eq, contains_char, push_chars, starts_with, slice_chars, string_from_chars};

verus! {

/// Escaped form of one character inside a JSON Pointer component.
pub open spec fn escape_char(c: char) -> Seq<char> {
    if c == '~' {
        seq!['~', '0']
    } else if c == '/' {
        seq!['~', '1']
    } else {
        seq![c]
    }
}

/// Escaped form of a JSON Pointer component: `~` becomes `~0` and `/`
/// becomes `~1`.
pub open spec fn escape_spec(s: Seq<char>) -> Seq<char>
    decreases s.len(),
{
    if s.len() == 0 {
        seq![]
    } else {
        escape_spec(s.drop_last()) + escape_char(s.last())
    }
}

/// Decoded form of a JSON Pointer component, read left to right: `~1`
/// becomes `/`, `~0` becomes `~`, and every other character stays.
pub open spec fn unescape_spec(s: Seq<char>) -> Seq<char>
    decreases s.len(),
{
    if s.len() == 0 {
        seq![]
    } else if s.len() >= 2 && s[0] == '~' && s[1] == '1' {
        seq!['/'] + unescape_spec(s.subrange(2, s.len() as int))
    } else if s.len() >= 2 && s[0] == '~' && s[1] == '0' {
        seq!['~'] + unescape_spec(s.subrange(2, s.len() as int))
    } else {
        seq![s[0]] + unescape_spec(s.subrange(1, s.len() as int))
    }
}

/// Escape a string for use as a JSON Pointer component.
pub fn escape_json_pointer(s: &str) -> (res: String)
    ensures
        res@ == escape_spec(s@),
{
    let cs = chars_of(s);
    let mut out: Vec<char> = Vec::new();
    let mut i: usize = 0;
    while i < cs.len()
        invariant
            cs@ == s@,
            i <= cs@.len(),
            out@ == escape_spec(cs@.subrange(0, i as int)),
        decreases cs@.len() - i,
    {
        let c = cs[i];
        if c == '~' {
            out.push('~');
            out.push('0');
        } else if c == '/' {
            out.push('~');
            out.push('1');
        } else {
            out.push(c);
        }
        assert(cs@.subrange(0, i + 1).drop_last() == cs@.subrange(0, i as int));
        i = i + 1;
        assert(out@ =~= escape_spec(cs@.subrange(0, i as int)));
    }
    assert(cs@.subrange(0, cs@.len() as int) == cs@);
    string_from_chars(out.as_slice())
}

/// Decode the characters of a JSON Pointer component.
pub fn unescape_chars(cs: &[char]) -> (res: Vec<char>)
    ensures
        res@ == unescape_spec(cs@),
{
    let mut out: Vec<char> = Vec::new();
    let mut i: usize = 0;
    assert(cs@.subrange(0, cs@.len() as int) == cs@);
    assert(out@ + cs@ == cs@);
    while i < cs.len()
        invariant
            i <= cs@.len(),
            out@ + unescape_spec(cs@.subrange(i as int, cs@.len() as int)) == unescape_spec(cs@),
        decreases cs@.len() - i,
    {
        let ghost rest = cs@.subrange(i as int, cs@.len() as int);
        if i + 1 < cs.len() && cs[i] == '~' && cs[i + 1] == '1' {
            assert(rest.subrange(2, rest.len() as int) == cs@.subrange(i + 2, cs@.len() as int));
            out.push('/');
            i = i + 2;
        } else if i + 1 < cs.len() && cs[i] == '~' && cs[i + 1] == '0' {
            assert(rest.subrange(2, rest.len() as int) == cs@.subrange(i + 2, cs@.len() as int));
            out.push('~');
            i = i + 2;
        } else {
            assert(rest.subrange(1, rest.len() as int) == cs@.subrange(i + 1, cs@.len() as int));
            out.push(cs[i]);
            i = i + 1;
        }
    }
    assert(out@ + unescape_spec(cs@.subrange(i as int, cs@.len() as int)) == out@);
    out
}

/// Decode a JSON Pointer component: `~1` becomes `/` and `~0` becomes `~`.
pub fn unescape_pointer_component(component: &str) -> (res: String)
    ensures
        res@ == unescape_spec(component@),
{
    let cs = chars_of(component);
    let out = unescape_chars(cs.as_slice());
    string_from_chars(out.as_slice())
}

proof fn lemma_escape_append(a: Seq<char>, b: Seq<char>)
    ensures
        escape_spec(a + b) == escape_spec(a) + escape_spec(b),
    decreases b.len(),
{
    if b.len() == 0 {
        assert(a + b == a);
    } else {
        lemma_escape_append(a, b.drop_last());
        assert((a + b).drop_last() == a + b.drop_last());
        assert((a + b).last() == b.last());
    }
}

proof fn lemma_unescape_prefix(x: Seq<char>, y: Seq<char>)
    requires
        x.len() > 0,
        x.last() != '~',
    ensures
        unescape_spec(x + y) == unescape_spec(x) + unescape_spec(y),
    decreases x.len(),
{
    let xy = x + y;
    assert(unescape_spec(Seq::<char>::empty()) == Seq::<char>::empty());
    assert(xy[0] == x[0]);
    if x.len() >= 2 {
        assert(xy[1] == x[1]);
    }
    let k: int = if x.len() >= 2 && x[0] == '~' && (x[1] == '1' || x[1] == '0') {
        2
    } else {
        1
    };
    let head: Seq<char> = if k == 2 && x[1] == '1' {
        seq!['/']
    } else if k == 2 {
        seq!['~']
    } else {
        seq![x[0]]
    };
    let xr = x.subrange(k, x.len() as int);
    assert(xy.subrange(k, xy.len() as int) == xr + y);
    assert(unescape_spec(xy) == head + unescape_spec(xr + y));
    assert(unescape_spec(x) == head + unescape_spec(xr));
    if xr.len() > 0 {
        assert(xr.last() == x.last());
        lemma_unescape_prefix(xr, y);
    } else {
        assert(xr + y == y);
    }
    assert(head + (unescape_spec(xr) + unescape_spec(y)) == (head + unescape_spec(xr))
        + unescape_spec(y));
}

proof fn lemma_unescape_escape_char(c: char)
    ensures
        unescape_spec(escape_char(c)) == seq![c],
{
    let e = escape_char(c);
    assert(unescape_spec(Seq::<char>::empty()) == Seq::<char>::empty());
    if c == '~' || c == '/' {
        assert(e.subrange(2, 2) == Seq::<char>::empty());
        assert(unescape_spec(e) == seq![c] + unescape_spec(e.subrange(2, 2)));
    } else {
        assert(e.subrange(1, 1) == Seq::<char>::empty());
        assert(unescape_spec(e) == seq![c] + unescape_spec(e.subrange(1, 1)));
    }
}

/// Unescaping undoes escaping: for every string `s`, decoding the escaped
/// form of `s` gives back `s`.
pub proof fn law_unescape_escape_roundtrip(s: Seq<char>)
    ensures
        unescape_spec(escape_spec(s)) == s,
    decreases s.len(),
{
    if s.len() == 0 {
    } else {
        let init = s.drop_last();
        let c = s.last();
        law_unescape_escape_roundtrip(init);
        lemma_unescape_escape_char(c);
        let ei = escape_spec(init);
        let ec = escape_char(c);
        // Decode from the right: the escaped last character is decoded on its
        // own, after everything before it.
        if ei.len() == 0 {
            assert(ei + ec == ec);
            assert(init.len() == 0) by {
                if init.len() > 0 {
                    lemma_escape_nonempty(init);
                }
            };
            assert(s == seq![c]);
        } else {
            lemma_escape_last_not_tilde(init);
            lemma_unescape_prefix(ei, ec);
            assert(s == init + seq![c]);
        }
    }
}

proof fn lemma_escape_nonempty(s: Seq<char>)
    requires
        s.len() > 0,
    ensures
        escape_spec(s).len() > 0,
{
}

proof fn lemma_escape_last_not_tilde(s: Seq<char>)
    requires
        escape_spec(s).len() > 0,
    ensures
        escape_spec(s).last() != '~',
{
    if s.len() == 0 {
    } else {
        let c = s.last();
        let e = escape_spec(s);
        assert(e == escape_spec(s.drop_last()) + escape_char(c));
    }
}

/// Which of two JSON Pointers best locates a change.
#[derive(Debug, PartialEq, Eq)]
pub enum ApiCompatPointer {
    /// Both pointers are the same.
    Same(String),
    /// The blessed pointer lies strictly below the generated one.
    Blessed(String),
    /// The generated pointer lies strictly below the blessed one.
    Generated(String),
    /// Neither pointer lies below the other.
    Rename { blessed_pointer: String, generated_pointer: String },
}

/// `child` names a location strictly below `parent`: it is `parent`
/// followed by `/` and possibly more.
pub open spec fn is_strictly_below(child: Seq<char>, parent: Seq<char>) -> bool {
    &&& child.len() > parent.len()
    &&& child.subrange(0, parent.len() as int) == parent
    &&& child[parent.len() as int] == '/'
}

/// The pointer choice for a blessed and a generated pointer.
pub open spec fn best_pointer_spec(blessed: Seq<char>, generated: Seq<char>) -> (
    int,
    Seq<char>,
    Seq<char>,
) {
    if blessed == generated {
        (0, blessed, generated)
    } else if is_strictly_below(blessed, generated) {
        (1, blessed, generated)
    } else if is_strictly_below(generated, blessed) {
        (2, blessed, generated)
    } else {
        (3, blessed, generated)
    }
}

impl ApiCompatPointer {
    /// Which variant this is: 0 same, 1 blessed, 2 generated, 3 rename.
    pub open spec fn tag(self) -> int {
        match self {
            ApiCompatPointer::Same(_) => 0,
            ApiCompatPointer::Blessed(_) => 1,
            ApiCompatPointer::Generated(_) => 2,
            ApiCompatPointer::Rename { .. } => 3,
        }
    }

    /// Picks the most specific pointer: the same pointer if both are equal,
    /// the child if one is a parent of the other, and both otherwise.
    pub fn best_pointer(blessed_pointer: &str, generated_pointer: &str) -> (res: Self)
        ensures
            res.tag() == best_pointer_spec(blessed_pointer@, generated_pointer@).0,
            res matches ApiCompatPointer::Same(p) ==> p@ == blessed_pointer@,
            res matches ApiCompatPointer::Blessed(p) ==> p@ == blessed_pointer@,
            res matches ApiCompatPointer::Generated(p) ==> p@ == generated_pointer@,
            res matches ApiCompatPointer::Rename { blessed_pointer: b, generated_pointer: g } ==> (
            b@ == blessed_pointer@ && g@ == generated_pointer@),
    {
        let b = chars_of(blessed_pointer);
        let g = chars_of(generated_pointer);
        if chars_eq(b.as_slice(), g.as_slice()) {
            return ApiCompatPointer::Same(string_from_chars(b.as_slice()));
        }
        if below(b.as_slice(), g.as_slice()) {
            return ApiCompatPointer::Blessed(string_from_chars(b.as_slice()));
        }
        if below(g.as_slice(), b.as_slice()) {
            return ApiCompatPointer::Generated(string_from_chars(g.as_slice()));
        }
        ApiCompatPointer::Rename {
            blessed_pointer: string_from_chars(b.as_slice()),
            generated_pointer: string_from_chars(g.as_slice()),
        }
    }
}

fn below(child: &[char], parent: &[char]) -> (res: bool)
    ensures
        res == is_strictly_below(child@, parent@),
{
    if child.len() <= parent.len() {
        return false;
    }
    if !starts_with(child, parent) {
        return false;
    }
    child[parent.len()] == '/'
}

/// `s` with every leading and trailing `c` removed.
pub open spec fn trim_spec(s: Seq<char>, c: char) -> Seq<char> {
    trim_end_spec(trim_start_spec(s, c), c)
}

/// `s` with every leading `c` removed.
pub open spec fn trim_start_spec(s: Seq<char>, c: char) -> Seq<char>
    decreases s.len(),
{
    if s.len() > 0 && s[0] == c {
        trim_start_spec(s.subrange(1, s.len() as int), c)
    } else {
        s
    }
}

/// `s` with every trailing `c` removed.
pub open spec fn trim_end_spec(s: Seq<char>, c: char) -> Seq<char>
    decreases s.len(),
{
    if s.len() > 0 && s.last() == c {
        trim_end_spec(s.drop_last(), c)
    } else {
        s
    }
}

/// Removes every leading and trailing `c` from `s`.
pub fn trim_matches(s: &[char], c: char) -> (res: Vec<char>)
    ensures
        res@ == trim_spec(s@, c),
{
    let mut lo: usize = 0;
    assert(s@.subrange(0, s@.len() as int) == s@);
    while lo < s.len() && s[lo] == c
        invariant
            lo <= s@.len(),
            trim_start_spec(s@, c) == trim_start_spec(s@.subrange(lo as int, s@.len() as int), c),
        decreases s@.len() - lo,
    {
        assert(s@.subrange(lo as int, s@.len() as int).subrange(1, s@.len() - lo) == s@.subrange(
            lo + 1,
            s@.len() as int,
        ));
        lo = lo + 1;
    }
    let ghost st = s@.subrange(lo as int, s@.len() as int);
    assert(trim_start_spec(st, c) == st);
    let mut hi: usize = s.len();
    while hi > lo && s[hi - 1] == c
        invariant
            lo <= hi <= s@.len(),
            trim_end_spec(st, c) == trim_end_spec(s@.subrange(lo as int, hi as int), c),
        decreases hi,
    {
        assert(s@.subrange(lo as int, hi as int).drop_last() == s@.subrange(lo as int, hi - 1));
        hi = hi - 1;
    }
    slice_chars(s, lo, hi)
}

/// Pieces of `s` between occurrences of `d` (always at least one piece).
pub open spec fn split_spec(s: Seq<char>, d: char) -> Seq<Seq<char>>
    decreases s.len(),
{
    if s.len() == 0 {
        seq![seq![]]
    } else {
        let prev = split_spec(s.drop_last(), d);
        if s.last() == d {
            prev.push(seq![])
        } else {
            prev.update(prev.len() - 1, prev.last().push(s.last()))
        }
    }
}

/// A pointer component rendered for `jq`: quoted and unescaped if it holds
/// an escape, as-is otherwise.
pub open spec fn jq_component(c: Seq<char>) -> Seq<char> {
    if c.contains('~') {
        seq!['"'] + unescape_spec(c) + seq!['"']
    } else {
        c
    }
}

/// Each component rendered for `jq`, each preceded by `.`.
pub open spec fn jq_components(parts: Seq<Seq<char>>) -> Seq<char>
    decreases parts.len(),
{
    if parts.len() == 0 {
        seq![]
    } else {
        jq_components(parts.drop_last()) + seq!['.'] + jq_component(parts.last())
    }
}

/// The `jq` rendering of a JSON Pointer: leading and trailing `#` then `/`
/// are dropped, and each `/`-separated component becomes `.component`.
pub open spec fn json_pointer_to_jq_spec(pointer: Seq<char>) -> Seq<char> {
    jq_components(split_spec(trim_spec(trim_spec(pointer, '#'), '/'), '/'))
}

pub(crate) proof fn lemma_split_nonempty(s: Seq<char>, d: char)
    ensures
        split_spec(s, d).len() >= 1,
    decreases s.len(),
{
    if s.len() > 0 {
        lemma_split_nonempty(s.drop_last(), d);
    }
}

fn push_jq_component(out: &mut Vec<char>, comp: &[char])
    ensures
        final(out)@ == old(out)@ + seq!['.'] + jq_component(comp@),
{
    out.push('.');
    if contains_char(comp, '~') {
        let un = unescape_chars(comp);
        out.push('"');
        push_chars(out, un.as_slice());
        out.push('"');
    } else {
        push_chars(out, comp);
    }
}

/// Renders a JSON Pointer (e.g. `#/paths/~1users/get`) as a `jq` path
/// (e.g. `.paths."/users".get`).
pub fn json_pointer_to_jq(pointer: &str) -> (res: String)
    ensures
        res@ == json_pointer_to_jq_spec(pointer@),
{
    let p = chars_of(pointer);
    let t1 = trim_matches(p.as_slice(), '#');
    let t = trim_matches(t1.as_slice(), '/');
    let mut out: Vec<char> = Vec::new();
    let mut cur: Vec<char> = Vec::new();
    let mut i: usize = 0;
    proof {
        assert(t@.subrange(0, 0) == Seq::<char>::empty());
    }
    while i < t.len()
        invariant
            i <= t@.len(),
            split_spec(t@.subrange(0, i as int), '/').len() >= 1,
            out@ == jq_components(split_spec(t@.subrange(0, i as int), '/').drop_last()),
            cur@ == split_spec(t@.subrange(0, i as int), '/').last(),
        decreases t@.len() - i,
    {
        let ghost prev = split_spec(t@.subrange(0, i as int), '/');
        assert(t@.subrange(0, i + 1).drop_last() == t@.subrange(0, i as int));
        assert(t@.subrange(0, i + 1).last() == t@[i as int]);
        let c = t[i];
        if c == '/' {
            push_jq_component(&mut out, cur.as_slice());
            cur = Vec::new();
            proof {
                let next = prev.push(seq![]);
                assert(next.drop_last() == prev);
                assert(prev.drop_last().push(prev.last()) == prev);
                assert(jq_components(prev) == jq_components(prev.drop_last()) + seq!['.']
                    + jq_component(prev.last()));
            }
        } else {
            cur.push(c);
            proof {
                let next = prev.update(prev.len() - 1, prev.last().push(c));
                assert(next.drop_last() == prev.drop_last());
            }
        }
        i = i + 1;
        proof {
            lemma_split_nonempty(t@.subrange(0, i as int), '/');
        }
    }
    assert(t@.subrange(0, t@.len() as int) == t@);
    push_jq_component(&mut out, cur.as_slice());
    proof {
        let parts = split_spec(t@, '/');
        assert(parts.drop_last().push(parts.last()) == parts);
        assert(jq_components(parts) == jq_components(parts.drop_last()) + seq!['.'] + jq_component(
            parts.last(),
        ));
    }
    string_from_chars(out.as_slice())
}

/// Severity class of a change between two OpenAPI documents.
#[derive(Debug, Clone, Copy, PartialEq, Eq, Structural)]
pub enum ChangeClass {
    /// Old clients cannot talk to new servers.
    BackwardIncompatible,
    /// New clients cannot talk to old servers.
    ForwardIncompatible,
    /// Neither direction works.
    Incompatible,
    /// A change that the comparison does not classify.
    Unhandled,
    /// A change that affects neither direction.
    Trivial,
}

/// The text that precedes `change` in a one-line change message.
pub open spec fn change_class_str_spec(class: ChangeClass) -> Seq<char> {
    match class {
        ChangeClass::BackwardIncompatible => "backward-incompatible "@,
        ChangeClass::ForwardIncompatible => "forward-incompatible "@,
        ChangeClass::Incompatible => "incompatible "@,
        ChangeClass::Unhandled => ""@,
        ChangeClass::Trivial => "trivial "@,
    }
}

/// The prefix (with trailing space, or empty) naming a change class.
pub fn change_class_str(class: &ChangeClass) -> (res: &'static str)
    ensures
        res@ == change_class_str_spec(*class),
{
    match class {
        ChangeClass::BackwardIncompatible => "backward-incompatible ",
        ChangeClass::ForwardIncompatible => "forward-incompatible ",
        ChangeClass::Incompatible => "incompatible ",
        ChangeClass::Unhandled => "",
        ChangeClass::Trivial => "trivial ",
    }
}

/// A change is kept as a compatibility issue unless it is trivial.
pub fn is_non_trivial(class: ChangeClass) -> (res: bool)
    ensures
        res == (class != ChangeClass::Trivial),
{
    match class {
        ChangeClass::Trivial => false,
        _ => true,
    }
}

} // verus!
