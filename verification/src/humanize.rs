//! Locations in OpenAPI documents written for people: jq notation
//! (`.paths."/users".get`), component names, endpoints as `GET /users`, and
//! component subpaths without structural keywords (`.foo[]`).

use vstd::prelude::*;
use crate::docpath::{base_view, DocumentBasePath, DocumentPath};
use crate::text::{chars_of, contains_char, push_chars, string_from_chars};
use crate::wrap::{Line, StyleRole};

verus! {

/// The spans after pushing `c` in style `st` (nothing for empty text).
pub open spec fn pushed(s: Seq<(Seq<char>, StyleRole)>, c: Seq<char>, st: StyleRole) -> Seq<
    (Seq<char>, StyleRole),
> {
    if c.len() > 0 {
        s.push((c, st))
    } else {
        s
    }
}

/// A segment that jq would misread unless quoted.
pub open spec fn needs_quotes(seg: Seq<char>) -> bool {
    seg.contains('/') || seg.contains('~')
}

/// One jq segment: a `.` then the segment, quoted when needed.
pub open spec fn jq_segment_spans(s: Seq<(Seq<char>, StyleRole)>, seg: Seq<char>, st: StyleRole) -> Seq<
    (Seq<char>, StyleRole),
> {
    pushed(
        pushed(s, "."@, st),
        if needs_quotes(seg) {
            "\""@ + seg + "\""@
        } else {
            seg
        },
        st,
    )
}

/// The jq segments of `segs`, in order.
pub open spec fn jq_segments_spans(
    s: Seq<(Seq<char>, StyleRole)>,
    segs: Seq<Seq<char>>,
    st: StyleRole,
) -> Seq<(Seq<char>, StyleRole)>
    decreases segs.len(),
{
    if segs.len() == 0 {
        s
    } else {
        jq_segment_spans(jq_segments_spans(s, segs.drop_last(), st), segs.last(), st)
    }
}

/// A path in jq notation: `.` for the root, else its segments.
pub open spec fn jq_path_spans(s: Seq<(Seq<char>, StyleRole)>, segs: Seq<Seq<char>>, st: StyleRole) -> Seq<
    (Seq<char>, StyleRole),
> {
    if segs.len() == 0 {
        pushed(s, "."@, st)
    } else {
        jq_segments_spans(s, segs, st)
    }
}

/// Appends one jq segment (see `jq_segment_spans`).
pub fn append_jq_segment(line: &mut Line, segment: &str, style: StyleRole)
    ensures
        final(line).view_spans() == jq_segment_spans(old(line).view_spans(), segment@, style),
{
    line.push(".", style);
    let cs = chars_of(segment);
    if contains_char(cs.as_slice(), '/') || contains_char(cs.as_slice(), '~') {
        let mut quoted: Vec<char> = Vec::new();
        quoted.push('"');
        push_chars(&mut quoted, cs.as_slice());
        quoted.push('"');
        proof {
            reveal_strlit("\"");
            assert(quoted@ =~= "\""@ + segment@ + "\""@);
        }
        let q = string_from_chars(quoted.as_slice());
        line.push(q.as_str(), style);
    } else {
        line.push(segment, style);
    }
}

/// Appends a path in jq notation (see `jq_path_spans`).
pub fn append_jq_path(line: &mut Line, path: &DocumentPath, style: StyleRole)
    ensures
        final(line).view_spans() == jq_path_spans(old(line).view_spans(), path@, style),
{
    if path.segments.len() == 0 {
        line.push(".", style);
        return;
    }
    let ghost start = line.view_spans();
    let mut i: usize = 0;
    while i < path.segments.len()
        invariant
            i <= path.segments@.len(),
            line.view_spans() == jq_segments_spans(start, path@.subrange(0, i as int), style),
        decreases path.segments@.len() - i,
    {
        append_jq_segment(line, path.segments[i].as_str(), style);
        proof {
            assert(path@.subrange(0, i + 1).drop_last() =~= path@.subrange(0, i as int));
        }
        i = i + 1;
    }
    assert(path@.subrange(0, path@.len() as int) =~= path@);
}

/// The schema or component name of a `components/<kind>/<name>` path.
pub fn component_name(base: &DocumentPath) -> (res: &str)
    requires
        base@.len() >= 3,
    ensures
        res@ == base@[2],
{
    base.segments[2].as_str()
}

/// One step of a component subpath: after `properties` a segment is a
/// field name; `properties` itself is dropped and `items` becomes `[]`.
pub open spec fn subpath_step(st: (Seq<(Seq<char>, StyleRole)>, bool), seg: Seq<char>, style: StyleRole) -> (
    Seq<(Seq<char>, StyleRole)>,
    bool,
) {
    let (s, next_is_field) = st;
    if next_is_field {
        (jq_segment_spans(s, seg, style), false)
    } else if seg == "properties"@ {
        (s, true)
    } else if seg == "items"@ {
        (pushed(s, "[]"@, style), false)
    } else {
        (jq_segment_spans(s, seg, style), false)
    }
}

/// The spans of a component subpath in humanized form.
pub open spec fn subpath_fold(s: Seq<(Seq<char>, StyleRole)>, segs: Seq<Seq<char>>, style: StyleRole) -> (
    Seq<(Seq<char>, StyleRole)>,
    bool,
)
    decreases segs.len(),
{
    if segs.len() == 0 {
        (s, false)
    } else {
        subpath_step(subpath_fold(s, segs.drop_last(), style), segs.last(), style)
    }
}

fn is_text(s: &String, word: &str) -> (res: bool)
    ensures
        res == (s@ == word@),
{
    crate::text::str_eq(s.as_str(), word)
}

/// Appends a component's subpath in humanized form (see `subpath_step`).
pub fn append_humanized_subpath(line: &mut Line, subpath: &DocumentPath, style: StyleRole)
    ensures
        final(line).view_spans() == subpath_fold(old(line).view_spans(), subpath@, style).0,
{
    let ghost start = line.view_spans();
    let mut next_is_field = false;
    let mut i: usize = 0;
    while i < subpath.segments.len()
        invariant
            i <= subpath.segments@.len(),
            (line.view_spans(), next_is_field) == subpath_fold(start, subpath@.subrange(0, i as int), style),
        decreases subpath.segments@.len() - i,
    {
        let seg = &subpath.segments[i];
        proof {
            assert(subpath@.subrange(0, i + 1).drop_last() =~= subpath@.subrange(0, i as int));
            assert(subpath@[i as int] == seg@);
        }
        if next_is_field {
            append_jq_segment(line, seg.as_str(), style);
            next_is_field = false;
        } else if is_text(seg, "properties") {
            next_is_field = true;
        } else if is_text(seg, "items") {
            line.push("[]", style);
        } else {
            append_jq_segment(line, seg.as_str(), style);
        }
        i = i + 1;
    }
    assert(subpath@.subrange(0, subpath@.len() as int) =~= subpath@);
}

/// Every character is ASCII.
pub open spec fn ascii_text(s: Seq<char>) -> bool {
    forall|i: int| 0 <= i < s.len() ==> (#[trigger] s[i] as u32) < 128
}

/// The ASCII upper case of a character: `a` to `z` become `A` to `Z`.
pub open spec fn ascii_upper(c: char) -> char {
    if 'a' <= c <= 'z' {
        ((c as u32) - 32) as char
    } else {
        c
    }
}

/// The upper-case form of `s` as `str::to_uppercase` computes it.
pub uninterp spec fn uppercase_of(s: Seq<char>) -> Seq<char>;

/// Calls `str::to_uppercase`.
///
/// Trusted: the result is `uppercase_of` of the text (Unicode upper case,
/// as std documents it); for ASCII text it is the ASCII upper case (`a` to
/// `z` become `A` to `Z`, everything else stays). The case mapping of other
/// characters is not restated here.
#[verifier::external_body]
fn to_uppercase_call(s: &str) -> (res: String)
    ensures
        res@ == uppercase_of(s@),
        ascii_text(s@) ==> res@ == s@.map_values(|c: char| ascii_upper(c)),
{
    s.to_uppercase()
}

/// `(op_id)` after a space, in the operation-id style; nothing without one.
pub open spec fn operation_id_spans(s: Seq<(Seq<char>, StyleRole)>, op_id: Option<Seq<char>>) -> Seq<
    (Seq<char>, StyleRole),
> {
    match op_id {
        None => s,
        Some(id) => pushed(
            pushed(pushed(s, " ("@, StyleRole::Plain), id, StyleRole::OperationId),
            ")"@,
            StyleRole::Plain,
        ),
    }
}

/// A base location in humanized form: the bold name of a component; the
/// upper-case method and the route of an endpoint, then its operation id;
/// `.paths` for the paths container; otherwise the path in bold jq
/// notation.
pub open spec fn humanized_base_spans(s: Seq<(Seq<char>, StyleRole)>, b: DocumentBasePath) -> Seq<
    (Seq<char>, StyleRole),
> {
    let (tag, segs, op_id) = base_view(b);
    if tag == 0 {
        pushed(s, segs[2], StyleRole::Bold)
    } else if tag == 1 {
        operation_id_spans(
            pushed(
                pushed(pushed(s, uppercase_of(segs[2]), StyleRole::SuccessHeader), " "@, StyleRole::Plain),
                segs[1],
                StyleRole::Filename,
            ),
            op_id,
        )
    } else if tag == 2 {
        pushed(s, ".paths"@, StyleRole::Bold)
    } else {
        jq_path_spans(s, segs, StyleRole::Bold)
    }
}

/// Components and endpoints have (at least) three segments.
pub open spec fn base_shaped(b: DocumentBasePath) -> bool {
    let (tag, segs, _) = base_view(b);
    (tag == 0 || tag == 1) ==> segs.len() >= 3
}

/// Appends a base location in humanized form (see `humanized_base_spans`).
pub fn append_humanized_base(line: &mut Line, base: &DocumentBasePath)
    requires
        base_shaped(*base),
    ensures
        final(line).view_spans() == humanized_base_spans(old(line).view_spans(), *base),
{
    match base {
        DocumentBasePath::Component(path) => {
            line.push(component_name(path), StyleRole::Bold);
        },
        DocumentBasePath::Endpoint { name, operation_id } => {
            let method = to_uppercase_call(name.segments[2].as_str());
            line.push(method.as_str(), StyleRole::SuccessHeader);
            line.push_plain(" ");
            line.push(name.segments[1].as_str(), StyleRole::Filename);
            match operation_id {
                Some(id) => {
                    line.push_plain(" (");
                    line.push(id.as_str(), StyleRole::OperationId);
                    line.push_plain(")");
                },
                None => {},
            }
        },
        DocumentBasePath::PathsRoot => {
            line.push(".paths", StyleRole::Bold);
        },
        DocumentBasePath::Other(path) => {
            append_jq_path(line, path, StyleRole::Bold);
        },
    }
}

/// A (base, subpath) pair: the humanized base, then (unless the subpath is
/// the root) a component's humanized subpath in `field_style`, an
/// endpoint's subpath in jq notation between parentheses, or otherwise the
/// subpath in jq notation.
pub open spec fn at_pair_spans(
    s: Seq<(Seq<char>, StyleRole)>,
    b: DocumentBasePath,
    subpath: Seq<Seq<char>>,
    field_style: StyleRole,
) -> Seq<(Seq<char>, StyleRole)> {
    let after_base = humanized_base_spans(s, b);
    let tag = base_view(b).0;
    if subpath.len() == 0 {
        after_base
    } else if tag == 0 {
        subpath_fold(after_base, subpath, field_style).0
    } else if tag == 1 {
        pushed(jq_path_spans(pushed(after_base, " ("@, StyleRole::Plain), subpath, StyleRole::Plain), ")"@, StyleRole::Plain)
    } else {
        jq_path_spans(after_base, subpath, StyleRole::Plain)
    }
}

/// Appends a (base, subpath) pair (see `at_pair_spans`).
pub fn append_humanized_at_pair(
    line: &mut Line,
    base: &DocumentBasePath,
    subpath: &DocumentPath,
    field_style: StyleRole,
)
    requires
        base_shaped(*base),
    ensures
        final(line).view_spans() == at_pair_spans(old(line).view_spans(), *base, subpath@, field_style),
{
    append_humanized_base(line, base);
    if subpath.segments.len() == 0 {
        return;
    }
    match base {
        DocumentBasePath::Component(_) => {
            append_humanized_subpath(line, subpath, field_style);
        },
        DocumentBasePath::Endpoint { .. } => {
            line.push_plain(" (");
            append_jq_path(line, subpath, StyleRole::Plain);
            line.push_plain(")");
        },
        DocumentBasePath::PathsRoot | DocumentBasePath::Other(_) => {
            append_jq_path(line, subpath, StyleRole::Plain);
        },
    }
}

/// The spans of a line as one string, without styles.
pub open spec fn spans_text(s: Seq<(Seq<char>, StyleRole)>) -> Seq<char>
    decreases s.len(),
{
    if s.len() == 0 {
        seq![]
    } else {
        spans_text(s.drop_last()) + s.last().0
    }
}

/// The text of a line, without styles.
pub fn line_text(line: &Line) -> (res: String)
    ensures
        res@ == spans_text(line.view_spans()),
{
    let spans = line.spans();
    let ghost sv = line.view_spans();
    let mut out: Vec<char> = Vec::new();
    let mut i: usize = 0;
    while i < spans.len()
        invariant
            i <= spans@.len(),
            sv == crate::wrap::spans_view(spans@),
            out@ == spans_text(sv.subrange(0, i as int)),
        decreases spans@.len() - i,
    {
        crate::text::push_str_chars(&mut out, spans[i].content.as_str());
        proof {
            assert(sv.subrange(0, i + 1).drop_last() =~= sv.subrange(0, i as int));
        }
        i = i + 1;
    }
    assert(sv.subrange(0, sv.len() as int) =~= sv);
    string_from_chars(out.as_slice())
}

} // verus!
