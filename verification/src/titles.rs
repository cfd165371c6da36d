//! How an API and one of its documents are named in the output: the
//! identifier in the file-name style, then a plain description.

use vstd::prelude::*;
use crate::humanize::pushed;
use crate::names::{version_text, ApiIdent, SemVersion};
use crate::resolve::ResolutionKind;
use crate::text::{decimal, push_decimal, push_str_chars, string_from_chars};
use crate::wrap::{Line, StyleRole};

verus! {

/// An API in a listing: `{ident} ({title}, versioned ({count} supported),
/// latest = {latest})` or `{ident} ({title}, lockstep, v{latest})`.
pub open spec fn api_doc_spans(
    ident: Seq<char>,
    title: Seq<char>,
    versioned: bool,
    count: nat,
    latest: SemVersion,
) -> Seq<(Seq<char>, StyleRole)> {
    pushed(
        pushed(seq![], ident, StyleRole::Filename),
        if versioned {
            " ("@ + title + ", versioned ("@ + decimal(count) + " supported), latest = "@ + version_text(latest) + ")"@
        } else {
            " ("@ + title + ", lockstep, v"@ + version_text(latest) + ")"@
        },
        StyleRole::Plain,
    )
}

/// The line naming an API in a listing (see `api_doc_spans`).
pub fn api_doc_line(ident: &ApiIdent, title: &str, versioned: bool, count: usize, latest: &SemVersion) -> (res: Line)
    ensures
        res.view_spans() == api_doc_spans(ident@, title@, versioned, count as nat, *latest),
{
    let mut line = Line::new();
    line.push(ident.as_str(), StyleRole::Filename);
    let mut t: Vec<char> = Vec::new();
    push_str_chars(&mut t, " (");
    push_str_chars(&mut t, title);
    if versioned {
        push_str_chars(&mut t, ", versioned (");
        push_decimal(&mut t, count as u64);
        push_str_chars(&mut t, " supported), latest = ");
        latest.push_text(&mut t);
        push_str_chars(&mut t, ")");
    } else {
        push_str_chars(&mut t, ", lockstep, v");
        latest.push_text(&mut t);
        push_str_chars(&mut t, ")");
    }
    let text = string_from_chars(t.as_slice());
    line.push(text.as_str(), StyleRole::Plain);
    line
}

/// The name shown for a kind of document.
pub open spec fn kind_label_spec(kind: ResolutionKind) -> Seq<char> {
    match kind {
        ResolutionKind::Lockstep => "lockstep"@,
        ResolutionKind::Blessed => "blessed"@,
        ResolutionKind::NewLocally => "added locally"@,
    }
}

/// One document of an API: `{ident} (lockstep v{version}): {title}` for a
/// lockstep API, `{ident} (versioned v{version} ({kind})): {title}`
/// otherwise.
pub open spec fn api_doc_version_spans(
    ident: Seq<char>,
    version: SemVersion,
    is_lockstep: bool,
    kind_label: Seq<char>,
    title: Seq<char>,
) -> Seq<(Seq<char>, StyleRole)> {
    pushed(
        pushed(seq![], ident, StyleRole::Filename),
        if is_lockstep {
            " (lockstep v"@ + version_text(version) + "): "@ + title
        } else {
            " (versioned v"@ + version_text(version) + " ("@ + kind_label + ")): "@ + title
        },
        StyleRole::Plain,
    )
}

/// The line naming one document of an API (see `api_doc_version_spans`);
/// a lockstep API's documents are always of the lockstep kind.
pub fn api_doc_version_line(
    ident: &ApiIdent,
    version: &SemVersion,
    is_lockstep: bool,
    kind: ResolutionKind,
    title: &str,
) -> (res: Line)
    requires
        is_lockstep ==> kind == ResolutionKind::Lockstep,
    ensures
        res.view_spans() == api_doc_version_spans(ident@, *version, is_lockstep, kind_label_spec(kind), title@),
{
    let mut line = Line::new();
    line.push(ident.as_str(), StyleRole::Filename);
    let mut t: Vec<char> = Vec::new();
    if is_lockstep {
        push_str_chars(&mut t, " (lockstep v");
        version.push_text(&mut t);
        push_str_chars(&mut t, "): ");
    } else {
        push_str_chars(&mut t, " (versioned v");
        version.push_text(&mut t);
        push_str_chars(&mut t, " (");
        push_str_chars(&mut t, kind.label());
        push_str_chars(&mut t, ")): ");
    }
    push_str_chars(&mut t, title);
    let text = string_from_chars(t.as_slice());
    line.push(text.as_str(), StyleRole::Plain);
    line
}

} // verus!
