//! Unified diffs of two documents: the hunks are `similar`'s; laying them
//! out as styled lines (the `--- a/` and `+++ b/` header, each hunk's
//! header, each line with its `-`, `+` or ` ` marker, and the hint for a
//! missing final newline) is verified here.

use vstd::prelude::*;
use crate::render::{newline_piece, outs_view, text_piece, OutPiece, PieceView};
use crate::text::{chars_of, push_str_chars, string_from_chars};
use crate::wrap::StyleRole;

verus! {

/// One line of a hunk: its tag (0 unchanged, 1 removed, 2 added), its text
/// (with its line feed, if it has one), and whether it is a last line
/// without a line feed.
#[derive(Debug)]
pub struct DiffLine {
    /// 0 unchanged, 1 removed, 2 added.
    pub tag: u8,
    /// The text of the line.
    pub text: String,
    /// The line is the last one and has no line feed.
    pub missing_newline: bool,
}

/// One hunk: its `@@ -a,b +c,d @@` header and its lines.
#[derive(Debug)]
pub struct DiffHunk {
    /// The hunk's header.
    pub header: String,
    /// The hunk's lines.
    pub lines: Vec<DiffLine>,
}

/// Abstract value of a line of a hunk.
pub type LineView = (u8, Seq<char>, bool);

/// Abstract value of a hunk.
pub type HunkView = (Seq<char>, Seq<LineView>);

/// Abstract value of the lines of a hunk.
pub open spec fn lines_view(v: Seq<DiffLine>) -> Seq<LineView> {
    v.map_values(|l: DiffLine| (l.tag, l.text@, l.missing_newline))
}

/// Abstract value of hunks.
pub open spec fn hunks_view(v: Seq<DiffHunk>) -> Seq<HunkView> {
    v.map_values(|h: DiffHunk| (h.header@, lines_view(h.lines@)))
}

/// The hunks of the unified line diff of `old` and `new` with `context`
/// lines of context (as `similar` computes it), and whether the texts end
/// in a line feed (`TextDiff::newline_terminated`).
pub uninterp spec fn line_diff(old: Seq<char>, new: Seq<char>, context: usize, hint: bool) -> (Seq<HunkView>, bool);

/// Diffs the two texts line by line with `similar::TextDiff::from_lines`,
/// and takes the hunks of its unified diff (`context_radius`,
/// `missing_newline_hint`) with each hunk's header and each change's tag,
/// text (`to_string_lossy`) and `missing_newline`.
///
/// Trusted: the result is `line_diff` of the arguments (the default
/// configuration has no deadline, so it depends on them alone), and each
/// tag is the declaration index of `similar::ChangeTag`, below 3. The diff
/// algorithm is not restated.
#[verifier::external_body]
fn line_diff_call(old: &str, new: &str, context: usize, hint: bool) -> (res: (Vec<DiffHunk>, bool))
    ensures
        (hunks_view(res.0@), res.1) == line_diff(old@, new@, context, hint),
        forall|i: int, k: int| 0 <= i < res.0@.len() && 0 <= k < res.0@[i].lines@.len() ==> (#[trigger] res.0@[i].lines@[k]).tag < 3,
{
    let diff = similar::TextDiff::from_lines(old, new);
    let mut udiff = diff.unified_diff();
    udiff.context_radius(context).missing_newline_hint(hint);
    let hunks = udiff.iter_hunks().map(|h| DiffHunk {
        header: h.header().to_string(),
        lines: h.iter_changes().map(|c| DiffLine {
            tag: c.tag() as u8,
            text: c.to_string_lossy().into_owned(),
            missing_newline: c.missing_newline(),
        }).collect(),
    }).collect();
    (hunks, diff.newline_terminated())
}

/// The marker and style of a line with tag `tag`.
pub open spec fn tag_marker(tag: u8) -> (Seq<char>, StyleRole) {
    if tag == 1 {
        ("-"@, StyleRole::DiffBefore)
    } else if tag == 2 {
        ("+"@, StyleRole::DiffAfter)
    } else {
        (" "@, StyleRole::Plain)
    }
}

/// The pieces of one line: its marker and text in its style, then a line
/// break when the texts do not end in line feeds; when they do and this
/// last line has none, the hint `\ No newline at end of file` (when hints
/// are on) on a line of its own.
pub open spec fn line_pieces(l: LineView, terminated: bool, hint: bool) -> Seq<PieceView> {
    let (marker, style) = tag_marker(l.0);
    seq![text_piece(marker, style), text_piece(l.1, style)] + (if !terminated {
        seq![newline_piece()]
    } else {
        seq![]
    }) + (if terminated && l.2 {
        (if hint {
            seq![newline_piece(), text_piece("\\ No newline at end of file"@, StyleRole::Plain)]
        } else {
            seq![]
        }) + seq![newline_piece()]
    } else {
        seq![]
    })
}

/// The pieces of the first `n` lines.
pub open spec fn lines_pieces(ls: Seq<LineView>, n: int, terminated: bool, hint: bool) -> Seq<PieceView>
    decreases n,
{
    if n <= 0 {
        seq![]
    } else {
        lines_pieces(ls, n - 1, terminated, hint) + line_pieces(ls[n - 1], terminated, hint)
    }
}

/// The pieces of a hunk: its header on a line of its own, then its lines
/// (nothing for a hunk without lines).
pub open spec fn hunk_pieces(h: HunkView, terminated: bool, hint: bool) -> Seq<PieceView> {
    if h.1.len() == 0 {
        seq![]
    } else {
        seq![text_piece(h.0, StyleRole::Plain), newline_piece()] + lines_pieces(h.1, h.1.len() as int, terminated, hint)
    }
}

/// The pieces of the first `n` hunks.
pub open spec fn hunks_pieces(hs: Seq<HunkView>, n: int, terminated: bool, hint: bool) -> Seq<PieceView>
    decreases n,
{
    if n <= 0 {
        seq![]
    } else {
        hunks_pieces(hs, n - 1, terminated, hint) + hunk_pieces(hs[n - 1], terminated, hint)
    }
}

/// A unified diff: `--- a/<old path>` and `+++ b/<new path>` in the
/// before and after styles, then the hunks of the line diff.
pub open spec fn diff_spec(old_path: Seq<char>, new_path: Seq<char>, d: (Seq<HunkView>, bool), hint: bool) -> Seq<PieceView> {
    seq![
        text_piece("--- a/"@ + old_path, StyleRole::DiffBefore),
        newline_piece(),
        text_piece("+++ b/"@ + new_path, StyleRole::DiffAfter),
        newline_piece(),
    ] + hunks_pieces(d.0, d.0.len() as int, d.1, hint)
}

fn push_text(out: &mut Vec<OutPiece>, text: String, style: StyleRole)
    ensures
        outs_view(final(out)@) == outs_view(old(out)@).push(text_piece(text@, style)),
{
    let ghost o = out@;
    out.push(OutPiece::Text { text, style });
    assert(outs_view(out@) =~= outs_view(o).push(text_piece(text@, style)));
}

fn push_newline(out: &mut Vec<OutPiece>)
    ensures
        outs_view(final(out)@) == outs_view(old(out)@).push(newline_piece()),
{
    let ghost o = out@;
    out.push(OutPiece::Newline);
    assert(outs_view(out@) =~= outs_view(o).push(newline_piece()));
}

fn push_line(out: &mut Vec<OutPiece>, l: &DiffLine, terminated: bool, hint: bool)
    ensures
        outs_view(final(out)@) == outs_view(old(out)@) + line_pieces((l.tag, l.text@, l.missing_newline), terminated, hint),
{
    proof {
        reveal_strlit("-");
        reveal_strlit("+");
        reveal_strlit(" ");
    }
    let ghost o = outs_view(out@);
    let (marker, style) = if l.tag == 1 {
        ("-", StyleRole::DiffBefore)
    } else if l.tag == 2 {
        ("+", StyleRole::DiffAfter)
    } else {
        (" ", StyleRole::Plain)
    };
    push_text(out, marker.to_string(), style);
    push_text(out, l.text.clone(), style);
    if !terminated {
        push_newline(out);
    }
    if terminated && l.missing_newline {
        if hint {
            push_newline(out);
            push_text(out, "\\ No newline at end of file".to_string(), StyleRole::Plain);
        }
        push_newline(out);
    }
    assert(outs_view(out@) =~= o + line_pieces((l.tag, l.text@, l.missing_newline), terminated, hint));
}

/// The unified diff of `old` and `new` (see `diff_spec`), with `context`
/// lines of context and, when `hint` is set, the hint for a missing final
/// line feed.
pub fn diff_pieces(old_path: &str, new_path: &str, old: &str, new: &str, context: usize, hint: bool) -> (res: Vec<
    OutPiece,
>)
    ensures
        outs_view(res@) == diff_spec(old_path@, new_path@, line_diff(old@, new@, context, hint), hint),
{
    let (hunks, terminated) = line_diff_call(old, new, context, hint);
    let ghost hv = hunks_view(hunks@);
    let mut out: Vec<OutPiece> = Vec::new();
    let mut head: Vec<char> = Vec::new();
    push_str_chars(&mut head, "--- a/");
    push_str_chars(&mut head, old_path);
    push_text(&mut out, string_from_chars(head.as_slice()), StyleRole::DiffBefore);
    push_newline(&mut out);
    let mut head2: Vec<char> = Vec::new();
    push_str_chars(&mut head2, "+++ b/");
    push_str_chars(&mut head2, new_path);
    push_text(&mut out, string_from_chars(head2.as_slice()), StyleRole::DiffAfter);
    push_newline(&mut out);
    let ghost start = outs_view(out@);
    let mut i: usize = 0;
    while i < hunks.len()
        invariant
            i <= hunks@.len(),
            hv == hunks_view(hunks@),
            outs_view(out@) == start + hunks_pieces(hv, i as int, terminated, hint),
        decreases hunks@.len() - i,
    {
        let h = &hunks[i];
        let ghost before = outs_view(out@);
        let ghost lv = lines_view(h.lines@);
        proof {
            assert(hv[i as int] == (h.header@, lv));
        }
        if h.lines.len() > 0 {
            push_text(&mut out, h.header.clone(), StyleRole::Plain);
            push_newline(&mut out);
            let ghost mid = outs_view(out@);
            let mut k: usize = 0;
            while k < h.lines.len()
                invariant
                    k <= h.lines@.len(),
                    lv == lines_view(h.lines@),
                    outs_view(out@) == mid + lines_pieces(lv, k as int, terminated, hint),
                decreases h.lines@.len() - k,
            {
                proof {
                    assert(lv[k as int] == (h.lines@[k as int].tag, h.lines@[k as int].text@, h.lines@[k as int].missing_newline));
                }
                push_line(&mut out, &h.lines[k], terminated, hint);
                proof {
                    assert(mid + lines_pieces(lv, k + 1, terminated, hint) =~= mid + lines_pieces(lv, k as int, terminated, hint)
                        + line_pieces(lv[k as int], terminated, hint));
                }
                k = k + 1;
            }
            proof {
                assert(outs_view(out@) =~= before + hunk_pieces(hv[i as int], terminated, hint));
            }
        } else {
            proof {
                assert(before + hunk_pieces(hv[i as int], terminated, hint) =~= before);
            }
        }
        proof {
            assert(start + hunks_pieces(hv, i + 1, terminated, hint) =~= start + hunks_pieces(hv, i as int, terminated, hint)
                + hunk_pieces(hv[i as int], terminated, hint));
        }
        i = i + 1;
    }
    proof {
        reveal_strlit("--- a/");
        reveal_strlit("+++ b/");
        assert(outs_view(out@) =~= diff_spec(old_path@, new_path@, (hv, terminated), hint));
    }
    out
}

} // verus!
