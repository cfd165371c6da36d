//! Style-aware wrapping of a line of styled spans at a target width.
//!
//! Lines break only at ASCII spaces between words. A word is a run of
//! non-space characters, possibly across several spans, with the spaces
//! that follow it. A word wider than the line extends past the boundary
//! rather than being broken, so that long endpoint paths stay copyable.

use vstd::prelude::*;
use crate::text::{chars_of, string_from_chars};

verus! {

/// The role of a piece of text, which the terminal renders with a style.
#[derive(Debug, Clone, Copy, PartialEq, Eq, Structural)]
pub enum StyleRole {
    Plain,
    Bold,
    Dimmed,
    Header,
    SuccessHeader,
    Failure,
    FailureHeader,
    Warning,
    WarningHeader,
    UnchangedHeader,
    Filename,
    OperationId,
    DiffBefore,
    DiffAfter,
}

/// A run of text with one style.
#[derive(Debug, Clone)]
pub struct Span {
    /// The text (never empty in a line).
    pub content: String,
    /// Its style.
    pub style: StyleRole,
}

/// A logical line: styled spans, in order.
#[derive(Debug)]
pub struct Line {
    spans: Vec<Span>,
}

/// The spans as text and style.
pub open spec fn spans_view(spans: Seq<Span>) -> Seq<(Seq<char>, StyleRole)> {
    spans.map_values(|s: Span| (s.content@, s.style))
}

impl Line {
    /// The spans, as text and style.
    pub closed spec fn view_spans(&self) -> Seq<(Seq<char>, StyleRole)> {
        spans_view(self.spans@)
    }

    /// An empty line.
    pub fn new() -> (res: Self)
        ensures
            res.view_spans() == Seq::<(Seq<char>, StyleRole)>::empty(),
    {
        let res = Line { spans: Vec::new() };
        assert(res.view_spans() =~= Seq::<(Seq<char>, StyleRole)>::empty());
        res
    }

    /// Appends a styled span; empty text is ignored.
    pub fn push(&mut self, content: &str, style: StyleRole)
        ensures
            final(self).view_spans() == if content@.len() > 0 {
                old(self).view_spans().push((content@, style))
            } else {
                old(self).view_spans()
            },
    {
        let cs = chars_of(content);
        if cs.len() > 0 {
            let ghost before = self.spans@;
            self.spans.push(Span { content: string_from_chars(cs.as_slice()), style });
            assert(spans_view(self.spans@) =~= spans_view(before).push((content@, style)));
        }
    }

    /// Appends an unstyled span; empty text is ignored.
    pub fn push_plain(&mut self, content: &str)
        ensures
            final(self).view_spans() == if content@.len() > 0 {
                old(self).view_spans().push((content@, StyleRole::Plain))
            } else {
                old(self).view_spans()
            },
    {
        self.push(content, StyleRole::Plain);
    }

    /// The spans, in order.
    pub fn spans(&self) -> (res: &[Span])
        ensures
            spans_view(res@) == self.view_spans(),
    {
        self.spans.as_slice()
    }
}

/// The indent written at the start of each continuation line, with its
/// visible width.
#[derive(Debug, Clone)]
pub struct Indent {
    /// The text written.
    pub string: String,
    /// Its visible width.
    pub width: usize,
}

impl Indent {
    /// An indent made of ASCII spaces; its width is their number.
    pub fn spaces(string: &str) -> (res: Self)
        requires
            forall|i: int| 0 <= i < string@.len() ==> string@[i] == ' ',
        ensures
            res.string@ == string@,
            res.width == string@.len(),
    {
        let cs = chars_of(string);
        Indent { string: string_from_chars(cs.as_slice()), width: cs.len() }
    }
}

/// A word while it is collected: its body slices (text, style, index of the
/// span it came from) and the number of spaces after it.
pub struct WordParts {
    pub body: Seq<(Seq<char>, StyleRole, int)>,
    pub trailing: nat,
}

/// The words so far, the current word, and whether the current word's
/// trailing spaces have begun.
pub type WordState = (Seq<WordParts>, WordParts, bool);

/// One character `c` of span `k` (style `style`) added to the state: a
/// space extends the current word's trailing spaces; a non-space after
/// trailing spaces starts a new word; otherwise it extends the current
/// word's body, within its last slice when that slice came from the same
/// span.
pub open spec fn word_step(st: WordState, c: char, style: StyleRole, k: int) -> WordState {
    let (ws, cur, in_ws) = st;
    if c == ' ' {
        (ws, WordParts { body: cur.body, trailing: cur.trailing + 1 }, true)
    } else if in_ws {
        (ws.push(cur), WordParts { body: seq![(seq![c], style, k)], trailing: 0 }, false)
    } else if cur.body.len() > 0 && cur.body.last().2 == k {
        let last = cur.body.last();
        (
            ws,
            WordParts {
                body: cur.body.update(cur.body.len() - 1, (last.0.push(c), last.1, last.2)),
                trailing: cur.trailing,
            },
            false,
        )
    } else {
        (ws, WordParts { body: cur.body.push((seq![c], style, k)), trailing: cur.trailing }, false)
    }
}

/// The characters of the spans, each with its style and span index.
pub open spec fn marked_chars(spans: Seq<(Seq<char>, StyleRole)>) -> Seq<(char, StyleRole, int)>
    decreases spans.len(),
{
    if spans.len() == 0 {
        seq![]
    } else {
        let k = spans.len() - 1;
        marked_chars(spans.drop_last()) + spans.last().0.map_values(
            |c: char| (c, spans.last().1, k),
        )
    }
}

/// The state after adding the characters in order.
pub open spec fn fold_words(m: Seq<(char, StyleRole, int)>) -> WordState
    decreases m.len(),
{
    if m.len() == 0 {
        (seq![], WordParts { body: seq![], trailing: 0 }, false)
    } else {
        let (c, style, k) = m.last();
        word_step(fold_words(m.drop_last()), c, style, k)
    }
}

/// The words of a line of spans.
pub open spec fn words_spec(spans: Seq<(Seq<char>, StyleRole)>) -> Seq<WordParts> {
    let (ws, cur, _) = fold_words(marked_chars(spans));
    if cur.body.len() > 0 || cur.trailing > 0 {
        ws.push(cur)
    } else {
        ws
    }
}

/// A collected word: body slices (characters, style, span index) and the
/// number of spaces after it.
#[derive(Debug)]
pub struct CollectedWord {
    pub body: Vec<(Vec<char>, StyleRole, usize)>,
    pub trailing: usize,
}

/// The abstract value of a collected word.
pub open spec fn collected_view(w: CollectedWord) -> WordParts {
    WordParts {
        body: w.body@.map_values(|s: (Vec<char>, StyleRole, usize)| (s.0@, s.1, s.2 as int)),
        trailing: w.trailing as nat,
    }
}

/// The abstract values of collected words.
pub open spec fn collected_views(ws: Seq<CollectedWord>) -> Seq<WordParts> {
    ws.map_values(|w: CollectedWord| collected_view(w))
}

proof fn lemma_fold_push(m: Seq<(char, StyleRole, int)>, x: (char, StyleRole, int))
    ensures
        fold_words(m.push(x)) == word_step(fold_words(m), x.0, x.1, x.2),
{
    assert(m.push(x).drop_last() =~= m);
}

proof fn lemma_fold_trailing_bound(m: Seq<(char, StyleRole, int)>)
    ensures
        fold_words(m).1.trailing <= m.len(),
    decreases m.len(),
{
    if m.len() > 0 {
        lemma_fold_trailing_bound(m.drop_last());
    }
}

/// Splits a line into words at ASCII spaces (see `words_spec`).
pub fn collect_words(line: &Line) -> (res: Vec<CollectedWord>)
    requires
        marked_chars(line.view_spans()).len() <= usize::MAX,
    ensures
        collected_views(res@) == words_spec(line.view_spans()),
{
    let spans = line.spans();
    let ghost sv = spans_view(spans@);
    let mut words: Vec<CollectedWord> = Vec::new();
    let mut body: Vec<(Vec<char>, StyleRole, usize)> = Vec::new();
    let mut trailing: usize = 0;
    let mut in_ws = false;
    let mut j: usize = 0;
    let ghost mut done: Seq<(char, StyleRole, int)> = seq![];
    assert(sv.subrange(0, 0) =~= Seq::<(Seq<char>, StyleRole)>::empty());
    assert(collected_views(words@) =~= Seq::<WordParts>::empty());
    assert(collected_view(CollectedWord { body, trailing }).body =~= Seq::<
        (Seq<char>, StyleRole, int),
    >::empty());
    while j < spans.len()
        invariant
            j <= spans@.len(),
            sv == spans_view(spans@),
            sv == line.view_spans(),
            marked_chars(sv).len() <= usize::MAX,
            done == marked_chars(sv.subrange(0, j as int)),
            fold_words(done) == (
                collected_views(words@),
                collected_view(CollectedWord { body, trailing }),
                in_ws,
            ),
        decreases spans@.len() - j,
    {
        let cs = chars_of(spans[j].content.as_str());
        let style = spans[j].style;
        let ghost mapped = sv[j as int].0.map_values(|c: char| (c, sv[j as int].1, j as int));
        proof {
            lemma_marked_prefix_bound(sv, j as int + 1);
            assert(sv.subrange(0, j + 1).drop_last() =~= sv.subrange(0, j as int));
            assert(marked_chars(sv.subrange(0, j + 1)) == done + mapped);
        }
        let mut i: usize = 0;
        while i < cs.len()
            invariant
                i <= cs@.len(),
                j < spans@.len(),
                cs@ == sv[j as int].0,
                style == sv[j as int].1,
                mapped == sv[j as int].0.map_values(|c: char| (c, sv[j as int].1, j as int)),
                (done + mapped).len() <= usize::MAX,
                fold_words(done + mapped.subrange(0, i as int)) == (
                    collected_views(words@),
                    collected_view(CollectedWord { body, trailing }),
                    in_ws,
                ),
            decreases cs@.len() - i,
        {
            let c = cs[i];
            let ghost prefix = done + mapped.subrange(0, i as int);
            proof {
                assert(done + mapped.subrange(0, i + 1) =~= prefix.push((c, style, j as int)));
                lemma_fold_push(prefix, (c, style, j as int));
                lemma_fold_trailing_bound(prefix);
            }
            let ghost before_words = words@;
            let ghost before_body = body@;
            if c == ' ' {
                trailing = trailing + 1;
                in_ws = true;
                proof {
                    assert(collected_view(CollectedWord { body, trailing }).body
                        =~= fold_words(prefix).1.body);
                }
            } else if in_ws {
                let mut old_body: Vec<(Vec<char>, StyleRole, usize)> = Vec::new();
                std::mem::swap(&mut old_body, &mut body);
                words.push(CollectedWord { body: old_body, trailing });
                let mut first: Vec<char> = Vec::new();
                first.push(c);
                body.push((first, style, j));
                trailing = 0;
                in_ws = false;
                proof {
                    assert(collected_views(words@) =~= collected_views(before_words).push(
                        fold_words(prefix).1,
                    ));
                    assert(collected_view(CollectedWord { body, trailing }).body =~= seq![
                        (seq![c], style, j as int),
                    ]);
                }
            } else if body.len() > 0 && body[body.len() - 1].2 == j {
                let last = body.pop();
                match last {
                    Some(slice) => {
                        let (mut text, st, k) = slice;
                        text.push(c);
                        body.push((text, st, k));
                    },
                    None => {},
                }
                proof {
                    assert(collected_view(CollectedWord { body, trailing }).body =~= fold_words(
                        prefix.push((c, style, j as int)),
                    ).1.body);
                }
            } else {
                let mut first: Vec<char> = Vec::new();
                first.push(c);
                body.push((first, style, j));
                proof {
                    assert(collected_view(CollectedWord { body, trailing }).body =~= fold_words(
                        prefix.push((c, style, j as int)),
                    ).1.body);
                }
            }
            i = i + 1;
        }
        proof {
            assert(mapped.subrange(0, cs@.len() as int) =~= mapped);
            done = done + mapped;
        }
        j = j + 1;
    }
    proof {
        assert(sv.subrange(0, sv.len() as int) =~= sv);
    }
    if body.len() > 0 || trailing > 0 {
        let ghost before_words = words@;
        let ghost cur = collected_view(CollectedWord { body, trailing });
        words.push(CollectedWord { body, trailing });
        assert(collected_views(words@) =~= collected_views(before_words).push(cur));
    }
    words
}

proof fn lemma_marked_prefix_bound(spans: Seq<(Seq<char>, StyleRole)>, n: int)
    requires
        0 <= n <= spans.len(),
    ensures
        marked_chars(spans.subrange(0, n)).len() <= marked_chars(spans).len(),
    decreases spans.len(),
{
    if n < spans.len() {
        assert(spans.drop_last().subrange(0, n) =~= spans.subrange(0, n));
        lemma_marked_prefix_bound(spans.drop_last(), n);
    } else {
        assert(spans.subrange(0, n) =~= spans);
    }
}

/// Every character is printable ASCII (space to `~`).
pub open spec fn printable_ascii(s: Seq<char>) -> bool {
    forall|i: int| 0 <= i < s.len() ==> ' ' <= #[trigger] s[i] <= '~'
}

/// The display width of `text` as `textwrap::core::display_width` computes
/// it (ANSI escape sequences take no columns).
pub uninterp spec fn text_display_width(text: Seq<char>) -> usize;

/// Calls `textwrap::core::display_width`.
///
/// Trusted: the result is `text_display_width` of the text; text made of
/// printable ASCII characters (space to `~`, so no escape sequence) takes one
/// column per character. The Unicode width tables it consults for other
/// characters are not restated here.
#[verifier::external_body]
fn display_width_call(text: &str) -> (res: usize)
    ensures
        res == text_display_width(text@),
        printable_ascii(text@) ==> res == text@.len(),
{
    textwrap::core::display_width(text)
}

/// `a + b`, or the largest `usize` when that does not fit.
pub open spec fn sat_add(a: nat, b: nat) -> nat {
    if a + b > usize::MAX {
        usize::MAX as nat
    } else {
        a + b
    }
}

/// The width of a word's body: the widths of its slices, added up.
pub open spec fn body_width_spec(body: Seq<(Seq<char>, StyleRole, int)>) -> nat
    decreases body.len(),
{
    if body.len() == 0 {
        0
    } else {
        sat_add(body_width_spec(body.drop_last()), text_display_width(body.last().0) as nat)
    }
}

fn word_body_width(w: &CollectedWord) -> (res: usize)
    ensures
        res == body_width_spec(collected_view(*w).body),
{
    let ghost bv = collected_view(*w).body;
    let mut total: usize = 0;
    let mut i: usize = 0;
    while i < w.body.len()
        invariant
            i <= w.body@.len(),
            bv == collected_view(*w).body,
            total == body_width_spec(bv.subrange(0, i as int)),
        decreases w.body@.len() - i,
    {
        let text = string_from_chars(w.body[i].0.as_slice());
        let d = display_width_call(text.as_str());
        proof {
            assert(bv.subrange(0, i + 1).drop_last() =~= bv.subrange(0, i as int));
        }
        total = total.saturating_add(d);
        i = i + 1;
    }
    assert(bv.subrange(0, bv.len() as int) =~= bv);
    total
}

/// The line breaking state: finished ranges of word indices, the start of
/// the current line, and the width used on it.
pub type BreakState = (Seq<(int, int)>, int, nat);

/// Word `i` (body width `bw`, `tw` trailing spaces) placed greedily: it
/// starts a new line when the current line is not empty and its body would
/// not fit within `cw` columns.
pub open spec fn break_step(st: BreakState, i: int, bw: nat, tw: nat, cw: nat) -> BreakState {
    let (ranges, start, cur) = st;
    if cur > 0 && sat_add(cur, bw) > cw {
        (ranges.push((start, i)), i, sat_add(0, sat_add(bw, tw)))
    } else {
        (ranges, start, sat_add(cur, sat_add(bw, tw)))
    }
}

/// The state after placing the words in order.
pub open spec fn break_fold(ws: Seq<WordParts>, cw: nat) -> BreakState
    decreases ws.len(),
{
    if ws.len() == 0 {
        (seq![], 0, 0)
    } else {
        break_step(
            break_fold(ws.drop_last(), cw),
            ws.len() - 1,
            body_width_spec(ws.last().body),
            ws.last().trailing,
            cw,
        )
    }
}

/// The ranges of word indices on each output line.
pub open spec fn line_ranges(ws: Seq<WordParts>, cw: nat) -> Seq<(int, int)> {
    let (ranges, start, _) = break_fold(ws, cw);
    ranges.push((start, ws.len() as int))
}

/// A piece of wrapped output.
#[derive(Debug, Clone, PartialEq, Eq)]
pub enum WrapPiece {
    /// Text in a style.
    Text { text: String, style: StyleRole },
    /// This many spaces, unstyled.
    Spaces(usize),
    /// A line break followed by the continuation indent.
    Break,
}

/// The abstract value of a piece: 0 text, 1 spaces, 2 break.
pub open spec fn piece_view(p: WrapPiece) -> (int, Seq<char>, StyleRole, nat) {
    match p {
        WrapPiece::Text { text, style } => (0, text@, style, 0),
        WrapPiece::Spaces(n) => (1, seq![], StyleRole::Plain, n as nat),
        WrapPiece::Break => (2, seq![], StyleRole::Plain, 0),
    }
}

/// The pieces of one word: its body slices, then its trailing spaces unless
/// it ends the line.
pub open spec fn word_pieces(w: WordParts, last: bool) -> Seq<(int, Seq<char>, StyleRole, nat)> {
    w.body.map_values(|s: (Seq<char>, StyleRole, int)| (0int, s.0, s.1, 0nat)) + if !last
        && w.trailing > 0 {
        seq![(1int, Seq::<char>::empty(), StyleRole::Plain, w.trailing)]
    } else {
        seq![]
    }
}

/// The pieces of words `lo..j` of a line that ends before word `end`.
pub open spec fn group_pieces(ws: Seq<WordParts>, lo: int, j: int, end: int) -> Seq<
    (int, Seq<char>, StyleRole, nat),
>
    decreases j - lo,
{
    if j <= lo {
        seq![]
    } else {
        group_pieces(ws, lo, j - 1, end) + word_pieces(ws[j - 1], j - 1 == end - 1)
    }
}

/// The pieces of the lines, with a break between lines.
pub open spec fn lines_pieces(ws: Seq<WordParts>, ranges: Seq<(int, int)>) -> Seq<
    (int, Seq<char>, StyleRole, nat),
>
    decreases ranges.len(),
{
    if ranges.len() == 0 {
        seq![]
    } else {
        let r = ranges.last();
        lines_pieces(ws, ranges.drop_last()) + (if ranges.len() > 1 {
            seq![(2int, Seq::<char>::empty(), StyleRole::Plain, 0nat)]
        } else {
            seq![]
        }) + group_pieces(ws, r.0, r.1, r.1)
    }
}

/// The wrapped output of a line of spans at `width` columns, with
/// continuation lines indented by `indent_width` columns.
pub open spec fn wrap_spec(spans: Seq<(Seq<char>, StyleRole)>, width: nat, indent_width: nat) -> Seq<
    (int, Seq<char>, StyleRole, nat),
> {
    let ws = words_spec(spans);
    if ws.len() == 0 {
        seq![]
    } else {
        lines_pieces(ws, line_ranges(ws, if width >= indent_width { (width - indent_width) as nat } else { 0 }))
    }
}

proof fn lemma_break_fold_ranges(ws: Seq<WordParts>, cw: nat)
    ensures
        ({
            let (ranges, start, _) = break_fold(ws, cw);
            &&& 0 <= start <= ws.len()
            &&& forall|k: int| 0 <= k < ranges.len() ==> 0 <= (#[trigger] ranges[k]).0 <= ranges[k].1 <= start
        }),
    decreases ws.len(),
{
    if ws.len() > 0 {
        lemma_break_fold_ranges(ws.drop_last(), cw);
    }
}

/// The abstract values of pieces.
pub open spec fn pieces_view(ps: Seq<WrapPiece>) -> Seq<(int, Seq<char>, StyleRole, nat)> {
    ps.map_values(|p: WrapPiece| piece_view(p))
}

fn push_word_pieces(out: &mut Vec<WrapPiece>, w: &CollectedWord, last: bool)
    ensures
        pieces_view(final(out)@) == pieces_view(old(out)@) + word_pieces(collected_view(*w), last),
{
    let ghost wv = collected_view(*w);
    let ghost base = out@;
    let mut i: usize = 0;
    while i < w.body.len()
        invariant
            i <= w.body@.len(),
            wv == collected_view(*w),
            pieces_view(out@) == pieces_view(base) + wv.body.subrange(0, i as int).map_values(
                |s: (Seq<char>, StyleRole, int)| (0int, s.0, s.1, 0nat),
            ),
        decreases w.body@.len() - i,
    {
        let text = string_from_chars(w.body[i].0.as_slice());
        assert(wv.body[i as int] == (w.body@[i as int].0@, w.body@[i as int].1, w.body@[i as int].2 as int));
        let ghost prev = out@;
        let ghost tv = text@;
        out.push(WrapPiece::Text { text, style: w.body[i].1 });
        assert(pieces_view(out@) =~= pieces_view(prev).push((0int, tv, w.body@[i as int].1, 0nat)));
        assert(wv.body.subrange(0, i + 1).map_values(
            |s: (Seq<char>, StyleRole, int)| (0int, s.0, s.1, 0nat),
        ) =~= wv.body.subrange(0, i as int).map_values(
            |s: (Seq<char>, StyleRole, int)| (0int, s.0, s.1, 0nat),
        ).push((0int, tv, w.body@[i as int].1, 0nat)));
        i = i + 1;
        assert(pieces_view(out@) =~= pieces_view(base) + wv.body.subrange(0, i as int).map_values(
            |s: (Seq<char>, StyleRole, int)| (0int, s.0, s.1, 0nat),
        ));
    }
    assert(wv.body.subrange(0, wv.body.len() as int) =~= wv.body);
    if !last && w.trailing > 0 {
        let ghost mid = out@;
        out.push(WrapPiece::Spaces(w.trailing));
        assert(pieces_view(out@) =~= pieces_view(mid).push(
            (1int, Seq::<char>::empty(), StyleRole::Plain, w.trailing as nat),
        ));
    }
    assert(pieces_view(out@) =~= pieces_view(base) + word_pieces(wv, last));
}

/// Lays out a line at `width` columns: words are placed greedily, a word
/// starting a new line when the current line is not empty and its body
/// would not fit in the columns left after the indent; trailing spaces are
/// dropped at the end of each line, and each continuation line starts with
/// the indent (see `wrap_spec`). A word wider than the line stays whole.
pub fn write_wrapped(line: &Line, width: usize, indent: &Indent) -> (res: Vec<WrapPiece>)
    requires
        marked_chars(line.view_spans()).len() <= usize::MAX,
    ensures
        pieces_view(res@) == wrap_spec(line.view_spans(), width as nat, indent.width as nat),
{
    let words = collect_words(line);
    let ghost views = collected_views(words@);
    if words.len() == 0 {
        let out: Vec<WrapPiece> = Vec::new();
        assert(pieces_view(out@) =~= Seq::<(int, Seq<char>, StyleRole, nat)>::empty());
        return out;
    }
    let cw = width.saturating_sub(indent.width);
    let n = words.len();
    let mut ranges: Vec<(usize, usize)> = Vec::new();
    let mut start: usize = 0;
    let mut current: usize = 0;
    let mut i: usize = 0;
    assert(views.subrange(0, 0) =~= Seq::<WordParts>::empty());
    assert(ranges@.map_values(|r: (usize, usize)| (r.0 as int, r.1 as int)) =~= Seq::<
        (int, int),
    >::empty());
    while i < n
        invariant
            i <= n,
            n == words@.len(),
            views == collected_views(words@),
            start <= i,
            (ranges@.map_values(|r: (usize, usize)| (r.0 as int, r.1 as int)), start as int, current as nat)
                == break_fold(views.subrange(0, i as int), cw as nat),
        decreases n - i,
    {
        let bw = word_body_width(&words[i]);
        let tw = words[i].trailing;
        proof {
            assert(views.subrange(0, i + 1).drop_last() =~= views.subrange(0, i as int));
            assert(views[i as int] == collected_view(words@[i as int]));
        }
        let ghost before = ranges@;
        if current > 0 && current.saturating_add(bw) > cw {
            ranges.push((start, i));
            start = i;
            current = 0;
            assert(ranges@.map_values(|r: (usize, usize)| (r.0 as int, r.1 as int)) =~= before.map_values(
                |r: (usize, usize)| (r.0 as int, r.1 as int),
            ).push((break_fold(views.subrange(0, i as int), cw as nat).1, i as int)));
        }
        current = current.saturating_add(bw.saturating_add(tw));
        i = i + 1;
    }
    assert(views.subrange(0, n as int) =~= views);
    let ghost pre = ranges@;
    ranges.push((start, n));
    let ghost rv = ranges@.map_values(|r: (usize, usize)| (r.0 as int, r.1 as int));
    assert(rv =~= line_ranges(views, cw as nat));
    proof {
        lemma_break_fold_ranges(views, cw as nat);
        assert forall|k: int| 0 <= k < ranges@.len() implies (#[trigger] ranges@[k]).0 <= ranges@[k].1
            <= n by {
            assert(rv[k] == (ranges@[k].0 as int, ranges@[k].1 as int));
            if k < ranges@.len() - 1 {
                assert(rv[k] == break_fold(views, cw as nat).0[k]);
            }
        }
    }
    let mut out: Vec<WrapPiece> = Vec::new();
    let mut idx: usize = 0;
    assert(pieces_view(out@) =~= lines_pieces(views, rv.subrange(0, 0)));
    while idx < ranges.len()
        invariant
            idx <= ranges@.len(),
            n == words@.len(),
            views == collected_views(words@),
            rv == ranges@.map_values(|r: (usize, usize)| (r.0 as int, r.1 as int)),
            forall|k: int| 0 <= k < ranges@.len() ==> (#[trigger] ranges@[k]).0 <= ranges@[k].1 <= n,
            pieces_view(out@) == lines_pieces(views, rv.subrange(0, idx as int)),
        decreases ranges@.len() - idx,
    {
        let (lo, hi) = ranges[idx];
        let ghost base = out@;
        if idx > 0 {
            out.push(WrapPiece::Break);
        }
        let ghost with_break = pieces_view(out@);
        assert(with_break =~= pieces_view(base) + (if idx + 1 > 1 {
            seq![(2int, Seq::<char>::empty(), StyleRole::Plain, 0nat)]
        } else {
            Seq::<(int, Seq<char>, StyleRole, nat)>::empty()
        }));
        let mut j: usize = lo;
        assert(group_pieces(views, lo as int, lo as int, hi as int) =~= Seq::<
            (int, Seq<char>, StyleRole, nat),
        >::empty());
        while j < hi
            invariant
                lo <= j <= hi <= n,
                n == words@.len(),
                views == collected_views(words@),
                pieces_view(out@) == with_break + group_pieces(views, lo as int, j as int, hi as int),
            decreases hi - j,
        {
            push_word_pieces(&mut out, &words[j], j + 1 == hi);
            assert(views[j as int] == collected_view(words@[j as int]));
            j = j + 1;
        }
        proof {
            assert(rv.subrange(0, idx + 1).drop_last() =~= rv.subrange(0, idx as int));
            assert(rv[idx as int] == (lo as int, hi as int));
        }
        idx = idx + 1;
    }
    assert(rv.subrange(0, rv.len() as int) =~= rv);
    out
}

/// The pieces written as plain text: spaces for `Spaces`, a newline and
/// the indent for `Break`.
pub open spec fn plain_text(ps: Seq<(int, Seq<char>, StyleRole, nat)>, indent: Seq<char>) -> Seq<char>
    decreases ps.len(),
{
    if ps.len() == 0 {
        seq![]
    } else {
        let p = ps.last();
        plain_text(ps.drop_last(), indent) + if p.0 == 0 {
            p.1
        } else if p.0 == 1 {
            Seq::new(p.3, |i: int| ' ')
        } else {
            seq!['\n'] + indent
        }
    }
}

/// Writes the pieces as plain text, without styles.
pub fn render_plain(pieces: &Vec<WrapPiece>, indent: &Indent) -> (res: String)
    ensures
        res@ == plain_text(pieces_view(pieces@), indent.string@),
{
    let ghost pv = pieces_view(pieces@);
    let ind = chars_of(indent.string.as_str());
    let mut out: Vec<char> = Vec::new();
    let mut i: usize = 0;
    while i < pieces.len()
        invariant
            i <= pieces@.len(),
            pv == pieces_view(pieces@),
            ind@ == indent.string@,
            out@ == plain_text(pv.subrange(0, i as int), indent.string@),
        decreases pieces@.len() - i,
    {
        let ghost before = out@;
        match &pieces[i] {
            WrapPiece::Text { text, .. } => {
                crate::text::push_str_chars(&mut out, text.as_str());
            },
            WrapPiece::Spaces(n) => {
                let mut k: usize = 0;
                while k < *n
                    invariant
                        k <= *n,
                        out@ == before + Seq::new(k as nat, |i: int| ' '),
                    decreases *n - k,
                {
                    out.push(' ');
                    k = k + 1;
                    assert(out@ =~= before + Seq::new(k as nat, |i: int| ' '));
                }
            },
            WrapPiece::Break => {
                out.push('\n');
                crate::text::push_chars(&mut out, ind.as_slice());
                assert(out@ =~= before + (seq!['\n'] + indent.string@));
            },
        }
        proof {
            assert(pv.subrange(0, i + 1).drop_last() =~= pv.subrange(0, i as int));
        }
        i = i + 1;
    }
    assert(pv.subrange(0, pv.len() as int) =~= pv);
    string_from_chars(out.as_slice())
}

/// The characters of a line other than spaces, each with its style.
pub open spec fn styled_nonspace(m: Seq<(char, StyleRole, int)>) -> Seq<(char, StyleRole)>
    decreases m.len(),
{
    if m.len() == 0 {
        seq![]
    } else if m.last().0 == ' ' {
        styled_nonspace(m.drop_last())
    } else {
        styled_nonspace(m.drop_last()).push((m.last().0, m.last().1))
    }
}

/// The characters of body slices, each with the slice's style.
pub open spec fn slices_chars(body: Seq<(Seq<char>, StyleRole, int)>) -> Seq<(char, StyleRole)>
    decreases body.len(),
{
    if body.len() == 0 {
        seq![]
    } else {
        slices_chars(body.drop_last()) + body.last().0.map_values(|c: char| (c, body.last().1))
    }
}

/// The body characters of words `lo..hi`, each with its style.
pub open spec fn words_chars(ws: Seq<WordParts>, lo: int, hi: int) -> Seq<(char, StyleRole)>
    decreases hi - lo,
{
    if hi <= lo {
        seq![]
    } else {
        words_chars(ws, lo, hi - 1) + slices_chars(ws[hi - 1].body)
    }
}

/// The text pieces of output, as characters with their styles.
pub open spec fn pieces_chars(ps: Seq<(int, Seq<char>, StyleRole, nat)>) -> Seq<(char, StyleRole)>
    decreases ps.len(),
{
    if ps.len() == 0 {
        seq![]
    } else {
        pieces_chars(ps.drop_last()) + if ps.last().0 == 0 {
            ps.last().1.map_values(|c: char| (c, ps.last().2))
        } else {
            seq![]
        }
    }
}

/// Characters with equal span indices have equal styles.
pub open spec fn styles_consistent(m: Seq<(char, StyleRole, int)>) -> bool {
    forall|i: int, j: int| 0 <= i < m.len() && 0 <= j < m.len() && #[trigger] m[i].2 == #[trigger] m[j].2 ==> m[i].1 == m[j].1
}

proof fn lemma_marked_consistent(spans: Seq<(Seq<char>, StyleRole)>)
    ensures
        forall|i: int|
            0 <= i < marked_chars(spans).len() ==> 0 <= (#[trigger] marked_chars(spans)[i]).2 < spans.len()
                && marked_chars(spans)[i].1 == spans[marked_chars(spans)[i].2].1,
        styles_consistent(marked_chars(spans)),
    decreases spans.len(),
{
    if spans.len() > 0 {
        let prev = spans.drop_last();
        lemma_marked_consistent(prev);
        let m = marked_chars(spans);
        let mp = marked_chars(prev);
        let k = spans.len() - 1;
        let tail = spans.last().0.map_values(|c: char| (c, spans.last().1, k));
        assert(m == mp + tail);
        assert forall|i: int| 0 <= i < m.len() implies 0 <= (#[trigger] m[i]).2 < spans.len() && m[i].1
            == spans[m[i].2].1 by {
            if i < mp.len() {
                assert(m[i] == mp[i]);
                assert(prev[mp[i].2] == spans[mp[i].2]);
            } else {
                assert(m[i] == tail[i - mp.len()]);
            }
        }
    }
}

proof fn lemma_words_chars_frame(a: Seq<WordParts>, b: Seq<WordParts>, lo: int, hi: int)
    requires
        0 <= lo,
        hi <= a.len(),
        hi <= b.len(),
        forall|i: int| lo <= i < hi ==> a[i] == b[i],
    ensures
        words_chars(a, lo, hi) == words_chars(b, lo, hi),
    decreases hi - lo,
{
    if hi > lo {
        lemma_words_chars_frame(a, b, lo, hi - 1);
    }
}

proof fn lemma_fold_chars(m: Seq<(char, StyleRole, int)>)
    requires
        styles_consistent(m),
    ensures
        ({
            let (ws, cur, _) = fold_words(m);
            &&& words_chars(ws, 0, ws.len() as int) + slices_chars(cur.body) == styled_nonspace(m)
            &&& cur.body.len() > 0 ==> exists|i: int|
                0 <= i < m.len() && #[trigger] m[i].1 == cur.body.last().1 && m[i].2 == cur.body.last().2
        }),
    decreases m.len(),
{
    if m.len() > 0 {
        let p = m.drop_last();
        assert forall|i: int, j: int|
            0 <= i < p.len() && 0 <= j < p.len() && #[trigger] p[i].2 == #[trigger] p[j].2 implies p[i].1 == p[j].1 by {
            assert(p[i] == m[i] && p[j] == m[j]);
        }
        lemma_fold_chars(p);
        let (ws, cur, in_ws) = fold_words(p);
        let (c, style, k) = m.last();
        let n = m.len() - 1;
        assert(m[n] == (c, style, k));
        let (ws2, cur2, _) = fold_words(m);
        if c == ' ' {
            assert(cur2.body == cur.body);
            if cur.body.len() > 0 {
                let i = choose|i: int| 0 <= i < p.len() && #[trigger] p[i].1 == cur.body.last().1 && p[i].2 == cur.body.last().2;
                assert(m[i] == p[i]);
            }
        } else if in_ws {
            assert(ws2 == ws.push(cur));
            lemma_words_chars_frame(ws2, ws, 0, ws.len() as int);
            assert(words_chars(ws2, 0, ws2.len() as int) == words_chars(ws, 0, ws.len() as int) + slices_chars(cur.body));
            let one = seq![(seq![c], style, k)];
            assert(cur2.body == one);
            assert(one.drop_last() =~= Seq::<(Seq<char>, StyleRole, int)>::empty());
            assert(seq![c].map_values(|x: char| (x, style)) =~= seq![(c, style)]);
            assert(slices_chars(Seq::<(Seq<char>, StyleRole, int)>::empty()) =~= Seq::<(char, StyleRole)>::empty());
            assert(one.last() == (seq![c], style, k));
            assert(slices_chars(one) =~= seq![(c, style)]);
            assert(m[n].1 == cur2.body.last().1 && m[n].2 == cur2.body.last().2);
        } else if cur.body.len() > 0 && cur.body.last().2 == k {
            let last = cur.body.last();
            let i = choose|i: int| 0 <= i < p.len() && #[trigger] p[i].1 == cur.body.last().1 && p[i].2 == cur.body.last().2;
            assert(m[i] == p[i]);
            assert(m[i].2 == m[n].2);
            assert(last.1 == style);
            let body2 = cur.body.update(cur.body.len() - 1, (last.0.push(c), last.1, last.2));
            assert(cur2.body == body2);
            assert(body2.drop_last() =~= cur.body.drop_last());
            assert(last.0.push(c).map_values(|x: char| (x, last.1)) =~= last.0.map_values(|x: char| (x, last.1)).push(
                (c, last.1),
            ));
            assert(slices_chars(body2) =~= slices_chars(cur.body).push((c, style)));
            assert(m[i].1 == cur2.body.last().1 && m[i].2 == cur2.body.last().2);
        } else {
            let body2 = cur.body.push((seq![c], style, k));
            assert(cur2.body == body2);
            assert(body2.drop_last() =~= cur.body);
            assert(seq![c].map_values(|x: char| (x, style)) =~= seq![(c, style)]);
            assert(slices_chars(body2) =~= slices_chars(cur.body).push((c, style)));
            assert(m[n].1 == cur2.body.last().1 && m[n].2 == cur2.body.last().2);
        }
    }
}

proof fn lemma_pieces_chars_add(a: Seq<(int, Seq<char>, StyleRole, nat)>, b: Seq<(int, Seq<char>, StyleRole, nat)>)
    ensures
        pieces_chars(a + b) == pieces_chars(a) + pieces_chars(b),
    decreases b.len(),
{
    if b.len() == 0 {
        assert(a + b =~= a);
        assert(pieces_chars(a) + pieces_chars(b) =~= pieces_chars(a));
    } else {
        lemma_pieces_chars_add(a, b.drop_last());
        assert((a + b).drop_last() =~= a + b.drop_last());
        assert((a + b).last() == b.last());
        assert(pieces_chars(a + b) =~= pieces_chars(a) + pieces_chars(b));
    }
}

proof fn lemma_body_pieces_chars(body: Seq<(Seq<char>, StyleRole, int)>)
    ensures
        pieces_chars(body.map_values(|s: (Seq<char>, StyleRole, int)| (0int, s.0, s.1, 0nat))) == slices_chars(body),
    decreases body.len(),
{
    let ps = body.map_values(|s: (Seq<char>, StyleRole, int)| (0int, s.0, s.1, 0nat));
    if body.len() > 0 {
        lemma_body_pieces_chars(body.drop_last());
        assert(ps.drop_last() =~= body.drop_last().map_values(|s: (Seq<char>, StyleRole, int)| (0int, s.0, s.1, 0nat)));
        assert(ps.last() == (0int, body.last().0, body.last().1, 0nat));
    } else {
        assert(ps =~= Seq::<(int, Seq<char>, StyleRole, nat)>::empty());
    }
}

proof fn lemma_word_pieces_chars(w: WordParts, last: bool)
    ensures
        pieces_chars(word_pieces(w, last)) == slices_chars(w.body),
{
    let body_ps = w.body.map_values(|s: (Seq<char>, StyleRole, int)| (0int, s.0, s.1, 0nat));
    lemma_body_pieces_chars(w.body);
    let extra = if !last && w.trailing > 0 {
        seq![(1int, Seq::<char>::empty(), StyleRole::Plain, w.trailing)]
    } else {
        seq![]
    };
    lemma_pieces_chars_add(body_ps, extra);
    if extra.len() > 0 {
        assert(extra.drop_last() =~= Seq::<(int, Seq<char>, StyleRole, nat)>::empty());
        assert(pieces_chars(Seq::<(int, Seq<char>, StyleRole, nat)>::empty()) =~= Seq::<(char, StyleRole)>::empty());
        assert(extra.last().0 == 1);
        assert(pieces_chars(extra) =~= Seq::<(char, StyleRole)>::empty());
    } else {
        assert(pieces_chars(extra) =~= Seq::<(char, StyleRole)>::empty());
    }
    assert(word_pieces(w, last) == body_ps + extra);
}

proof fn lemma_group_pieces_chars(ws: Seq<WordParts>, lo: int, j: int, end: int)
    ensures
        pieces_chars(group_pieces(ws, lo, j, end)) == words_chars(ws, lo, j),
    decreases j - lo,
{
    if j > lo {
        lemma_group_pieces_chars(ws, lo, j - 1, end);
        lemma_word_pieces_chars(ws[j - 1], j - 1 == end - 1);
        lemma_pieces_chars_add(group_pieces(ws, lo, j - 1, end), word_pieces(ws[j - 1], j - 1 == end - 1));
    } else {
        assert(pieces_chars(Seq::<(int, Seq<char>, StyleRole, nat)>::empty()) =~= Seq::<(char, StyleRole)>::empty());
    }
}

/// The characters of the words in each of the ranges, in order.
spec fn ranges_chars(ws: Seq<WordParts>, ranges: Seq<(int, int)>) -> Seq<(char, StyleRole)>
    decreases ranges.len(),
{
    if ranges.len() == 0 {
        seq![]
    } else {
        ranges_chars(ws, ranges.drop_last()) + words_chars(ws, ranges.last().0, ranges.last().1)
    }
}

proof fn lemma_lines_pieces_chars(ws: Seq<WordParts>, ranges: Seq<(int, int)>)
    ensures
        pieces_chars(lines_pieces(ws, ranges)) == ranges_chars(ws, ranges),
    decreases ranges.len(),
{
    if ranges.len() == 0 {
        assert(pieces_chars(Seq::<(int, Seq<char>, StyleRole, nat)>::empty()) =~= Seq::<(char, StyleRole)>::empty());
    } else {
        let r = ranges.last();
        lemma_lines_pieces_chars(ws, ranges.drop_last());
        let brk = if ranges.len() > 1 {
            seq![(2int, Seq::<char>::empty(), StyleRole::Plain, 0nat)]
        } else {
            seq![]
        };
        let before = lines_pieces(ws, ranges.drop_last());
        let grp = group_pieces(ws, r.0, r.1, r.1);
        lemma_pieces_chars_add(before, brk);
        lemma_pieces_chars_add(before + brk, grp);
        lemma_group_pieces_chars(ws, r.0, r.1, r.1);
        assert(pieces_chars(Seq::<(int, Seq<char>, StyleRole, nat)>::empty()) =~= Seq::<(char, StyleRole)>::empty());
        if brk.len() > 0 {
            assert(brk.drop_last() =~= Seq::<(int, Seq<char>, StyleRole, nat)>::empty());
            assert(brk.last().0 == 2);
        }
        assert(pieces_chars(brk) =~= Seq::<(char, StyleRole)>::empty());
        assert(lines_pieces(ws, ranges) == before + brk + grp);
    }
}

proof fn lemma_words_chars_concat(ws: Seq<WordParts>, a: int, b: int, c: int)
    requires
        a <= b <= c,
    ensures
        words_chars(ws, a, b) + words_chars(ws, b, c) == words_chars(ws, a, c),
    decreases c - b,
{
    if c == b {
        assert(words_chars(ws, a, b) + words_chars(ws, b, c) =~= words_chars(ws, a, b));
    } else {
        lemma_words_chars_concat(ws, a, b, c - 1);
        assert(words_chars(ws, a, b) + words_chars(ws, b, c) =~= words_chars(ws, a, b) + words_chars(ws, b, c - 1)
            + slices_chars(ws[c - 1].body));
    }
}

proof fn lemma_ranges_chars_frame(a: Seq<WordParts>, b: Seq<WordParts>, ranges: Seq<(int, int)>, bound: int)
    requires
        bound <= a.len(),
        bound <= b.len(),
        forall|i: int| 0 <= i < bound ==> a[i] == b[i],
        forall|k: int| 0 <= k < ranges.len() ==> 0 <= (#[trigger] ranges[k]).0 && ranges[k].1 <= bound,
    ensures
        ranges_chars(a, ranges) == ranges_chars(b, ranges),
    decreases ranges.len(),
{
    if ranges.len() > 0 {
        lemma_ranges_chars_frame(a, b, ranges.drop_last(), bound);
        let r = ranges.last();
        assert(r == ranges[ranges.len() - 1]);
        lemma_words_chars_frame(a, b, r.0, r.1);
    }
}

proof fn lemma_break_fold_chars(ws: Seq<WordParts>, cw: nat)
    ensures
        ({
            let (ranges, start, _) = break_fold(ws, cw);
            &&& 0 <= start <= ws.len()
            &&& ranges_chars(ws, ranges) == words_chars(ws, 0, start)
        }),
    decreases ws.len(),
{
    if ws.len() == 0 {
        assert(words_chars(ws, 0, 0) =~= Seq::<(char, StyleRole)>::empty());
    } else {
        let p = ws.drop_last();
        let n = ws.len() - 1;
        lemma_break_fold_chars(p, cw);
        lemma_break_fold_ranges(p, cw);
        let (ranges, start, cur) = break_fold(p, cw);
        assert forall|i: int| 0 <= i < n implies p[i] == ws[i] by {}
        lemma_ranges_chars_frame(p, ws, ranges, n);
        lemma_words_chars_frame(p, ws, 0, start);
        let bw = body_width_spec(ws.last().body);
        if cur > 0 && sat_add(cur, bw) > cw {
            let ranges2 = ranges.push((start, n));
            assert(ranges2.drop_last() =~= ranges);
            lemma_words_chars_concat(ws, 0, start, n);
        }
    }
}

/// Wrapping only changes the spacing: the text written, read without its
/// spaces and breaks, is exactly the line's non-space characters, in order,
/// each in the style of the span it came from.
pub proof fn law_wrap_keeps_styled_text(spans: Seq<(Seq<char>, StyleRole)>, width: nat, indent_width: nat)
    ensures
        pieces_chars(wrap_spec(spans, width, indent_width)) == styled_nonspace(marked_chars(spans)),
{
    let m = marked_chars(spans);
    lemma_marked_consistent(spans);
    lemma_fold_chars(m);
    let (fws, cur, _) = fold_words(m);
    let ws = words_spec(spans);
    if cur.body.len() > 0 || cur.trailing > 0 {
        assert(ws == fws.push(cur));
        lemma_words_chars_frame(ws, fws, 0, fws.len() as int);
    } else {
        assert(ws == fws);
        assert(slices_chars(cur.body) =~= Seq::<(char, StyleRole)>::empty());
        assert(words_chars(fws, 0, fws.len() as int) + slices_chars(cur.body) =~= words_chars(fws, 0, fws.len() as int));
    }
    assert(words_chars(ws, 0, ws.len() as int) == styled_nonspace(m));
    let cw: nat = if width >= indent_width {
        (width - indent_width) as nat
    } else {
        0
    };
    if ws.len() == 0 {
        assert(pieces_chars(Seq::<(int, Seq<char>, StyleRole, nat)>::empty()) =~= Seq::<(char, StyleRole)>::empty());
        assert(words_chars(ws, 0, 0) =~= Seq::<(char, StyleRole)>::empty());
    } else {
        let (ranges, start, _) = break_fold(ws, cw);
        lemma_break_fold_chars(ws, cw);
        let lr = line_ranges(ws, cw);
        assert(lr == ranges.push((start, ws.len() as int)));
        assert(lr.drop_last() =~= ranges);
        lemma_lines_pieces_chars(ws, lr);
        lemma_words_chars_concat(ws, 0, start, ws.len() as int);
    }
}

} // verus!
