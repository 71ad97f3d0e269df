//! Rendering a typing-state snapshot as styled text segments.
//!
//! A snapshot is turned into a sequence of display rows, each a sequence of
//! [`Segment`]s: up to two already-typed context lines, the current line —
//! split into the correctly typed prefix, the wrongs run (spanning several
//! rows when it holds embedded line-break markers), a single cursor cell,
//! the untyped remainder and a trailing end-of-line glyph — and the untyped
//! lines after it, as many as the viewport has room for.

use crate::typing::{TypingModel, TypingState};
use vstd::prelude::*;

verus! {

/// The style of one text segment.
#[derive(Clone, Copy, Debug, PartialEq, Eq, Structural)]
pub enum SegKind {
    /// Untyped reference text.
    Normal,
    /// De-emphasized: already-typed text and trailing glyphs.
    Dim,
    /// The error style of the wrongs run.
    Wrong,
    /// De-emphasized error style: the line-break glyph ending a wrongs row.
    WrongDim,
    /// The highlighted cursor cell.
    Cursor,
}

/// Model of a styled segment: its characters and its style.
#[verifier::ext_equal]
pub struct SegModel {
    pub text: Seq<char>,
    pub kind: SegKind,
}

/// A run of characters drawn in one style.
pub struct Segment {
    pub text: String,
    pub kind: SegKind,
}

impl View for Segment {
    type V = SegModel;

    open spec fn view(&self) -> SegModel {
        SegModel { text: self.text@, kind: self.kind }
    }
}

impl DeepView for Segment {
    type V = SegModel;

    open spec fn deep_view(&self) -> SegModel {
        self@
    }
}

/// Abbreviation for a segment model.
pub open spec fn seg(text: Seq<char>, kind: SegKind) -> SegModel {
    SegModel { text, kind }
}

/// The correctly typed prefix of the current line.
pub open spec fn before_text(m: TypingModel) -> Seq<char> {
    m.cur_line().take(m.char_idx)
}

/// The part of the current line the cursor has not passed yet.
pub open spec fn remaining_text(m: TypingModel) -> Seq<char> {
    m.cur_line().skip(m.char_idx)
}

/// The single cursor cell: a deletion glyph while wrongs are pending, else
/// the next expected character, or an end-of-line glyph at the line's end.
pub open spec fn cursor_text(m: TypingModel) -> Seq<char> {
    if m.wrongs.len() > 0 {
        seq!['⌫']
    } else if remaining_text(m).len() > 0 {
        seq![remaining_text(m)[0]]
    } else {
        seq!['⏎']
    }
}

/// The remainder of the reference line not yet reached, after the cursor.
pub open spec fn after_text(m: TypingModel) -> Seq<char> {
    if m.wrongs.len() > 0 {
        remaining_text(m)
    } else if remaining_text(m).len() > 0 {
        remaining_text(m).drop_first()
    } else {
        Seq::<char>::empty()
    }
}

/// The trailing glyph of the current line: a line-break glyph while
/// characters remain on the conceptual line, else a blank placeholder.
pub open spec fn ending_text(m: TypingModel) -> Seq<char> {
    if remaining_text(m).len() == 0 {
        seq![' ']
    } else {
        seq!['⏎']
    }
}

/// `s` split on line-break markers, keeping empty parts: one part more than
/// there are markers.
pub open spec fn split_nl(s: Seq<char>) -> Seq<Seq<char>>
    decreases s.len(),
{
    if s.len() == 0 {
        seq![Seq::<char>::empty()]
    } else if s.last() == '\n' {
        split_nl(s.drop_last()).push(Seq::<char>::empty())
    } else {
        let parts = split_nl(s.drop_last());
        parts.update(parts.len() - 1, parts.last().push(s.last()))
    }
}

/// Splitting yields at least one part.
pub proof fn lemma_split_nl_len(s: Seq<char>)
    ensures
        split_nl(s).len() >= 1,
    decreases s.len(),
{
    if s.len() > 0 {
        lemma_split_nl_len(s.drop_last());
    }
}

/// The single display row of the current line when the wrongs run holds
/// no line-break marker: typed prefix, wrongs run, cursor cell, untyped
/// remainder, trailing glyph.
pub open spec fn single_row(m: TypingModel) -> Seq<SegModel> {
    seq![
        seg(before_text(m), SegKind::Dim),
        seg(m.wrongs, SegKind::Wrong),
        seg(cursor_text(m), SegKind::Cursor),
        seg(after_text(m), SegKind::Normal),
        seg(ending_text(m), SegKind::Dim),
    ]
}

/// The first row of a multi-row wrongs run: the typed prefix, the first
/// wrongs part, and an error-styled line-break glyph.
pub open spec fn first_wrong_row(m: TypingModel) -> Seq<SegModel> {
    seq![
        seg(before_text(m), SegKind::Dim),
        seg(split_nl(m.wrongs)[0], SegKind::Wrong),
        seg(seq!['⏎'], SegKind::WrongDim),
    ]
}

/// A middle row of a multi-row wrongs run: one wrongs part and an
/// error-styled line-break glyph.
pub open spec fn mid_wrong_row(m: TypingModel, i: int) -> Seq<SegModel> {
    seq![seg(split_nl(m.wrongs)[i], SegKind::Wrong), seg(seq!['⏎'], SegKind::WrongDim)]
}

/// The final row of a multi-row wrongs run: the last wrongs part, then the
/// cursor cell — attached only here — the untyped remainder and the
/// trailing glyph.
pub open spec fn last_wrong_row(m: TypingModel) -> Seq<SegModel> {
    seq![
        seg(split_nl(m.wrongs).last(), SegKind::Wrong),
        seg(cursor_text(m), SegKind::Cursor),
        seg(after_text(m), SegKind::Normal),
        seg(ending_text(m), SegKind::Dim),
    ]
}

/// Row `i` of the current line's display rows.
pub open spec fn row_at(m: TypingModel, i: int) -> Seq<SegModel> {
    let parts = split_nl(m.wrongs);
    if parts.len() == 1 {
        single_row(m)
    } else if i == 0 {
        first_wrong_row(m)
    } else if i < parts.len() - 1 {
        mid_wrong_row(m, i)
    } else {
        last_wrong_row(m)
    }
}

/// The rows of the current line: one row per part of the wrongs run split
/// on its line-break markers — a single row when there is none.
pub open spec fn current_typing_rows(m: TypingModel) -> Seq<Seq<SegModel>> {
    Seq::new(split_nl(m.wrongs).len(), |i: int| row_at(m, i))
}

/// Up to two preceding, already-typed lines, de-emphasized.
pub open spec fn context_before_rows(m: TypingModel) -> Seq<Seq<SegModel>> {
    let k = if m.line_idx < 2 {
        m.line_idx
    } else {
        2
    };
    Seq::new(k as nat, |i: int| seq![seg(m.lines[m.line_idx - k + i], SegKind::Dim)])
}

/// The untyped lines after the current one, as many as fit in `height` rows.
pub open spec fn context_after_rows(m: TypingModel, height: int) -> Seq<Seq<SegModel>> {
    let avail = m.lines.len() - (m.line_idx + 1);
    let k = if avail < height {
        avail
    } else {
        height
    };
    Seq::new(k as nat, |i: int| seq![seg(m.lines[m.line_idx + 1 + i], SegKind::Normal)])
}

/// The full display model: context before, the current line's rows, and
/// context after.
pub open spec fn text_rows(m: TypingModel, height: int) -> Seq<Seq<SegModel>> {
    context_before_rows(m) + current_typing_rows(m) + context_after_rows(m, height)
}

/// The length and elements of [`single_row`], spelled out.
proof fn lemma_single_row_parts(m: TypingModel)
    ensures
        single_row(m).len() == 5,
        single_row(m)[0] == seg(before_text(m), SegKind::Dim),
        single_row(m)[1] == seg(m.wrongs, SegKind::Wrong),
        single_row(m)[2] == seg(cursor_text(m), SegKind::Cursor),
        single_row(m)[3] == seg(after_text(m), SegKind::Normal),
        single_row(m)[4] == seg(ending_text(m), SegKind::Dim),
{
}

/// The length and elements of [`first_wrong_row`], spelled out.
proof fn lemma_first_wrong_row_parts(m: TypingModel)
    ensures
        first_wrong_row(m).len() == 3,
        first_wrong_row(m)[0] == seg(before_text(m), SegKind::Dim),
        first_wrong_row(m)[1] == seg(split_nl(m.wrongs)[0], SegKind::Wrong),
        first_wrong_row(m)[2] == seg(seq!['⏎'], SegKind::WrongDim),
{
}

/// The length and elements of [`mid_wrong_row`], spelled out.
proof fn lemma_mid_wrong_row_parts(m: TypingModel, i: int)
    ensures
        mid_wrong_row(m, i).len() == 2,
        mid_wrong_row(m, i)[0] == seg(split_nl(m.wrongs)[i], SegKind::Wrong),
        mid_wrong_row(m, i)[1] == seg(seq!['⏎'], SegKind::WrongDim),
{
}

/// The length and elements of [`last_wrong_row`], spelled out.
proof fn lemma_last_wrong_row_parts(m: TypingModel)
    ensures
        last_wrong_row(m).len() == 4,
        last_wrong_row(m)[0] == seg(split_nl(m.wrongs).last(), SegKind::Wrong),
        last_wrong_row(m)[1] == seg(cursor_text(m), SegKind::Cursor),
        last_wrong_row(m)[2] == seg(after_text(m), SegKind::Normal),
        last_wrong_row(m)[3] == seg(ending_text(m), SegKind::Dim),
{
}

/// A sequence with exactly the elements of [`mid_wrong_row`] is that row.
proof fn lemma_is_mid_wrong_row(row_dv: Seq<SegModel>, m: TypingModel, i: int)
    requires
        row_dv.len() == 2,
        row_dv[0] == seg(split_nl(m.wrongs)[i], SegKind::Wrong),
        row_dv[1] == seg(seq!['⏎'], SegKind::WrongDim),
    ensures
        row_dv == mid_wrong_row(m, i),
{
    lemma_mid_wrong_row_parts(m, i);
    assert(row_dv =~= mid_wrong_row(m, i));
}

/// A one-character string.
fn char_string(c: char) -> (r: String)
    ensures
        r@ == seq![c],
{
    let mut s = String::new();
    s.push(c);
    proof {
        assert(s@ =~= seq![c]);
    }
    s
}

/// Split `w` on line-break markers, keeping empty parts.
fn split_wrongs(w: &str) -> (parts: Vec<String>)
    ensures
        parts.deep_view() == split_nl(w@),
        parts@.len() >= 1,
{
    let n = w.unicode_len();
    let mut parts: Vec<String> = Vec::new();
    let mut acc: String = String::new();
    let mut i: usize = 0;
    proof {
        assert(parts.deep_view().push(acc@) =~= split_nl(w@.take(0)));
    }
    while i < n
        invariant
            0 <= i <= n,
            n == w@.len(),
            parts.deep_view().push(acc@) =~= split_nl(w@.take(i as int)),
        decreases n - i,
    {
        let ghost prefix = w@.take(i as int);
        let ghost old_parts = parts.deep_view();
        let ghost old_acc = acc@;
        let c = w.get_char(i);
        proof {
            assert(w@.take(i + 1).drop_last() =~= prefix);
            assert(w@.take(i + 1).last() == c);
        }
        if c == '\n' {
            parts.push(acc);
            acc = String::new();
            proof {
                assert(parts.deep_view() =~= old_parts.push(old_acc));
                assert(parts.deep_view().push(acc@) =~= split_nl(w@.take(i + 1)));
            }
        } else {
            acc.push(c);
            proof {
                lemma_split_nl_len(prefix);
                let p = split_nl(prefix);
                assert(p == old_parts.push(old_acc));
                assert(p.last() == old_acc);
                assert(split_nl(w@.take(i + 1)) == p.update(p.len() - 1, old_acc.push(c)));
                assert(parts.deep_view().push(acc@) =~= p.update(p.len() - 1, old_acc.push(c)));
            }
        }
        i = i + 1;
    }
    proof {
        assert(w@.take(n as int) =~= w@);
    }
    parts.push(acc);
    proof {
        assert(parts.deep_view() =~= split_nl(w@));
        lemma_split_nl_len(w@);
    }
    parts
}

/// Split the current line into the four parts around the cursor: the typed
/// prefix, the cursor cell, the untyped remainder after the cursor, and the
/// trailing end-of-line glyph.
pub fn split_current_line(st: &TypingState) -> (r: (String, String, String, String))
    requires
        st.wf(),
    ensures
        r.0@ == before_text(st@),
        r.1@ == cursor_text(st@),
        r.2@ == after_text(st@),
        r.3@ == ending_text(st@),
{
    let li = st.line_idx();
    let ci = st.char_idx();
    let lines = st.get_lines();
    proof {
        assert(lines.deep_view()[li as int] == lines@[li as int]@);
    }
    let line: &str = lines[li].as_str();
    let n = line.unicode_len();
    let before = line.substring_char(0, ci).to_owned();
    proof {
        assert(before@ =~= before_text(st@));
    }
    let cursor: String;
    let after: String;
    if st.wrongs().as_str().is_empty() {
        if ci < n {
            cursor = char_string(line.get_char(ci));
            after = line.substring_char(ci + 1, n).to_owned();
            proof {
                assert(cursor@ =~= cursor_text(st@));
                assert(after@ =~= after_text(st@));
            }
        } else {
            cursor = char_string('⏎');
            after = String::new();
            proof {
                assert(remaining_text(st@).len() == 0);
                assert(after@ =~= after_text(st@));
            }
        }
    } else {
        cursor = char_string('⌫');
        after = line.substring_char(ci, n).to_owned();
        proof {
            assert(after@ =~= after_text(st@));
        }
    }
    let ending = if ci == n {
        char_string(' ')
    } else {
        char_string('⏎')
    };
    proof {
        assert(ending@ =~= ending_text(st@));
    }
    (before, cursor, after, ending)
}


/// The display rows of the current line, including every wrong character
/// typed in its middle; embedded line-break markers in the wrongs run open
/// a new row each.
pub fn current_typing_lines(st: &TypingState) -> (rows: Vec<Vec<Segment>>)
    requires
        st.wf(),
    ensures
        rows.deep_view() == current_typing_rows(st@),
{
    let (before, cursor, after, ending) = split_current_line(st);
    let parts = split_wrongs(st.wrongs().as_str());
    let ghost p = split_nl(st@.wrongs);
    let ghost expect = current_typing_rows(st@);
    let mut rows: Vec<Vec<Segment>> = Vec::new();
    if parts.len() == 1 {
        let mut row: Vec<Segment> = Vec::new();
        row.push(Segment { text: before, kind: SegKind::Dim });
        row.push(Segment { text: st.wrongs().clone(), kind: SegKind::Wrong });
        row.push(Segment { text: cursor, kind: SegKind::Cursor });
        row.push(Segment { text: after, kind: SegKind::Normal });
        row.push(Segment { text: ending, kind: SegKind::Dim });
        let ghost row_dv = row.deep_view();
        proof {
            lemma_single_row_parts(st@);
            assert(row_dv.len() == 5);
            assert(row_dv[0] == row@[0]@);
            assert(row_dv[1] == row@[1]@);
            assert(row_dv[2] == row@[2]@);
            assert(row_dv[3] == row@[3]@);
            assert(row_dv[4] == row@[4]@);
            assert(row_dv =~= single_row(st@));
            assert(expect[0] == single_row(st@));
        }
        rows.push(row);
        proof {
            assert(p.len() == parts@.len());
            assert(rows.deep_view().len() == 1);
            assert(rows.deep_view() =~~= expect);
        }
        return rows;
    }
    // The wrongs run spans several rows: the typed prefix and the first
    // wrongs part, then one row per middle part, then the final part with
    // the cursor cell.
    let mut first: Vec<Segment> = Vec::new();
    first.push(Segment { text: before, kind: SegKind::Dim });
    first.push(Segment { text: parts[0].clone(), kind: SegKind::Wrong });
    first.push(Segment { text: char_string('⏎'), kind: SegKind::WrongDim });
    let ghost first_dv = first.deep_view();
    proof {
        assert(parts.deep_view()[0] == parts@[0]@);
        lemma_first_wrong_row_parts(st@);
        assert(first_dv.len() == 3);
        assert(first_dv[0] == first@[0]@);
        assert(first_dv[1] == first@[1]@);
        assert(first_dv[2] == first@[2]@);
        assert(first_dv =~= first_wrong_row(st@));
        assert(expect[0] == first_wrong_row(st@));
    }
    rows.push(first);
    proof {
        assert(rows.deep_view().len() == 1);
        assert(expect.take(1).len() == 1);
        assert(rows.deep_view() =~~= expect.take(1));
    }
    let last_idx = parts.len() - 1;
    let mut i: usize = 1;
    while i < last_idx
        invariant
            1 <= i <= last_idx,
            last_idx == p.len() - 1,
            p == split_nl(st@.wrongs),
            p == parts.deep_view(),
            p.len() == parts@.len(),
            expect == current_typing_rows(st@),
            expect.len() == p.len(),
            p.len() >= 2,
            rows.deep_view() == expect.take(i as int),
        decreases last_idx - i,
    {
        let ghost prev_seq = rows@;
        let ghost prev_dv = rows.deep_view();
        let mut row: Vec<Segment> = Vec::new();
        row.push(Segment { text: parts[i].clone(), kind: SegKind::Wrong });
        row.push(Segment { text: char_string('⏎'), kind: SegKind::WrongDim });
        let ghost row_dv = row.deep_view();
        proof {
            assert(parts.deep_view()[i as int] == parts@[i as int]@);
            lemma_mid_wrong_row_parts(st@, i as int);
            assert(row_dv.len() == 2);
            assert(row_dv[0] == row@[0]@);
            assert(row_dv[1] == row@[1]@);
            assert(row@[0]@ == seg(p[i as int], SegKind::Wrong));
            assert(row@[1]@ == seg(seq!['⏎'], SegKind::WrongDim));
            lemma_is_mid_wrong_row(row_dv, st@, i as int);
            assert(expect[i as int] == mid_wrong_row(st@, i as int));
        }
        rows.push(row);
        proof {
            assert forall|x: int| 0 <= x < prev_seq.len() implies rows.deep_view()[x]
                == prev_dv[x] by {
                assert(rows@[x] == prev_seq[x]);
                assert(rows.deep_view()[x] == rows@[x].deep_view());
                assert(prev_dv[x] == prev_seq[x].deep_view());
            }
            assert(prev_dv.len() == i as int);
            assert(rows.deep_view().len() == i + 1);
            assert(expect.take(i + 1).len() == i + 1);
            assert(rows.deep_view().last() == row_dv);
            assert(rows.deep_view() =~~= expect.take(i + 1));
        }
        i = i + 1;
    }
    let ghost prev_seq = rows@;
    let ghost prev_dv = rows.deep_view();
    let mut last: Vec<Segment> = Vec::new();
    last.push(Segment { text: parts[last_idx].clone(), kind: SegKind::Wrong });
    last.push(Segment { text: cursor, kind: SegKind::Cursor });
    last.push(Segment { text: after, kind: SegKind::Normal });
    last.push(Segment { text: ending, kind: SegKind::Dim });
    let ghost last_dv = last.deep_view();
    proof {
        assert(parts.deep_view()[last_idx as int] == parts@[last_idx as int]@);
        assert(p[last_idx as int] == p.last());
        lemma_last_wrong_row_parts(st@);
        assert(last_dv.len() == 4);
        assert(last_dv[0] == last@[0]@);
        assert(last_dv[1] == last@[1]@);
        assert(last_dv[2] == last@[2]@);
        assert(last_dv[3] == last@[3]@);
        assert(last_dv =~= last_wrong_row(st@));
        assert(expect[last_idx as int] == last_wrong_row(st@));
    }
    rows.push(last);
    proof {
        assert forall|x: int| 0 <= x < prev_seq.len() implies rows.deep_view()[x]
            == prev_dv[x] by {
            assert(rows@[x] == prev_seq[x]);
            assert(rows.deep_view()[x] == rows@[x].deep_view());
            assert(prev_dv[x] == prev_seq[x].deep_view());
        }
        assert(prev_dv.len() == last_idx as int);
        assert(rows.deep_view().len() == last_idx + 1);
        assert(rows.deep_view().last() == last_dv);
        assert forall|x: int| 0 <= x < last_idx implies rows.deep_view()[x] == expect[x] by {
            assert(rows.deep_view()[x] == prev_dv[x]);
            assert(prev_dv[x] == expect.take(last_idx as int)[x]);
        }
        assert(rows.deep_view() =~~= expect);
    }
    rows
}

/// Up to two preceding, already-typed lines, de-emphasized for scroll
/// continuity.
pub fn lines_before_current(st: &TypingState) -> (rows: Vec<Vec<Segment>>)
    requires
        st.wf(),
    ensures
        rows.deep_view() == context_before_rows(st@),
{
    let li = st.line_idx();
    let to_include: usize = if li < 2 {
        li
    } else {
        2
    };
    let to_skip = li - to_include;
    let lines = st.get_lines();
    let ghost expect = context_before_rows(st@);
    let mut rows: Vec<Vec<Segment>> = Vec::new();
    let mut j: usize = 0;
    proof {
        assert(rows.deep_view() =~= expect.take(0));
    }
    while j < to_include
        invariant
            0 <= j <= to_include,
            to_include <= li,
            to_skip == li - to_include,
            li == st@.line_idx,
            st.wf(),
            lines.deep_view() == st@.lines,
            lines@.len() == st@.lines.len(),
            expect == context_before_rows(st@),
            expect.len() == to_include,
            rows.deep_view() == expect.take(j as int),
        decreases to_include - j,
    {
        let ghost prev_seq = rows@;
        let ghost prev_dv = rows.deep_view();
        proof {
            assert(lines.deep_view()[(to_skip + j) as int] == lines@[(to_skip + j) as int]@);
        }
        let mut row: Vec<Segment> = Vec::new();
        row.push(Segment { text: lines[to_skip + j].clone(), kind: SegKind::Dim });
        let ghost row_dv = row.deep_view();
        proof {
            assert(row_dv =~= seq![seg(st@.lines[to_skip + j], SegKind::Dim)]);
            assert(expect[j as int] == seq![seg(st@.lines[to_skip + j], SegKind::Dim)]);
        }
        rows.push(row);
        proof {
            assert forall|x: int| 0 <= x < prev_seq.len() implies rows.deep_view()[x]
                == prev_dv[x] by {
                assert(rows@[x] == prev_seq[x]);
                assert(rows.deep_view()[x] == rows@[x].deep_view());
                assert(prev_dv[x] == prev_seq[x].deep_view());
            }
            assert(prev_dv.len() == j as int);
            assert(rows.deep_view().len() == j + 1);
            assert(expect.take(j + 1).len() == j + 1);
            assert(rows.deep_view().last() == row_dv);
            assert(rows.deep_view() =~~= expect.take(j + 1));
        }
        j = j + 1;
    }
    proof {
        assert(expect.take(to_include as int) =~= expect);
    }
    rows
}

/// The untyped reference lines after the current one, in normal style, as
/// many as fit in `text_height` rows.
pub fn lines_after_current(st: &TypingState, text_height: u16) -> (rows: Vec<Vec<Segment>>)
    requires
        st.wf(),
    ensures
        rows.deep_view() == context_after_rows(st@, text_height as int),
{
    let li = st.line_idx();
    let total = st.line_count();
    let avail = total - (li + 1);
    let k: usize = if avail < text_height as usize {
        avail
    } else {
        text_height as usize
    };
    let lines = st.get_lines();
    let ghost expect = context_after_rows(st@, text_height as int);
    let mut rows: Vec<Vec<Segment>> = Vec::new();
    let mut j: usize = 0;
    proof {
        assert(rows.deep_view() =~= expect.take(0));
    }
    while j < k
        invariant
            0 <= j <= k,
            li == st@.line_idx,
            li + 1 + k <= st@.lines.len(),
            st@.lines.len() <= usize::MAX as int,
            st.wf(),
            lines.deep_view() == st@.lines,
            lines@.len() == st@.lines.len(),
            expect == context_after_rows(st@, text_height as int),
            expect.len() == k,
            rows.deep_view() == expect.take(j as int),
        decreases k - j,
    {
        let ghost prev_seq = rows@;
        let ghost prev_dv = rows.deep_view();
        proof {
            assert(lines.deep_view()[(li + 1 + j) as int] == lines@[(li + 1 + j) as int]@);
        }
        let mut row: Vec<Segment> = Vec::new();
        row.push(Segment { text: lines[li + 1 + j].clone(), kind: SegKind::Normal });
        let ghost row_dv = row.deep_view();
        proof {
            assert(row_dv =~= seq![seg(st@.lines[li + 1 + j], SegKind::Normal)]);
            assert(expect[j as int] == seq![seg(st@.lines[li + 1 + j], SegKind::Normal)]);
        }
        rows.push(row);
        proof {
            assert forall|x: int| 0 <= x < prev_seq.len() implies rows.deep_view()[x]
                == prev_dv[x] by {
                assert(rows@[x] == prev_seq[x]);
                assert(rows.deep_view()[x] == rows@[x].deep_view());
                assert(prev_dv[x] == prev_seq[x].deep_view());
            }
            assert(prev_dv.len() == j as int);
            assert(rows.deep_view().len() == j + 1);
            assert(expect.take(j + 1).len() == j + 1);
            assert(rows.deep_view().last() == row_dv);
            assert(rows.deep_view() =~~= expect.take(j + 1));
        }
        j = j + 1;
    }
    proof {
        assert(expect.take(k as int) =~= expect);
    }
    rows
}

/// The full display model of a snapshot: context before, the current line's
/// rows, and context after, top to bottom.
pub fn current_text(st: &TypingState, text_height: u16) -> (rows: Vec<Vec<Segment>>)
    requires
        st.wf(),
    ensures
        rows.deep_view() == text_rows(st@, text_height as int),
{
    let mut rows = lines_before_current(st);
    let ghost before = rows.deep_view();
    let mut mid = current_typing_lines(st);
    let ghost mid_v = mid.deep_view();
    let ghost rows_seq = rows@;
    let ghost mid_seq = mid@;
    rows.append(&mut mid);
    proof {
        assert forall|x: int| 0 <= x < rows@.len() implies rows.deep_view()[x] == (before
            + mid_v)[x] by {
            assert(rows@[x] == (rows_seq + mid_seq)[x]);
            if x < rows_seq.len() {
                assert(rows@[x] == rows_seq[x]);
                assert(before[x] == rows_seq[x].deep_view());
            } else {
                assert(rows@[x] == mid_seq[x - rows_seq.len()]);
                assert(mid_v[x - rows_seq.len()] == mid_seq[x - rows_seq.len()].deep_view());
            }
        }
        assert(rows.deep_view().len() == rows@.len());
        assert(before.len() == rows_seq.len());
        assert(mid_v.len() == mid_seq.len());
        assert(rows.deep_view() =~~= before + mid_v);
    }
    let ghost two = rows.deep_view();
    let mut aft = lines_after_current(st, text_height);
    let ghost aft_v = aft.deep_view();
    let ghost two_seq = rows@;
    let ghost aft_seq = aft@;
    rows.append(&mut aft);
    proof {
        assert forall|x: int| 0 <= x < rows@.len() implies rows.deep_view()[x] == (two
            + aft_v)[x] by {
            assert(rows@[x] == (two_seq + aft_seq)[x]);
            if x < two_seq.len() {
                assert(rows@[x] == two_seq[x]);
                assert(two[x] == two_seq[x].deep_view());
            } else {
                assert(rows@[x] == aft_seq[x - two_seq.len()]);
                assert(aft_v[x - two_seq.len()] == aft_seq[x - two_seq.len()].deep_view());
            }
        }
        assert(rows.deep_view().len() == rows@.len());
        assert(two.len() == two_seq.len());
        assert(aft_v.len() == aft_seq.len());
        assert(rows.deep_view() =~~= two + aft_v);
        assert(rows.deep_view() =~~= text_rows(st@, text_height as int));
    }
    rows
}

} // verus!
