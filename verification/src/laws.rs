//! Laws of the typing state machine, proved on [`TypingModel`].
//!
//! The transition operations of [`crate::typing::TypingState`] are specified
//! by pure functions on the model, so the laws below hold of every state the
//! executable operations can produce.

use crate::typing::{StateChange, TypingModel};
use vstd::prelude::*;

verus! {

/// Pending wrongs block all forward progress: in any state whose wrongs run
/// is non-empty, typing a character and breaking the line both only append
/// to the wrongs run, leave the cursor untouched, and signal `Wrong`.
pub proof fn lemma_wrongs_block_progress(m: TypingModel, c: char)
    requires
        m.wrongs.len() > 0,
    ensures
        m.type_char_model(c) == (TypingModel { wrongs: m.wrongs.push(c), ..m }),
        m.type_char_signal(c) == StateChange::Wrong,
        m.line_break_model() == (TypingModel { wrongs: m.wrongs.push('\n'), ..m }),
        m.line_break_signal() == StateChange::Wrong,
{
}

/// Every transition preserves well-formedness of the model.
pub proof fn lemma_transitions_preserve_wf(m: TypingModel, c: char)
    requires
        m.wf(),
    ensures
        m.type_char_model(c).wf(),
        m.line_break_model().wf(),
        m.backspace_model().wf(),
{
}

/// A backspace undoes a forward step: whenever typing a character actually
/// changed the state (it signalled `Char` or `Wrong`), a backspace restores
/// the previous cursor and wrongs run exactly.
pub proof fn lemma_backspace_undoes_type_char(m: TypingModel, c: char)
    requires
        m.wf(),
        m.type_char_signal(c) != StateChange::Nothing,
    ensures
        m.type_char_model(c).backspace_model() == m,
{
    assert(m.wrongs.push(c).drop_last() =~= m.wrongs);
    assert(m.type_char_model(c).backspace_model() =~= m);
}

/// A backspace undoes a line break, whether it added a wrong line-break
/// marker or committed the line: the cursor and wrongs run return to their
/// previous values. (Only the speed history is not restored when a line
/// boundary was crossed: the sample finalized for the committed line
/// remains recorded.)
pub proof fn lemma_backspace_undoes_line_break(m: TypingModel)
    requires
        m.wf(),
        m.line_break_signal() != StateChange::Nothing,
    ensures
        m.line_break_model().backspace_model() == m,
{
    assert(m.wrongs.push('\n').drop_last() =~= m.wrongs);
    assert(m.line_break_model().backspace_model() =~= m);
}

/// The model after `n` consecutive backspaces.
pub open spec fn backspace_n(m: TypingModel, n: nat) -> TypingModel
    decreases n,
{
    if n == 0 {
        m
    } else {
        backspace_n(m.backspace_model(), (n - 1) as nat)
    }
}

/// Repeated backspacing drains the wrongs run and then the typed prefix of
/// the current line: from any state, `wrongs.len() + char_idx` backspaces
/// reach the state `(line_idx, 0, "")`. A state reached from the initial
/// state `(resume_index, 0, "")` without committing a line still has
/// `line_idx == resume_index`, so backspacing returns to that initial state.
pub proof fn lemma_backspace_returns_to_line_start(m: TypingModel)
    requires
        m.wf(),
    ensures
        backspace_n(m, (m.wrongs.len() + m.char_idx) as nat) == (TypingModel {
            lines: m.lines,
            line_idx: m.line_idx,
            char_idx: 0,
            wrongs: Seq::<char>::empty(),
        }),
    decreases m.wrongs.len() + m.char_idx,
{
    if m.wrongs.len() == 0 && m.char_idx == 0 {
        assert(m =~= (TypingModel {
            lines: m.lines,
            line_idx: m.line_idx,
            char_idx: 0,
            wrongs: Seq::<char>::empty(),
        }));
    } else {
        let m1 = m.backspace_model();
        assert(m1.wf());
        assert(m1.wrongs.len() + m1.char_idx == m.wrongs.len() + m.char_idx - 1);
        lemma_backspace_returns_to_line_start(m1);
    }
}

/// One input event, as the transition operations interpret it.
pub enum TypingOp {
    TypeChar(char),
    LineBreak,
    Backspace,
}

/// The model after one input event.
pub open spec fn apply_op(m: TypingModel, op: TypingOp) -> TypingModel {
    match op {
        TypingOp::TypeChar(c) => m.type_char_model(c),
        TypingOp::LineBreak => m.line_break_model(),
        TypingOp::Backspace => m.backspace_model(),
    }
}

/// The signal one input event reports.
pub open spec fn op_signal(m: TypingModel, op: TypingOp) -> StateChange {
    match op {
        TypingOp::TypeChar(c) => m.type_char_signal(c),
        TypingOp::LineBreak => m.line_break_signal(),
        TypingOp::Backspace => m.backspace_signal(),
    }
}

/// The model after the input events of `ops`, in order.
pub open spec fn apply_ops(m: TypingModel, ops: Seq<TypingOp>) -> TypingModel
    decreases ops.len(),
{
    if ops.len() == 0 {
        m
    } else {
        apply_ops(apply_op(m, ops[0]), ops.drop_first())
    }
}

/// Whether no event along `ops` signals `Line`: the path never crosses a
/// line boundary, forward or backward.
pub open spec fn no_line_signal(m: TypingModel, ops: Seq<TypingOp>) -> bool
    decreases ops.len(),
{
    if ops.len() == 0 {
        true
    } else {
        op_signal(m, ops[0]) != StateChange::Line && no_line_signal(
            apply_op(m, ops[0]),
            ops.drop_first(),
        )
    }
}

/// A path that never signals `Line` never moves the cursor's line and
/// never touches the reference lines.
pub proof fn lemma_no_line_signal_keeps_line(m: TypingModel, ops: Seq<TypingOp>)
    requires
        m.wf(),
        no_line_signal(m, ops),
    ensures
        apply_ops(m, ops).wf(),
        apply_ops(m, ops).line_idx == m.line_idx,
        apply_ops(m, ops).lines == m.lines,
    decreases ops.len(),
{
    if ops.len() > 0 {
        let m1 = apply_op(m, ops[0]);
        assert(m1.wf());
        assert(m1.line_idx == m.line_idx);
        assert(m1.lines == m.lines);
        lemma_no_line_signal_keeps_line(m1, ops.drop_first());
    }
}

/// Backspace is a left inverse of the forward operations along any path
/// that did not cross a finalized line boundary: from any state reached
/// from the initial state `(resume_index, 0, "")` without a `Line` signal,
/// repeatedly backspacing returns exactly to that initial state.
pub proof fn lemma_backspace_returns_to_initial(m0: TypingModel, ops: Seq<TypingOp>)
    requires
        m0.wf(),
        m0.char_idx == 0,
        m0.wrongs.len() == 0,
        no_line_signal(m0, ops),
    ensures
        backspace_n(
            apply_ops(m0, ops),
            (apply_ops(m0, ops).wrongs.len() + apply_ops(m0, ops).char_idx) as nat,
        ) == m0,
{
    let m = apply_ops(m0, ops);
    lemma_no_line_signal_keeps_line(m0, ops);
    lemma_backspace_returns_to_line_start(m);
    assert(m0 =~= (TypingModel {
        lines: m.lines,
        line_idx: m.line_idx,
        char_idx: 0,
        wrongs: Seq::<char>::empty(),
    }));
}

/// The model after typing the characters of `cs` in order.
pub open spec fn type_chars_model(m: TypingModel, cs: Seq<char>) -> TypingModel
    decreases cs.len(),
{
    if cs.len() == 0 {
        m
    } else {
        type_chars_model(m.type_char_model(cs[0]), cs.drop_first())
    }
}

/// Whether typing the characters of `cs` in order signals `Char` each step.
pub open spec fn type_chars_all_signal_char(m: TypingModel, cs: Seq<char>) -> bool
    decreases cs.len(),
{
    if cs.len() == 0 {
        true
    } else {
        m.type_char_signal(cs[0]) == StateChange::Char && type_chars_all_signal_char(
            m.type_char_model(cs[0]),
            cs.drop_first(),
        )
    }
}

/// Typing the rest of the current line exactly, with no wrongs pending,
/// advances the character index to the line's length, one `Char` signal per
/// character, leaving the wrongs run empty and the line unchanged.
pub proof fn lemma_type_line_in_order(m: TypingModel)
    requires
        m.wf(),
        m.wrongs.len() == 0,
    ensures
        type_chars_all_signal_char(m, m.cur_line().skip(m.char_idx)),
        type_chars_model(m, m.cur_line().skip(m.char_idx)) == (TypingModel {
            char_idx: m.cur_line().len() as int,
            ..m
        }),
    decreases m.cur_line().len() - m.char_idx,
{
    let cs = m.cur_line().skip(m.char_idx);
    if m.char_idx == m.cur_line().len() {
        assert(cs.len() == 0);
        assert(m =~= (TypingModel { char_idx: m.cur_line().len() as int, ..m }));
    } else {
        assert(cs[0] == m.cur_line()[m.char_idx]);
        let m1 = m.type_char_model(cs[0]);
        assert(m1 == (TypingModel { char_idx: m.char_idx + 1, ..m }));
        lemma_type_line_in_order(m1);
        assert(m1.cur_line().skip(m1.char_idx) =~= cs.drop_first());
    }
}

/// After a line is fully and correctly typed, a line break on any line but
/// the last commits it: the signal is `Line`, the cursor moves to the start
/// of the next line, and the wrongs run stays empty. (On the last line the
/// text is finished instead and the break signals `Nothing`.)
pub proof fn lemma_line_break_commits_completed_line(m: TypingModel)
    requires
        m.wf(),
        m.wrongs.len() == 0,
        m.char_idx == m.cur_line().len(),
        m.line_idx + 1 < m.lines.len(),
    ensures
        m.line_break_signal() == StateChange::Line,
        m.line_break_model() == (TypingModel { line_idx: m.line_idx + 1, char_idx: 0, ..m }),
{
}

/// At the end of the last line with no wrongs pending, typing any character
/// signals `Nothing` and leaves the whole model — cursor included —
/// unchanged: the text is finished.
pub proof fn lemma_type_char_at_text_end(m: TypingModel, c: char)
    requires
        m.wf(),
        m.at_text_end(),
        m.wrongs.len() == 0,
    ensures
        m.type_char_model(c) == m,
        m.type_char_signal(c) == StateChange::Nothing,
{
}

} // verus!
