//! The typing state machine.
//!
//! A [`TypingState`] owns the reference lines, the cursor (line index and
//! character index), the pending run of mistyped characters (the "wrongs"),
//! and a [`SpeedWindow`] of recent per-line speed samples. The three
//! transition operations — [`TypingState::type_char`],
//! [`TypingState::line_break`] and [`TypingState::backspace`] — each report
//! what category of state change they caused.
//!
//! The cursor and wrongs part of the state is modelled by [`TypingModel`],
//! and each transition is specified by a pure function on that model, so
//! that laws relating the operations can be stated and proved once, on the
//! model alone.

use crate::speed::{finish_rel, SpeedWindow};
use vstd::prelude::*;

verus! {

/// Relies on `String::push`: appends the given character to the end of the
/// string.
pub assume_specification[ String::push ](s: &mut String, ch: char)
    ensures
        final(s)@ == old(s)@.push(ch),
;

/// Relies on `String::pop`: removes the last character from the string and
/// returns it, or returns `None` when the string is empty.
pub assume_specification[ String::pop ](s: &mut String) -> (r: Option<char>)
    ensures
        old(s)@.len() == 0 ==> r is None && final(s)@ == old(s)@,
        old(s)@.len() > 0 ==> r == Some(old(s)@.last()) && final(s)@ == old(s)@.drop_last(),
;

/// The category of state change caused by the most recent transition.
#[derive(Clone, Copy, Debug, PartialEq, Eq, Structural)]
pub enum StateChange {
    /// The current line changed.
    Line,
    /// The current character position changed.
    Char,
    /// A wrong character was added or removed.
    Wrong,
    /// No state change happened.
    Nothing,
}

/// Mathematical model of the reference text, cursor and wrongs run.
#[verifier::ext_equal]
pub struct TypingModel {
    /// The reference lines, each a sequence of characters.
    pub lines: Seq<Seq<char>>,
    /// Index of the current line.
    pub line_idx: int,
    /// Index of the next character to type on the current line.
    pub char_idx: int,
    /// The pending run of mistyped characters, possibly holding embedded
    /// line-break markers, in the order they were typed.
    pub wrongs: Seq<char>,
}

impl TypingModel {
    /// The line the cursor is on.
    pub open spec fn cur_line(self) -> Seq<char> {
        self.lines[self.line_idx]
    }

    /// Well-formedness: there is at least one line, the cursor is on a valid
    /// line, and the character index never exceeds that line's length.
    pub open spec fn wf(self) -> bool {
        &&& 0 < self.lines.len()
        &&& 0 <= self.line_idx < self.lines.len()
        &&& 0 <= self.char_idx <= self.cur_line().len()
    }

    /// Terminal position: the cursor sits at the end of the last line.
    pub open spec fn at_text_end(self) -> bool {
        self.line_idx == self.lines.len() - 1 && self.char_idx == self.cur_line().len()
    }

    /// The model after typing character `c`.
    pub open spec fn type_char_model(self, c: char) -> TypingModel {
        if self.wrongs.len() == 0 && self.char_idx < self.cur_line().len() && self.cur_line()[self.char_idx]
            == c {
            TypingModel { char_idx: self.char_idx + 1, ..self }
        } else if self.wrongs.len() == 0 && self.at_text_end() {
            self
        } else {
            TypingModel { wrongs: self.wrongs.push(c), ..self }
        }
    }

    /// The signal reported for typing character `c`.
    pub open spec fn type_char_signal(self, c: char) -> StateChange {
        if self.wrongs.len() == 0 && self.char_idx < self.cur_line().len() && self.cur_line()[self.char_idx]
            == c {
            StateChange::Char
        } else if self.wrongs.len() == 0 && self.at_text_end() {
            StateChange::Nothing
        } else {
            StateChange::Wrong
        }
    }

    /// The model after a line break. A completed last line is terminal:
    /// advancing past it would leave the cursor on no line at all.
    pub open spec fn line_break_model(self) -> TypingModel {
        if self.wrongs.len() == 0 && self.char_idx == self.cur_line().len() {
            if self.line_idx >= self.lines.len() - 1 {
                self
            } else {
                TypingModel { line_idx: self.line_idx + 1, char_idx: 0, ..self }
            }
        } else {
            TypingModel { wrongs: self.wrongs.push('\n'), ..self }
        }
    }

    /// The signal reported for a line break.
    pub open spec fn line_break_signal(self) -> StateChange {
        if self.wrongs.len() == 0 && self.char_idx == self.cur_line().len() {
            if self.line_idx >= self.lines.len() - 1 {
                StateChange::Nothing
            } else {
                StateChange::Line
            }
        } else {
            StateChange::Wrong
        }
    }

    /// The model after a backspace.
    pub open spec fn backspace_model(self) -> TypingModel {
        if self.wrongs.len() > 0 {
            TypingModel { wrongs: self.wrongs.drop_last(), ..self }
        } else if self.char_idx > 0 {
            TypingModel { char_idx: self.char_idx - 1, ..self }
        } else if self.line_idx > 0 {
            TypingModel {
                line_idx: self.line_idx - 1,
                char_idx: self.lines[self.line_idx - 1].len() as int,
                ..self
            }
        } else {
            self
        }
    }

    /// The signal reported for a backspace.
    pub open spec fn backspace_signal(self) -> StateChange {
        if self.wrongs.len() > 0 {
            StateChange::Wrong
        } else if self.char_idx > 0 {
            StateChange::Char
        } else if self.line_idx > 0 {
            StateChange::Line
        } else {
            StateChange::Nothing
        }
    }
}

/// Capacity of the speed window: the number of most recent per-line speed
/// samples the moving average is taken over.
pub const SPEED_WINDOW_CAP: usize = 5;

/// The state of the typing process.
pub struct TypingState {
    /// The lines of text to be typed.
    lines: Vec<String>,
    /// The index of the current line.
    line_idx: usize,
    /// The index of the current character.
    char_idx: usize,
    /// The last wrongly typed characters, oldest first.
    wrongs: String,
    /// Window of per-line speed samples, with the current line's timing.
    durations: SpeedWindow,
}

impl View for TypingState {
    type V = TypingModel;

    closed spec fn view(&self) -> TypingModel {
        TypingModel {
            lines: self.lines.deep_view(),
            line_idx: self.line_idx as int,
            char_idx: self.char_idx as int,
            wrongs: self.wrongs@,
        }
    }
}

impl TypingState {
    /// The recorded speed samples, oldest first.
    pub closed spec fn speed_samples(&self) -> Seq<u32> {
        self.durations.samples()
    }

    /// Whether a line speed measurement is in progress.
    pub closed spec fn is_timing(&self) -> bool {
        self.durations.is_timing()
    }

    /// Capacity of the speed window.
    pub closed spec fn speed_cap(&self) -> nat {
        self.durations.cap()
    }

    /// Well-formedness of the cursor model.
    pub open spec fn wf(&self) -> bool {
        self@.wf()
    }

    pub fn new(lines: Vec<String>, line_idx: usize) -> (st: TypingState)
        requires
            (line_idx as int) < lines@.len(),
        ensures
            st@ == (TypingModel {
                lines: lines.deep_view(),
                line_idx: line_idx as int,
                char_idx: 0,
                wrongs: Seq::<char>::empty(),
            }),
            st.wf(),
            st.speed_samples() == Seq::<u32>::empty(),
            !st.is_timing(),
            st.speed_cap() == SPEED_WINDOW_CAP,
    {
        let st = TypingState {
            lines,
            line_idx,
            char_idx: 0,
            wrongs: String::new(),
            durations: SpeedWindow::new(SPEED_WINDOW_CAP),
        };
        proof {
            assert(st@.wrongs =~= Seq::<char>::empty());
        }
        st
    }

    /// Moving average of the recorded speed samples, in milli-characters
    /// per second; no value before the first line has been completed.
    pub fn moving_avg_cps(&self) -> (r: Option<u32>)
        ensures
            self.speed_samples().len() == 0 ==> r is None,
            self.speed_samples().len() > 0 ==> r is Some && r->0
                == crate::speed::avg_of(self.speed_samples()),
    {
        self.durations.average()
    }

    pub fn get_lines(&self) -> (r: &Vec<String>)
        ensures
            r.deep_view() == self@.lines,
    {
        &self.lines
    }

    pub fn line_count(&self) -> (r: usize)
        ensures
            r == self@.lines.len(),
    {
        self.lines.len()
    }

    pub fn line_idx(&self) -> (r: usize)
        ensures
            r == self@.line_idx,
    {
        self.line_idx
    }

    pub fn char_idx(&self) -> (r: usize)
        ensures
            r == self@.char_idx,
    {
        self.char_idx
    }

    pub fn wrongs(&self) -> (r: &String)
        ensures
            r@ == self@.wrongs,
    {
        &self.wrongs
    }

    /// The characters of the line the cursor is on.
    pub fn current_line_chars(&self) -> (r: Vec<char>)
        requires
            self.wf(),
        ensures
            r@ == self@.cur_line(),
    {
        let line: &str = self.lines[self.line_idx].as_str();
        let n = line.unicode_len();
        let mut r: Vec<char> = Vec::new();
        let mut i: usize = 0;
        while i < n
            invariant
                n == line@.len(),
                0 <= i <= n,
                r@ =~= line@.take(i as int),
            decreases n - i,
        {
            r.push(line.get_char(i));
            proof {
                assert(r@ =~= line@.take(i + 1));
            }
            i = i + 1;
        }
        proof {
            assert(line@.take(n as int) =~= line@);
        }
        r
    }

    /// Attempt to consume one input character. With no wrongs pending and
    /// `new_char` matching the expected character, the cursor advances;
    /// at the end of the last line the text is finished and nothing changes
    /// except that timing is finalized; otherwise the character joins the
    /// wrongs run.
    pub fn type_char(&mut self, new_char: char) -> (r: StateChange)
        requires
            old(self).wf(),
        ensures
            final(self)@ == old(self)@.type_char_model(new_char),
            r == old(self)@.type_char_signal(new_char),
            final(self).wf(),
            final(self).speed_cap() == old(self).speed_cap(),
            r == StateChange::Char || r == StateChange::Wrong ==> final(self).speed_samples()
                == old(self).speed_samples() && final(self).is_timing() == old(self).is_timing(),
            r == StateChange::Nothing ==> !final(self).is_timing() && finish_rel(
                old(self).speed_samples(),
                old(self).is_timing(),
                old(self).speed_cap(),
                final(self).speed_samples(),
            ),
    {
        if self.wrongs.as_str().is_empty() {
            let line: &str = self.lines[self.line_idx].as_str();
            let n = line.unicode_len();
            if self.char_idx < n {
                if line.get_char(self.char_idx) == new_char {
                    // Correct character.
                    self.char_idx = self.char_idx + 1;
                    return StateChange::Char;
                }
            } else if self.line_idx == self.lines.len() - 1 {
                // End of the text: no character is left to compare.
                self.durations.finish_timing(self.char_idx);
                return StateChange::Nothing;
            }
        }
        // Wrong character.
        self.wrongs.push(new_char);
        StateChange::Wrong
    }

    /// Attempt to commit the current line. With no wrongs pending and the
    /// line fully typed the cursor moves to the start of the next line and
    /// a speed sample is finalized — except on the last line, which is
    /// terminal, so the break only finalizes timing. An incomplete line or
    /// pending wrongs add a line-break marker to the wrongs run.
    pub fn line_break(&mut self) -> (r: StateChange)
        requires
            old(self).wf(),
        ensures
            final(self)@ == old(self)@.line_break_model(),
            r == old(self)@.line_break_signal(),
            final(self).wf(),
            final(self).speed_cap() == old(self).speed_cap(),
            r == StateChange::Wrong ==> final(self).speed_samples() == old(self).speed_samples()
                && final(self).is_timing() == old(self).is_timing(),
            r == StateChange::Nothing ==> !final(self).is_timing(),
            r == StateChange::Line ==> final(self).is_timing(),
            r == StateChange::Nothing || r == StateChange::Line ==> finish_rel(
                old(self).speed_samples(),
                old(self).is_timing(),
                old(self).speed_cap(),
                final(self).speed_samples(),
            ),
    {
        let n = self.lines[self.line_idx].as_str().unicode_len();
        if self.wrongs.as_str().is_empty() && self.char_idx == n {
            if self.line_idx >= self.lines.len() - 1 {
                // A completed last line is terminal: the break is ignored.
                self.durations.finish_timing(self.char_idx);
                return StateChange::Nothing;
            }
            // Correct line break.
            self.durations.finish_timing(self.char_idx);
            self.durations.start_timing();
            self.char_idx = 0;
            self.line_idx = self.line_idx + 1;
            return StateChange::Line;
        }
        // Wrong line break.
        self.wrongs.push('\n');
        StateChange::Wrong
    }

    /// Undo one step: erase the last wrong character if any are pending,
    /// else move the cursor back a character, else back to the end of the
    /// previous line (discarding the in-progress speed measurement), else
    /// nothing is left to undo.
    pub fn backspace(&mut self) -> (r: StateChange)
        requires
            old(self).wf(),
        ensures
            final(self)@ == old(self)@.backspace_model(),
            r == old(self)@.backspace_signal(),
            final(self).wf(),
            final(self).speed_cap() == old(self).speed_cap(),
            final(self).speed_samples() == old(self).speed_samples(),
            r == StateChange::Char || r == StateChange::Wrong ==> final(self).is_timing() == old(
                self,
            ).is_timing(),
            r == StateChange::Line || r == StateChange::Nothing ==> !final(self).is_timing(),
    {
        if !self.wrongs.as_str().is_empty() {
            // Erase the most recent typo.
            self.wrongs.pop();
            return StateChange::Wrong;
        }
        if self.char_idx > 0 {
            // Go back a character.
            self.char_idx = self.char_idx - 1;
            return StateChange::Char;
        }
        if self.line_idx > 0 {
            // Go back a line, placing the cursor at its end; the undone
            // line must not count towards the speed history.
            self.durations.cancel_timing();
            self.line_idx = self.line_idx - 1;
            self.char_idx = self.lines[self.line_idx].as_str().unicode_len();
            return StateChange::Line;
        }
        // Nothing to erase.
        self.durations.cancel_timing();
        StateChange::Nothing
    }
}

} // verus!
