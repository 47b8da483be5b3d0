//! Keys applied to an edited text.

use vstd::prelude::*;
use vstd::string::*;

use crate::buffer::{Action, BufferOutcome, BufferView, EditBuffer, Jump};
use crate::chars::{is_whitespace, whitespace};
use crate::codes::{ascii_byte_boundaries, innermost_open_tag, nearest_open_tag};
use crate::input::Key;
use crate::layout::{
    find_line_end, find_line_start, line_end, line_end_is_boundary, line_start,
    line_start_is_boundary, line_views, Glyph, Measured,
};
use crate::motion::{at_least_one, positive_width};
use crate::strings::{ends_are_boundaries, slice_text, utf8, utf8_of_concat};
use crate::text::push_char;

verus! {

/// A cursor motion.
#[derive(Clone, Copy, Debug, PartialEq, Eq, Structural)]
pub enum Motion {
    /// One grapheme or atom to the left.
    Left,
    /// One grapheme or atom to the right.
    Right,
    /// One word to the left.
    WordLeft,
    /// One word to the right.
    WordRight,
    /// To the start of the line.
    LineStart,
    /// To the end of the line.
    LineEnd,
    /// Visual rows up.
    RowsUp(usize),
    /// Visual rows down.
    RowsDown(usize),
}

impl Motion {
    /// Whether the motion goes towards the end of the text.
    pub open spec fn goes_on(self) -> bool {
        self is Right || self is WordRight || self is LineEnd || self is RowsDown
    }

    /// Whether the motion goes towards the end of the text.
    pub fn is_forward(self) -> (yes: bool)
        ensures
            yes == self.goes_on(),
    {
        match self {
            Motion::Right | Motion::WordRight | Motion::LineEnd | Motion::RowsDown(_) => true,
            _ => false,
        }
    }
}

/// Rows that a page key moves by.
pub open spec fn page_step(page_rows: usize) -> usize {
    if page_rows <= 2 {
        1
    } else {
        (page_rows - 1) as usize
    }
}

/// The motion that a key stands for.
pub open spec fn key_motion(key: Key, page_rows: usize) -> Option<Motion> {
    match key {
        Key::Left => Some(Motion::Left),
        Key::Right => Some(Motion::Right),
        Key::WordLeft => Some(Motion::WordLeft),
        Key::WordRight => Some(Motion::WordRight),
        Key::Home => Some(Motion::LineStart),
        Key::End => Some(Motion::LineEnd),
        Key::Up => Some(Motion::RowsUp(1)),
        Key::Down => Some(Motion::RowsDown(1)),
        Key::PageUp => Some(Motion::RowsUp(page_step(page_rows))),
        Key::PageDown => Some(Motion::RowsDown(page_step(page_rows))),
        Key::Ctrl(c) => if c == 'b' {
            Some(Motion::Left)
        } else if c == 'f' {
            Some(Motion::Right)
        } else if c == 'a' {
            Some(Motion::LineStart)
        } else if c == 'e' {
            Some(Motion::LineEnd)
        } else {
            None
        },
        _ => None,
    }
}

/// The motion by which a key extends the selection.
pub open spec fn key_extension(key: Key) -> Option<Motion> {
    match key {
        Key::SelectLeft => Some(Motion::Left),
        Key::SelectRight => Some(Motion::Right),
        Key::SelectWordLeft => Some(Motion::WordLeft),
        Key::SelectWordRight => Some(Motion::WordRight),
        Key::SelectHome => Some(Motion::LineStart),
        Key::SelectEnd => Some(Motion::LineEnd),
        Key::SelectUp => Some(Motion::RowsUp(1)),
        Key::SelectDown => Some(Motion::RowsDown(1)),
        _ => None,
    }
}

/// The motion that a key stands for.
pub fn motion_of(key: Key, page_rows: usize) -> (motion: Option<Motion>)
    ensures
        motion == key_motion(key, page_rows),
{
    let page: usize = if page_rows <= 2 {
        1
    } else {
        page_rows - 1
    };
    match key {
        Key::Left => Some(Motion::Left),
        Key::Right => Some(Motion::Right),
        Key::WordLeft => Some(Motion::WordLeft),
        Key::WordRight => Some(Motion::WordRight),
        Key::Home => Some(Motion::LineStart),
        Key::End => Some(Motion::LineEnd),
        Key::Up => Some(Motion::RowsUp(1)),
        Key::Down => Some(Motion::RowsDown(1)),
        Key::PageUp => Some(Motion::RowsUp(page)),
        Key::PageDown => Some(Motion::RowsDown(page)),
        Key::Ctrl(c) => {
            if c == 'b' {
                Some(Motion::Left)
            } else if c == 'f' {
                Some(Motion::Right)
            } else if c == 'a' {
                Some(Motion::LineStart)
            } else if c == 'e' {
                Some(Motion::LineEnd)
            } else {
                None
            }
        },
        _ => None,
    }
}

/// The motion by which a key extends the selection.
pub fn extension_of(key: Key) -> (motion: Option<Motion>)
    ensures
        motion == key_extension(key),
{
    match key {
        Key::SelectLeft => Some(Motion::Left),
        Key::SelectRight => Some(Motion::Right),
        Key::SelectWordLeft => Some(Motion::WordLeft),
        Key::SelectWordRight => Some(Motion::WordRight),
        Key::SelectHome => Some(Motion::LineStart),
        Key::SelectEnd => Some(Motion::LineEnd),
        Key::SelectUp => Some(Motion::RowsUp(1)),
        Key::SelectDown => Some(Motion::RowsDown(1)),
        _ => None,
    }
}

impl BufferView {
    /// The buffer after a motion.
    pub open spec fn moved_by(self, motion: Motion, measured: Measured) -> (Self, BufferOutcome) {
        let lines = line_views(measured.lines@);
        match motion {
            Motion::Left => self.moved_left(measured.before@),
            Motion::Right => self.moved_right(measured.before@, measured.after@, lines),
            Motion::WordLeft => self.moved_to(self.word_left(measured.before@)),
            Motion::WordRight => self.moved_to(self.word_right(measured.after@)),
            Motion::LineStart => self.moved_to(line_start(self.bytes, self.cursor)),
            Motion::LineEnd => self.moved_to(line_end(self.bytes, self.cursor)),
            Motion::RowsUp(rows) => self.moved_visual(false, rows as int, measured.before@, lines),
            Motion::RowsDown(rows) => self.moved_visual(
                true,
                rows as int,
                measured.before@,
                lines,
            ),
        }
    }

    /// The buffer after a motion key: a selection collapses to its edge, else
    /// the cursor moves.
    pub open spec fn collapsed_or_moved(self, motion: Motion, measured: Measured) -> (
        Self,
        BufferOutcome,
    ) {
        match self.selection() {
            Some((start, end)) => (
                BufferView {
                    cursor: if motion.goes_on() {
                        end
                    } else {
                        start
                    },
                    anchor: None,
                    desired: None,
                    ..self.broken()
                },
                BufferOutcome::Changed,
            ),
            None => (BufferView { anchor: None, ..self }).moved_by(motion, measured),
        }
    }

    /// The buffer with its selection anchored.
    pub open spec fn anchored(self) -> Self {
        BufferView {
            anchor: Some(
                match self.anchor {
                    Some(anchor) => anchor,
                    None => self.cursor,
                },
            ),
            ..self
        }
    }

    /// What typing `c` at the cursor puts in: the character, or with it the
    /// rest of the closing tag that `</` starts.
    pub open spec fn typed_bytes(self, c: char) -> Seq<u8> {
        let completes = c == '/' && self.xml && self.cursor > 0 && self.bytes[self.cursor - 1]
            == 60;
        match innermost_open_tag(self.bytes.subrange(0, self.cursor - 1)) {
            Some((start, end)) => if completes {
                utf8(seq!['/']) + self.bytes.subrange(start as int, end as int) + utf8(seq!['>'])
            } else {
                utf8(seq![c])
            },
            None => utf8(seq![c]),
        }
    }

    /// The buffer after `c` is typed. A run of characters that are no
    /// whitespace is one unit of undo.
    pub open spec fn char_typed(self, c: char) -> (Self, BufferOutcome) {
        let word = !whitespace(c);
        let kept = if self.selection() is Some || !word || self.last_action != Action::TypeWord {
            self.saved()
        } else {
            self
        };
        let cut = match self.selection() {
            Some((start, end)) => BufferView {
                cursor: start,
                anchor: None,
                last_action: Action::Other,
                ..kept.spliced(start, end, Seq::empty())
            },
            None => kept,
        };
        (
            BufferView {
                anchor: None,
                desired: None,
                last_action: if word {
                    Action::TypeWord
                } else {
                    Action::Other
                },
                last_yank: None,
                ..cut.typed(cut.typed_bytes(c))
            },
            BufferOutcome::Changed,
        )
    }

    /// The buffer that waits for the character to jump to.
    pub open spec fn awaiting_jump(self, jump: Jump) -> (Self, BufferOutcome) {
        (
            BufferView { anchor: None, jump: Some(jump), ..self.broken() },
            BufferOutcome::Changed,
        )
    }

    /// The buffer after Escape.
    pub open spec fn escaped(self) -> (Self, BufferOutcome) {
        (
            BufferView { anchor: None, ..self.broken() },
            if self.selection() is Some {
                BufferOutcome::Changed
            } else {
                BufferOutcome::Ignored
            },
        )
    }

    /// The buffer after a key that is no motion.
    pub open spec fn commanded(self, key: Key, measured: Measured) -> (Self, BufferOutcome) {
        let ignored = (self.broken(), BufferOutcome::Ignored);
        match key {
            Key::Ctrl(c) => if c == ']' {
                self.awaiting_jump(Jump::Forward)
            } else if c == '-' || c == '_' {
                self.undone()
            } else if c == 'y' {
                self.yanked()
            } else if c == 'k' {
                self.line_end_killed()
            } else if c == 'u' {
                self.line_start_killed()
            } else if c == 'w' {
                self.word_left_killed(measured.before@)
            } else if c == 'd' {
                self.deleted(measured.after@)
            } else {
                ignored
            },
            Key::CtrlAlt(c) => if c == ']' {
                self.awaiting_jump(Jump::Backward)
            } else {
                ignored
            },
            Key::Alt(c) => if c == 'y' {
                self.yank_popped()
            } else {
                ignored
            },
            Key::WordDelete => self.word_right_killed(measured.after@),
            Key::Backspace => self.backspaced(measured.before@),
            Key::Delete => self.deleted(measured.after@),
            Key::SelectAll => (
                BufferView {
                    anchor: Some(0),
                    cursor: self.bytes.len() as int,
                    desired: None,
                    ..self.broken()
                },
                BufferOutcome::Changed,
            ),
            Key::Copy => self.selection_copied(),
            Key::Cut => self.selection_cut(),
            Key::Esc => self.escaped(),
            Key::Enter => self.char_typed('\n'),
            Key::ShiftEnter => self.char_typed('\n'),
            Key::Space => self.char_typed(' '),
            Key::Char(c) => self.char_typed(c),
            _ => ignored,
        }
    }

    /// The buffer after a key.
    pub open spec fn handled(self, key: Key, width: u16, page_rows: usize, measured: Measured) -> (
        Self,
        BufferOutcome,
    ) {
        let fresh = BufferView {
            layout_width: at_least_one(width),
            copied: None,
            manual_scroll: false,
            jump: None,
            ..self
        };
        match self.jump {
            Some(jump) => match key {
                Key::Char(c) => fresh.jumped(c, jump),
                Key::Space => fresh.jumped(' ', jump),
                _ => (fresh, BufferOutcome::Ignored),
            },
            None => match key_motion(key, page_rows) {
                Some(motion) => fresh.collapsed_or_moved(motion, measured),
                None => match key_extension(key) {
                    Some(motion) => fresh.anchored().moved_by(motion, measured),
                    None => fresh.commanded(key, measured),
                },
            },
        }
    }
}

/// A motion ends typing, kill and yank sequences.
pub proof fn motions_end_sequences(buffer: BufferView, motion: Motion, measured: Measured)
    ensures
        buffer.broken().moved_by(motion, measured) == buffer.moved_by(motion, measured),
{
    let broken = buffer.broken();
    let lines = line_views(measured.lines@);
    assert(broken.broken() =~= broken);
    assert forall|at: int| #[trigger] broken.moved_to(at) == buffer.moved_to(at) by {
        assert(broken.snapped(at, at >= broken.cursor) == buffer.snapped(at, at >= buffer.cursor));
    }
    match motion {
        Motion::Left => {
            assert(broken.step_left(measured.before@) == buffer.step_left(measured.before@));
        },
        Motion::Right => {
            assert(broken.step_right(measured.after@) == buffer.step_right(measured.after@));
        },
        Motion::WordLeft => {
            assert(broken.word_left(measured.before@) == buffer.word_left(measured.before@));
        },
        Motion::WordRight => {
            assert(broken.word_right(measured.after@) == buffer.word_right(measured.after@));
        },
        Motion::LineStart => {},
        Motion::LineEnd => {},
        Motion::RowsUp(rows) => {
            rows_end_sequences(buffer, false, rows as int, measured.before@, lines);
        },
        Motion::RowsDown(rows) => {
            rows_end_sequences(buffer, true, rows as int, measured.before@, lines);
        },
    }
}

/// A vertical motion ends typing, kill and yank sequences.
proof fn rows_end_sequences(
    buffer: BufferView,
    forward: bool,
    rows: int,
    before: Seq<Glyph>,
    lines: Seq<Seq<Glyph>>,
)
    ensures
        buffer.broken().moved_visual(forward, rows, before, lines) == buffer.moved_visual(
            forward,
            rows,
            before,
            lines,
        ),
{
    let broken = buffer.broken();
    assert(broken.broken() =~= broken);
    assert forall|at: int| #[trigger] broken.snapped(at, forward) == buffer.snapped(at, forward) by {}
    assert forall|segment: crate::layout::Segment| #[trigger]
        broken.column_on(segment, before) == buffer.column_on(segment, before) by {}
}

impl EditBuffer {
    /// Applies a motion.
    pub fn move_by(&mut self, motion: Motion, measured: &Measured) -> (outcome: BufferOutcome)
        requires
            old(self).wf(),
            measured.measures(old(self)@.bytes, old(self)@.cursor),
        ensures
            final(self).wf(),
            (final(self)@, outcome) == old(self)@.moved_by(motion, *measured),
    {
        match motion {
            Motion::Left => self.move_left(&measured.before),
            Motion::Right => self.move_right(measured),
            Motion::WordLeft => {
                let at: usize = self.word_left(&measured.before);
                self.move_to(at)
            },
            Motion::WordRight => {
                let at: usize = self.word_right(&measured.after);
                self.move_to(at)
            },
            Motion::LineStart => {
                let at: usize = find_line_start(self.text.as_str(), self.cursor);
                proof {
                    line_start_is_boundary(self.text@, self.cursor as int);
                }
                self.move_to(at)
            },
            Motion::LineEnd => {
                let at: usize = find_line_end(self.text.as_str(), self.cursor);
                proof {
                    line_end_is_boundary(self.text@, self.cursor as int);
                }
                self.move_to(at)
            },
            Motion::RowsUp(rows) => self.move_visual(false, rows, measured),
            Motion::RowsDown(rows) => self.move_visual(true, rows, measured),
        }
    }

    /// Collapses the selection to its edge, else applies a motion.
    pub fn collapse_or(&mut self, motion: Motion, measured: &Measured) -> (outcome: BufferOutcome)
        requires
            old(self).wf(),
            measured.measures(old(self)@.bytes, old(self)@.cursor),
        ensures
            final(self).wf(),
            (final(self)@, outcome) == old(self)@.collapsed_or_moved(motion, *measured),
    {
        let ghost before = self@;
        match self.selection() {
            Some((start, end)) => {
                self.cursor = if motion.is_forward() {
                    end
                } else {
                    start
                };
                self.anchor = None;
                self.desired = None;
                self.last_action = Action::Other;
                self.last_yank = None;
                assert(self@ =~= before.collapsed_or_moved(motion, *measured).0);
                BufferOutcome::Changed
            },
            None => {
                self.anchor = None;
                assert(self@ =~= (BufferView { anchor: None, ..before }));
                self.move_by(motion, measured)
            },
        }
    }

    /// Extends the selection by a motion.
    pub fn extend(&mut self, motion: Motion, measured: &Measured) -> (outcome: BufferOutcome)
        requires
            old(self).wf(),
            measured.measures(old(self)@.bytes, old(self)@.cursor),
        ensures
            final(self).wf(),
            (final(self)@, outcome) == old(self)@.anchored().moved_by(motion, *measured),
    {
        let ghost before = self@;
        self.break_sequence();
        let anchor: usize = match self.anchor {
            Some(anchor) => anchor,
            None => self.cursor,
        };
        self.anchor = Some(anchor);
        let ghost ready = self@;
        proof {
            assert(ready =~= before.anchored().broken());
            motions_end_sequences(before.anchored(), motion, *measured);
        }
        self.move_by(motion, measured)
    }

    /// Types one character.
    pub fn insert_char(&mut self, c: char) -> (outcome: BufferOutcome)
        requires
            old(self).wf(),
        ensures
            final(self).wf(),
            (final(self)@, outcome) == old(self)@.char_typed(c),
    {
        let ghost before = self@;
        let word: bool = !is_whitespace(c);
        let selection: Option<(usize, usize)> = self.selection();
        if selection.is_some() || !word || self.last_action != Action::TypeWord {
            self.snapshot();
        }
        let ghost kept = self@;
        proof {
            reveal_strlit("");
            assert(utf8(""@) =~= Seq::<u8>::empty());
        }
        if let Some((start, end)) = selection {
            self.splice(start, end, "");
            self.cursor = start;
            self.last_action = Action::Other;
        }
        let ghost cut = match before.selection() {
            Some((start, end)) => BufferView {
                cursor: start,
                anchor: None,
                last_action: Action::Other,
                ..kept.spliced(start, end, Seq::empty())
            },
            None => kept,
        };
        self.anchor = None;
        self.last_yank = None;
        assert(self@ =~= (BufferView { anchor: None, last_yank: None, ..cut }));
        let insert: String = self.insertion(c);
        assert(utf8(insert@) == cut.typed_bytes(c));
        self.type_text(insert.as_str());
        self.desired = None;
        self.last_action = if word {
            Action::TypeWord
        } else {
            Action::Other
        };
        assert(self@ =~= before.char_typed(c).0);
        BufferOutcome::Changed
    }

    /// What typing `c` at the cursor puts in.
    fn insertion(&self, c: char) -> (insert: String)
        requires
            self.wf(),
        ensures
            utf8(insert@) == self@.typed_bytes(c),
    {
        let at: usize = self.cursor;
        if c == '/' && self.xml && at > 0 && self.text.as_str().as_bytes()[at - 1] == 60 {
            proof {
                ascii_byte_boundaries(self.text@, at - 1);
                ends_are_boundaries(self.text@);
            }
            let ahead: &str = slice_text(self.text.as_str(), 0, at - 1);
            match nearest_open_tag(ahead) {
                Some(name) => {
                    let mut expansion: String = "/".to_owned();
                    expansion.append(name);
                    expansion.append(">");
                    proof {
                        reveal_strlit("/");
                        reveal_strlit(">");
                        assert("/"@ =~= seq!['/']);
                        assert(">"@ =~= seq!['>']);
                        utf8_of_concat("/"@, name@);
                        utf8_of_concat("/"@ + name@, ">"@);
                        let range = innermost_open_tag(utf8(ahead@))->0;
                        assert(utf8(ahead@).subrange(range.0 as int, range.1 as int)
                            =~= self@.bytes.subrange(range.0 as int, range.1 as int));
                    }
                    return expansion;
                },
                None => {},
            }
        }
        let mut insert: String = "".to_owned();
        proof {
            reveal_strlit("");
            assert(""@.push(c) =~= seq![c]);
        }
        push_char(&mut insert, c);
        insert
    }

    /// Waits for the character to jump to.
    fn await_jump(&mut self, jump: Jump) -> (outcome: BufferOutcome)
        requires
            old(self).wf(),
        ensures
            final(self).wf(),
            (final(self)@, outcome) == old(self)@.awaiting_jump(jump),
    {
        self.break_sequence();
        self.anchor = None;
        self.jump = Some(jump);
        BufferOutcome::Changed
    }

    /// Applies a key that is no motion.
    fn command(&mut self, key: Key, measured: &Measured) -> (outcome: BufferOutcome)
        requires
            old(self).wf(),
            measured.measures(old(self)@.bytes, old(self)@.cursor),
        ensures
            final(self).wf(),
            (final(self)@, outcome) == old(self)@.commanded(key, *measured),
    {
        match key {
            Key::Ctrl(c) => {
                if c == ']' {
                    self.await_jump(Jump::Forward)
                } else if c == '-' || c == '_' {
                    self.undo()
                } else if c == 'y' {
                    self.yank()
                } else if c == 'k' {
                    self.kill_line_end()
                } else if c == 'u' {
                    self.kill_line_start()
                } else if c == 'w' {
                    self.kill_word_backward(&measured.before)
                } else if c == 'd' {
                    self.delete(&measured.after)
                } else {
                    self.break_sequence();
                    BufferOutcome::Ignored
                }
            },
            Key::CtrlAlt(c) => {
                if c == ']' {
                    self.await_jump(Jump::Backward)
                } else {
                    self.break_sequence();
                    BufferOutcome::Ignored
                }
            },
            Key::Alt(c) => {
                if c == 'y' {
                    self.yank_pop()
                } else {
                    self.break_sequence();
                    BufferOutcome::Ignored
                }
            },
            Key::WordDelete => self.kill_word_forward(&measured.after),
            Key::Backspace => self.backspace(&measured.before),
            Key::Delete => self.delete(&measured.after),
            Key::SelectAll => {
                self.select_all();
                BufferOutcome::Changed
            },
            Key::Copy => self.copy_selection(),
            Key::Cut => self.cut_selection(),
            Key::Esc => {
                let ghost before = self@;
                let changed: bool = self.selection().is_some();
                self.break_sequence();
                self.anchor = None;
                assert(self@ =~= before.escaped().0);
                if changed {
                    BufferOutcome::Changed
                } else {
                    BufferOutcome::Ignored
                }
            },
            Key::Enter | Key::ShiftEnter => self.insert_char('\n'),
            Key::Space => self.insert_char(' '),
            Key::Char(c) => self.insert_char(c),
            _ => {
                self.break_sequence();
                BufferOutcome::Ignored
            },
        }
    }

    /// Applies a decoded editor key at the given layout width; `measured`
    /// holds the clusters of the text around the cursor.
    pub fn handle(&mut self, key: Key, width: u16, page_rows: usize, measured: &Measured) -> (outcome:
        BufferOutcome)
        requires
            old(self).wf(),
            measured.measures(old(self)@.bytes, old(self)@.cursor),
        ensures
            final(self).wf(),
            (final(self)@, outcome) == old(self)@.handled(key, width, page_rows, *measured),
    {
        let ghost before = self@;
        self.layout_width = positive_width(width);
        // The copy stash lives exactly one key: hosts drain it right after
        // the `Copy`/`Cut` that filled it, and any other key voids it so a
        // later drain can never emit stale clipboard contents.
        self.copied = None;
        self.manual_scroll = false;
        let jump: Option<Jump> = self.jump;
        self.jump = None;
        let ghost fresh = BufferView {
            layout_width: at_least_one(width),
            copied: None,
            manual_scroll: false,
            jump: None,
            ..before
        };
        assert(self@ =~= fresh);
        if let Some(jump) = jump {
            return match key {
                Key::Char(c) => self.jump_to(c, jump),
                Key::Space => self.jump_to(' ', jump),
                _ => BufferOutcome::Ignored,
            };
        }
        match motion_of(key, page_rows) {
            Some(motion) => self.collapse_or(motion, measured),
            None => match extension_of(key) {
                Some(motion) => self.extend(motion, measured),
                None => self.command(key, measured),
            },
        }
    }
}

} // verus!
