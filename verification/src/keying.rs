//! What holds of the keys of an edited text: where they lead, what they select,
//! and which of them do the same.

use vstd::prelude::*;

use crate::atoms::{holding, AtomView};
use crate::buffer::{BufferOutcome, BufferView};
use crate::input::Key;
use crate::layout::{line_end, line_end_facts, line_start, line_start_facts, line_views, Measured};
use crate::numbers::decimal;

verus! {

/// Whether no reference holds the byte at a position.
pub open spec fn unheld(atoms: Seq<AtomView>, at: int) -> bool {
    forall|i: int|
        #![trigger atoms[i]]
        0 <= i < atoms.len() ==> at < atoms[i].start || at >= atoms[i].end
}

/// Nothing is found where no reference holds a byte.
proof fn nothing_holds(atoms: Seq<AtomView>, from: int, at: int)
    requires
        0 <= from,
        unheld(atoms, at),
    ensures
        holding(atoms, from, at) is None,
    decreases atoms.len() - from,
{
    if from < atoms.len() {
        assert(at < atoms[from].start || at >= atoms[from].end);
        nothing_holds(atoms, from + 1, at);
    }
}

/// `Home` and `ctrl-a` lead to the start of the cursor's line, `End` and
/// `ctrl-e` to its end: behind the line feed before it, and before the one
/// behind it. The text stays as it is.
pub proof fn lines_have_two_ends(
    buffer: BufferView,
    width: u16,
    page_rows: usize,
    measured: Measured,
) -> (ends: (int, int))
    requires
        0 <= buffer.cursor <= buffer.bytes.len(),
        buffer.jump is None,
        buffer.selection() is None,
    ensures
        0 <= ends.0 <= buffer.cursor <= ends.1 <= buffer.bytes.len(),
        forall|i: int| ends.0 <= i < ends.1 ==> #[trigger] buffer.bytes[i] != 10,
        ends.0 == 0 || buffer.bytes[ends.0 - 1] == 10,
        ends.1 == buffer.bytes.len() || buffer.bytes[ends.1] == 10,
        unheld(buffer.atoms, ends.0) ==> {
            &&& buffer.handled(Key::Home, width, page_rows, measured).0.cursor == ends.0
            &&& buffer.handled(Key::Ctrl('a'), width, page_rows, measured).0.cursor == ends.0
        },
        unheld(buffer.atoms, ends.1) ==> {
            &&& buffer.handled(Key::End, width, page_rows, measured).0.cursor == ends.1
            &&& buffer.handled(Key::Ctrl('e'), width, page_rows, measured).0.cursor == ends.1
        },
        buffer.handled(Key::Home, width, page_rows, measured).0.bytes == buffer.bytes,
        buffer.handled(Key::End, width, page_rows, measured).0.bytes == buffer.bytes,
{
    let start = line_start(buffer.bytes, buffer.cursor);
    let end = line_end(buffer.bytes, buffer.cursor);
    line_start_facts(buffer.bytes, buffer.cursor);
    line_end_facts(buffer.bytes, buffer.cursor);
    if unheld(buffer.atoms, start) {
        nothing_holds(buffer.atoms, 0, start);
    }
    if unheld(buffer.atoms, end) {
        nothing_holds(buffer.atoms, 0, end);
    }
    (start, end)
}

/// A key that moves on drops the selection at its end, one that moves back at
/// its start; neither changes the text.
pub proof fn motions_drop_the_selection_at_its_edge(
    buffer: BufferView,
    width: u16,
    page_rows: usize,
    measured: Measured,
    anchor: int,
)
    requires
        buffer.jump is None,
        buffer.atoms.len() == 0,
        buffer.anchor == Some(anchor),
        anchor != buffer.cursor,
    ensures
        ({
            let low = if anchor < buffer.cursor {
                anchor
            } else {
                buffer.cursor
            };
            let high = if anchor < buffer.cursor {
                buffer.cursor
            } else {
                anchor
            };
            let after = |key: Key| buffer.handled(key, width, page_rows, measured).0;
            &&& after(Key::Left).cursor == low
            &&& after(Key::WordLeft).cursor == low
            &&& after(Key::Home).cursor == low
            &&& after(Key::Up).cursor == low
            &&& after(Key::PageUp).cursor == low
            &&& after(Key::Right).cursor == high
            &&& after(Key::WordRight).cursor == high
            &&& after(Key::End).cursor == high
            &&& after(Key::Down).cursor == high
            &&& after(Key::PageDown).cursor == high
            &&& after(Key::Left).anchor is None && after(Key::Right).anchor is None
            &&& after(Key::Left).bytes == buffer.bytes && after(Key::Right).bytes == buffer.bytes
        }),
{
}

/// A key that selects goes where its plain key goes from the same place, and
/// keeps the selection's other end: where it was, or else where the cursor was.
pub proof fn selecting_keys_go_where_plain_ones_go(
    buffer: BufferView,
    width: u16,
    page_rows: usize,
    measured: Measured,
    plain: Key,
    selecting: Key,
)
    requires
        buffer.jump is None,
        ({
            ||| plain == Key::Left && selecting == Key::SelectLeft
            ||| plain == Key::Right && selecting == Key::SelectRight
            ||| plain == Key::WordLeft && selecting == Key::SelectWordLeft
            ||| plain == Key::WordRight && selecting == Key::SelectWordRight
            ||| plain == Key::Home && selecting == Key::SelectHome
            ||| plain == Key::End && selecting == Key::SelectEnd
            ||| plain == Key::Up && selecting == Key::SelectUp
            ||| plain == Key::Down && selecting == Key::SelectDown
        }),
    ensures
        ({
            let alone = BufferView { anchor: None, ..buffer };
            let moved = alone.handled(plain, width, page_rows, measured).0;
            let selected = buffer.handled(selecting, width, page_rows, measured).0;
            &&& selected.cursor == moved.cursor
            &&& selected.bytes == buffer.bytes && moved.bytes == buffer.bytes
            &&& moved.anchor is None
            &&& buffer.anchor is Some ==> selected.anchor == buffer.anchor
            &&& buffer.anchor is None ==> selected.anchor == Some(buffer.cursor)
        }),
{
}

/// Arrows go up and down by one visual row, and a page key by one row less than
/// the page has.
pub proof fn row_keys_go_by_rows(
    buffer: BufferView,
    width: u16,
    page_rows: usize,
    measured: Measured,
)
    requires
        buffer.jump is None,
        buffer.selection() is None,
        width > 0,
    ensures
        ({
            let ready = BufferView {
                layout_width: width,
                copied: None,
                manual_scroll: false,
                anchor: None,
                ..buffer
            };
            let lines = line_views(measured.lines@);
            let before = measured.before@;
            let after = |key: Key| buffer.handled(key, width, page_rows, measured);
            &&& after(Key::Up) == ready.moved_visual(false, 1, before, lines)
            &&& after(Key::Down) == ready.moved_visual(true, 1, before, lines)
            &&& page_rows >= 2 ==> after(Key::PageUp) == ready.moved_visual(
                false,
                page_rows - 1,
                before,
                lines,
            )
            &&& page_rows >= 2 ==> after(Key::PageDown) == ready.moved_visual(
                true,
                page_rows - 1,
                before,
                lines,
            )
        }),
{
}

/// Several keys do the same.
pub proof fn keys_share_their_meaning(
    buffer: BufferView,
    width: u16,
    page_rows: usize,
    measured: Measured,
)
    requires
        buffer.jump is None,
    ensures
        ({
            let after = |key: Key| buffer.handled(key, width, page_rows, measured);
            &&& after(Key::Ctrl('b')) == after(Key::Left)
            &&& after(Key::Ctrl('f')) == after(Key::Right)
            &&& after(Key::Ctrl('a')) == after(Key::Home)
            &&& after(Key::Ctrl('e')) == after(Key::End)
            &&& after(Key::Ctrl('d')) == after(Key::Delete)
            &&& after(Key::Ctrl('-')) == after(Key::Ctrl('_'))
            &&& after(Key::Enter) == after(Key::ShiftEnter)
            &&& after(Key::Enter) == after(Key::Char('\n'))
            &&& after(Key::Space) == after(Key::Char(' '))
            &&& page_rows <= 2 ==> after(Key::PageUp) == after(Key::Up) && after(Key::PageDown)
                == after(Key::Down)
        }),
{
}

/// Selecting everything selects the text from its first to its last byte, and
/// Escape drops any selection; neither changes the text.
pub proof fn everything_is_selected_and_dropped(
    buffer: BufferView,
    width: u16,
    page_rows: usize,
    measured: Measured,
)
    requires
        buffer.jump is None,
        buffer.atoms.len() == 0,
    ensures
        ({
            let all = buffer.handled(Key::SelectAll, width, page_rows, measured).0;
            let none = buffer.handled(Key::Esc, width, page_rows, measured);
            &&& all.bytes == buffer.bytes
            &&& buffer.bytes.len() > 0 ==> all.selection() == Some((0int, buffer.bytes.len() as int))
            &&& none.0.bytes == buffer.bytes
            &&& none.0.cursor == buffer.cursor
            &&& none.0.selection() is None
            &&& (none.1 is Changed) == (buffer.selection() is Some)
        }),
{
}

/// Waiting for a character to jump to ends with the next key, whatever it is.
pub proof fn jumps_wait_for_one_key(
    buffer: BufferView,
    width: u16,
    page_rows: usize,
    measured: Measured,
    key: Key,
)
    requires
        buffer.jump is Some,
    ensures
        buffer.handled(key, width, page_rows, measured).0.jump is None,
        buffer.handled(key, width, page_rows, measured).0.bytes == buffer.bytes,
        !(key is Char || key is Space) ==> buffer.handled(
            key,
            width,
            page_rows,
            measured,
        ).0.cursor == buffer.cursor && buffer.handled(key, width, page_rows, measured).1
            == BufferOutcome::Ignored,
{
}

/// The number that decimal digits stand for.
pub open spec fn digits_value(digits: Seq<char>) -> int
    decreases digits.len(),
{
    if digits.len() == 0 {
        0
    } else {
        10 * digits_value(digits.drop_last()) + (digits.last() as int - '0' as int)
    }
}

/// A number reads back from its digits, and starts with a zero only where it is
/// zero.
pub proof fn numbers_read_back(value: nat)
    ensures
        digits_value(decimal(value)) == value,
        decimal(value).len() > 0,
        value > 0 ==> decimal(value)[0] != '0',
    decreases value,
{
    if value >= 10 {
        numbers_read_back(value / 10);
        assert(decimal(value).drop_last() =~= decimal(value / 10));
        assert(decimal(value)[0] == decimal(value / 10)[0]);
    } else {
        assert(decimal(value).drop_last() =~= Seq::empty());
        assert(digits_value(decimal(value).drop_last()) == 0);
    }
}

} // verus!
