//! Selecting words of an edited text with the pointer.

use vstd::prelude::*;

use crate::atoms::{widen, widened_facts};
use crate::buffer::{Action, BufferView, EditBuffer};
use crate::layout::{cut_part, line_views, lines_measured, part, tiles, tiles_order, Glyph};
use crate::motion::{at_least_one, positive_width};
use crate::strings::{boundary, byte_len, utf8};
use crate::words::{
    class_of, left_target, right_target, steps_of, word_class, word_left, word_right, WordClass,
};

verus! {

/// Position behind the run of whitespace glyphs that starts at position `at`.
pub open spec fn blank_run_end(bytes: Seq<u8>, glyphs: Seq<Glyph>, at: int) -> int
    decreases glyphs.len() - at,
{
    if at >= glyphs.len() || at < 0 {
        at
    } else if class_of(part(bytes, glyphs[at].start as int, glyphs[at].end as int))
        == WordClass::Whitespace {
        blank_run_end(bytes, glyphs, at + 1)
    } else {
        at
    }
}

/// Start of the run of whitespace glyphs that ends before position `at`.
pub open spec fn blank_run_start(bytes: Seq<u8>, glyphs: Seq<Glyph>, at: int) -> int
    decreases at,
{
    if at <= 0 {
        0
    } else if class_of(part(bytes, glyphs[at - 1].start as int, glyphs[at - 1].end as int))
        == WordClass::Whitespace {
        blank_run_start(bytes, glyphs, at - 1)
    } else {
        at
    }
}

/// The coarse word around a position: a run of whitespace, or from the start
/// of the word that ends behind the grapheme there to the end of the word that
/// starts with it. `before` and `after` measure the text on both sides.
pub open spec fn word_around(bytes: Seq<u8>, before: Seq<Glyph>, after: Seq<Glyph>) -> Option<
    (int, int),
> {
    if after.len() > 0 {
        let seed = after[0];
        if class_of(part(bytes, seed.start as int, seed.end as int)) == WordClass::Whitespace {
            let first = blank_run_start(bytes, before, before.len() as int);
            Some(
                (
                    if first < before.len() {
                        before[first].start as int
                    } else {
                        seed.start as int
                    },
                    after[blank_run_end(bytes, after, 0) - 1].end as int,
                ),
            )
        } else {
            Some(
                (
                    left_target(steps_of(bytes, before.push(seed))),
                    right_target(steps_of(bytes, after), bytes.len() as int),
                ),
            )
        }
    } else if before.len() > 0 {
        let seed = before.last();
        if class_of(part(bytes, seed.start as int, seed.end as int)) == WordClass::Whitespace {
            Some(
                (
                    before[blank_run_start(bytes, before, before.len() as int)].start as int,
                    seed.end as int,
                ),
            )
        } else {
            Some(
                (
                    left_target(steps_of(bytes, before)),
                    right_target(steps_of(bytes, seq![seed]), bytes.len() as int),
                ),
            )
        }
    } else {
        None
    }
}

impl BufferView {
    /// The buffer with the coarse word around a position selected; `before`
    /// and `after` measure the text on both sides of it.
    pub open spec fn word_selected(self, at: int, before: Seq<Glyph>, after: Seq<Glyph>) -> Self {
        match word_around(self.bytes, before, after) {
            None => BufferView { cursor: at, anchor: None, ..self },
            Some((from, to)) => {
                let (start, end) = self.widened(from, to);
                BufferView {
                    anchor: Some(start),
                    cursor: end,
                    desired: None,
                    manual_scroll: false,
                    ..self.broken()
                }
            },
        }
    }
}

/// Whether the text of a glyph is whitespace.
fn is_blank_glyph(text: &str, glyph: Glyph) -> (yes: bool)
    requires
        glyph.start <= glyph.end,
        boundary(utf8(text@), glyph.start as int),
        boundary(utf8(text@), glyph.end as int),
    ensures
        yes == (class_of(part(utf8(text@), glyph.start as int, glyph.end as int))
            == WordClass::Whitespace),
{
    matches!(word_class(cut_part(text, glyph.start, glyph.end)), WordClass::Whitespace)
}

/// Position behind the run of whitespace glyphs at the front.
fn count_blanks_ahead(text: &str, glyphs: &Vec<Glyph>, from: usize, to: usize) -> (count: usize)
    requires
        tiles(glyphs@, utf8(text@), from as int, to as int),
    ensures
        count == blank_run_end(utf8(text@), glyphs@, 0),
        count <= glyphs.len(),
{
    let mut at: usize = 0;
    while at < glyphs.len() && is_blank_glyph(text, glyphs[at])
        invariant
            at <= glyphs.len(),
            tiles(glyphs@, utf8(text@), from as int, to as int),
            blank_run_end(utf8(text@), glyphs@, 0) == blank_run_end(
                utf8(text@),
                glyphs@,
                at as int,
            ),
        decreases glyphs.len() - at,
    {
        at += 1;
    }
    at
}

/// Start of the run of whitespace glyphs at the back.
fn find_blank_start(text: &str, glyphs: &Vec<Glyph>, to: usize) -> (first: usize)
    requires
        tiles(glyphs@, utf8(text@), 0, to as int),
    ensures
        first == blank_run_start(utf8(text@), glyphs@, glyphs.len() as int),
        first <= glyphs.len(),
{
    let mut at: usize = glyphs.len();
    while at > 0 && is_blank_glyph(text, glyphs[at - 1])
        invariant
            at <= glyphs.len(),
            tiles(glyphs@, utf8(text@), 0, to as int),
            blank_run_start(utf8(text@), glyphs@, glyphs.len() as int) == blank_run_start(
                utf8(text@),
                glyphs@,
                at as int,
            ),
        decreases at,
    {
        at -= 1;
    }
    at
}

/// The coarse word around byte `at`; `before` and `after` measure the text on
/// both sides of it.
pub fn find_word_around(text: &str, at: usize, before: &Vec<Glyph>, after: &Vec<Glyph>) -> (range:
    Option<(usize, usize)>)
    requires
        tiles(before@, utf8(text@), 0, at as int),
        tiles(after@, utf8(text@), at as int, utf8(text@).len() as int),
    ensures
        crate::buffer::range_view(range) == word_around(utf8(text@), before@, after@),
        range matches Some((start, end)) ==> start <= end && boundary(utf8(text@), start as int)
            && boundary(utf8(text@), end as int),
{
    let ghost bytes = utf8(text@);
    let length: usize = byte_len(text);
    if after.len() > 0 {
        let seed: Glyph = after[0];
        if is_blank_glyph(text, seed) {
            let first: usize = find_blank_start(text, before, at);
            let behind: usize = count_blanks_ahead(text, after, at, length);
            proof {
                reveal_with_fuel(blank_run_end, 2);
                blanks_go_on(bytes, after@, 1);
                tiles_order(after@, bytes, at as int, length as int, 0, behind - 1);
                if first < before.len() {
                    tiles_order(before@, bytes, 0, at as int, first as int, first as int);
                }
            }
            let start: usize = if first < before.len() {
                before[first].start
            } else {
                seed.start
            };
            Some((start, after[behind - 1].end))
        } else {
            let mut through: Vec<Glyph> = Vec::new();
            let mut i: usize = 0;
            while i < before.len()
                invariant
                    i <= before.len(),
                    through@ == before@.take(i as int),
                decreases before.len() - i,
            {
                through.push(before[i]);
                i += 1;
                assert(through@ =~= before@.take(i as int));
            }
            assert(before@.take(i as int) =~= before@);
            through.push(seed);
            assert(tiles(through@, bytes, 0, seed.end as int));
            let start: usize = word_left(text, seed.end, &through);
            let end: usize = word_right(text, at, after);
            Some((start, end))
        }
    } else if before.len() > 0 {
        let seed: Glyph = before[before.len() - 1];
        proof {
            tiles_order(before@, bytes, 0, at as int, before.len() - 1, before.len() - 1);
        }
        if is_blank_glyph(text, seed) {
            let first: usize = find_blank_start(text, before, at);
            proof {
                reveal_with_fuel(blank_run_start, 2);
                blanks_go_back(bytes, before@, before.len() - 1);
                tiles_order(before@, bytes, 0, at as int, first as int, before.len() - 1);
            }
            Some((before[first].start, seed.end))
        } else {
            let mut tail: Vec<Glyph> = Vec::new();
            tail.push(seed);
            assert(tail@ =~= seq![seed]);
            assert(tiles(tail@, bytes, seed.start as int, length as int));
            let start: usize = word_left(text, at, before);
            let end: usize = word_right(text, seed.start, &tail);
            Some((start, end))
        }
    } else {
        None
    }
}

/// A run of whitespace goes on from where it is.
proof fn blanks_go_on(bytes: Seq<u8>, glyphs: Seq<Glyph>, at: int)
    requires
        0 <= at <= glyphs.len(),
    ensures
        at <= blank_run_end(bytes, glyphs, at) <= glyphs.len(),
    decreases glyphs.len() - at,
{
    if at < glyphs.len() {
        blanks_go_on(bytes, glyphs, at + 1);
    }
}

/// A run of whitespace starts at or before where it is.
proof fn blanks_go_back(bytes: Seq<u8>, glyphs: Seq<Glyph>, at: int)
    requires
        0 <= at <= glyphs.len(),
    ensures
        0 <= blank_run_start(bytes, glyphs, at) <= at,
    decreases at,
{
    if at > 0 {
        blanks_go_back(bytes, glyphs, at - 1);
    }
}

impl EditBuffer {
    /// Selects the coarse word around a position on a visible visual row;
    /// `before` and `after` measure the text on both sides of that position.
    pub fn select_word_visual_row(
        &mut self,
        row: usize,
        column: u16,
        width_limit: u16,
        lines: &Vec<Vec<Glyph>>,
        before: &Vec<Glyph>,
        after: &Vec<Glyph>,
    )
        requires
            old(self).wf(),
            lines_measured(line_views(lines@), old(self)@.bytes, 0, 0),
            tiles(
                before@,
                old(self)@.bytes,
                0,
                old(self)@.visual_position(row as int, column, width_limit, line_views(lines@)),
            ),
            tiles(
                after@,
                old(self)@.bytes,
                old(self)@.visual_position(row as int, column, width_limit, line_views(lines@)),
                old(self)@.bytes.len() as int,
            ),
        ensures
            final(self).wf(),
            final(self)@ == (BufferView {
                layout_width: at_least_one(width_limit),
                ..old(self)@
            }).word_selected(
                old(self)@.visual_position(row as int, column, width_limit, line_views(lines@)),
                before@,
                after@,
            ),
    {
        let ghost earlier = BufferView { layout_width: at_least_one(width_limit), ..self@ };
        self.layout_width = positive_width(width_limit);
        assert(self@ =~= earlier);
        let at: usize = self.visual_position(row, column, width_limit, lines);
        match find_word_around(self.text.as_str(), at, before, after) {
            None => {
                self.cursor = at;
                self.anchor = None;
                assert(self@ =~= earlier.word_selected(at as int, before@, after@));
            },
            Some((from, to)) => {
                proof {
                    widened_facts(earlier.bytes, earlier.atoms, 0, from as int, to as int);
                }
                let (start, end): (usize, usize) = widen(&self.atoms, from, to);
                self.anchor = Some(start);
                self.cursor = end;
                self.desired = None;
                self.manual_scroll = false;
                self.last_action = Action::Other;
                self.last_yank = None;
                assert(self@ =~= earlier.word_selected(at as int, before@, after@));
            },
        }
    }
}

} // verus!
