//! What holds of selects as a whole: the order of their matches, the cursor
//! while filtering, and choices while options come and go; and of words
//! selected with the pointer.

use vstd::prelude::*;

use crate::charset::Charset;
use crate::events::{EventView, FlowView};
use crate::geometry::sat_add;
use crate::input::Key;
use crate::layout::{part, tiles, Glyph};
use crate::select::{
    active_from, numbered_from, ranked, recommended_from, row_of, OptionView,
    SelectView,
};
use crate::select_layout::filtering_ranks_the_matches;
use crate::selecting::{blank_run_end, blank_run_start, word_around};
use crate::text::content;
use crate::words::{
    class_of, goes_on, graphemes_have_one_class, one_class, one_word, steps_of,
    word_left_passes_one_word, word_right_passes_one_word,
};

verus! {

/// Matches are shown best first: by score in steps of a thousand, lower ones
/// first; where these are equal recommended options come before others, and
/// then all stand as declared. Every match is shown, and nothing else.
pub proof fn matches_come_best_first(options: Seq<OptionView>, scores: Seq<Option<i32>>)
    requires
        options.len() < 65536,
        scores.len() == options.len(),
    ensures
        ({
            let order = ranked(options, scores, options.len() as int);
            &&& forall|index: u16| #[trigger]
                order.contains(index) <==> index < options.len() && scores[index as int] is Some
            &&& forall|i: int, j: int|
                0 <= i < j < order.len() ==> {
                    let a = #[trigger] order[i] as int;
                    let b = #[trigger] order[j] as int;
                    let first = (scores[a]->0 + 500) / 1000;
                    let second = (scores[b]->0 + 500) / 1000;
                    &&& first <= second
                    &&& first == second && options[b].recommended ==> options[a].recommended
                    &&& first == second && options[a].recommended == options[b].recommended ==> a < b
                }
        }),
{
    filtering_ranks_the_matches(options, scores, options.len() as int);
    let order = ranked(options, scores, options.len() as int);
    assert forall|i: int, j: int| 0 <= i < j < order.len() implies {
        let a = #[trigger] order[i] as int;
        let b = #[trigger] order[j] as int;
        let first = (scores[a]->0 + 500) / 1000;
        let second = (scores[b]->0 + 500) / 1000;
        &&& first <= second
        &&& first == second && options[b].recommended ==> options[a].recommended
        &&& first == second && options[a].recommended == options[b].recommended ==> a < b
    } by {
        assert(order.contains(order[i]));
        assert(order.contains(order[j]));
    }
}

/// While a query changes, the cursor stays on its option only where all rows up
/// to it stay; else it goes to the first row. Without a query all options show
/// as declared.
pub proof fn cursors_stay_while_rows_stay(select: SelectView, scores: Option<Seq<Option<i32>>>)
    requires
        select.wf(),
    ensures
        ({
            let after = select.filtered(scores);
            let kept = select.cursor < select.visible.len() && select.cursor < after.visible.len()
                && forall|i: int|
                0 <= i <= select.cursor ==> (#[trigger] after.visible[i]) == select.visible[i];
            &&& kept ==> after.cursor == select.cursor
            &&& !kept ==> after.cursor == 0
            &&& scores is None ==> after.visible.len() == select.options.len() && forall|i: int|
                0 <= i < after.visible.len() ==> (#[trigger] after.visible[i]) == i
            &&& after.chosen == select.chosen
        }),
{
    let after = select.filtered(scores);
    let next = select.refiltered(scores);
    if select.cursor < select.visible.len() && select.cursor < next.visible.len() {
        let old_rows = select.visible.take(select.cursor + 1);
        let new_rows = next.visible.take(select.cursor + 1);
        if new_rows == old_rows {
            assert forall|i: int| 0 <= i <= select.cursor implies (#[trigger] after.visible[i])
                == select.visible[i] by {
                assert(new_rows[i] == old_rows[i]);
            }
        } else if forall|i: int|
            0 <= i <= select.cursor ==> (#[trigger] after.visible[i]) == select.visible[i] {
            assert(after.visible == next.visible);
            assert forall|i: int| 0 <= i < new_rows.len() implies #[trigger] new_rows[i]
                == old_rows[i] by {
                assert(after.visible[i] == select.visible[i]);
            }
            assert(new_rows =~= old_rows);
        }
    }
}

/// A new option leaves the others' choices alone: each that was chosen still is,
/// wherever it now stands, and no other; only a new option that starts selected
/// replaces the choice of a single select.
pub proof fn new_options_keep_choices(
    select: SelectView,
    at: int,
    option: OptionView,
    scores: Option<Seq<Option<i32>>>,
    index: usize,
)
    requires
        select.wf(),
        0 <= at <= select.options.len(),
        select.options.len() < 65535,
        index < select.options.len(),
    ensures
        ({
            let after = select.with_option(at, option, scores);
            let now = if index < at {
                index
            } else {
                (index + 1) as usize
            };
            &&& after.options[now as int] == select.options[index as int]
            &&& after.options[at] == option
            &&& select.multi || !option.selected ==> (after.chosen.contains(now)
                <==> select.chosen.contains(index))
            &&& !select.multi && option.selected ==> !after.chosen.contains(now)
            &&& option.selected ==> after.chosen.contains(at as usize)
        }),
{
}

/// An option that goes leaves the others' choices alone.
pub proof fn gone_options_keep_choices(
    select: SelectView,
    at: int,
    scores: Option<Seq<Option<i32>>>,
    index: usize,
)
    requires
        select.wf(),
        0 <= at < select.options.len(),
        index < select.options.len(),
        index != at,
    ensures
        ({
            let after = select.without_option(at, scores);
            let now = if index < at {
                index
            } else {
                (index - 1) as usize
            };
            &&& after.options[now as int] == select.options[index as int]
            &&& after.chosen.contains(now) <==> select.chosen.contains(index)
        }),
{
}

proof fn numbered_is_the_first(options: Seq<OptionView>, digit: char, at: int)
    requires
        0 <= at,
    ensures
        match numbered_from(options, digit, at) {
            Some(found) => {
                let label = content(options[found].label);
                &&& at <= found < options.len()
                &&& label.len() >= 3 && label[0] == digit && label[1] == '.' && label[2] == ' '
                &&& forall|k: int|
                    at <= k < found ==> !(seq![digit, '.', ' '].is_prefix_of(
                        content((#[trigger] options[k]).label),
                    ))
            },
            None => forall|k: int|
                at <= k < options.len() ==> !(seq![digit, '.', ' '].is_prefix_of(
                    content((#[trigger] options[k]).label),
                )),
        },
    decreases options.len() - at,
{
    if at < options.len() {
        let label = content(options[at].label);
        if seq![digit, '.', ' '].is_prefix_of(label) {
            assert(label[0] == seq![digit, '.', ' '][0]);
            assert(label[1] == seq![digit, '.', ' '][1]);
            assert(label[2] == seq![digit, '.', ' '][2]);
        } else {
            numbered_is_the_first(options, digit, at + 1);
            if label.len() >= 3 && label[0] == digit && label[1] == '.' && label[2] == ' ' {
                assert(label.take(3) =~= seq![digit, '.', ' ']);
                assert(seq![digit, '.', ' '] =~= label.subrange(0, 3));
            }
        }
    }
}

/// A digit typed with an empty query goes to the first option whose label starts
/// with it, a dot and a space; a single select chooses it at once.
pub proof fn digits_go_to_numbered_options(select: SelectView, digit: char, kept: usize)
    requires
        select.wf(),
        !select.editing,
        select.filter_q.len() == 0,
        '1' <= digit <= '9',
    ensures
        match numbered_from(select.options, digit, 0) {
            Some(found) => {
                let label = content(select.options[found].label);
                let after = select.dispatched(Key::Char(digit), kept).state;
                &&& 0 <= found < select.options.len()
                &&& label.len() >= 3 && label[0] == digit && label[1] == '.' && label[2] == ' '
                &&& after.cursor == found
                &&& !select.multi ==> after.chosen == Set::<usize>::empty().insert(found as usize)
                &&& select.multi ==> after.chosen == select.chosen
            },
            None => true,
        },
{
    numbered_is_the_first(select.options, digit, 0);
}

proof fn rows_are_found(visible: Seq<u16>, index: int, at: int)
    requires
        0 <= at,
    ensures
        match row_of(visible, index, at) {
            Some(row) => at <= row < visible.len() && visible[row] == index,
            None => forall|k: int| at <= k < visible.len() ==> #[trigger] visible[k] != index,
        },
    decreases visible.len() - at,
{
    if at < visible.len() && visible[at] != index {
        rows_are_found(visible, index, at + 1);
    }
}

proof fn active_is_the_first(options: Seq<OptionView>, at: int)
    requires
        0 <= at,
    ensures
        match active_from(options, at) {
            Some(found) => at <= found < options.len() && options[found].active && forall|k: int|
                at <= k < found ==> !(#[trigger] options[k]).active,
            None => forall|k: int| at <= k < options.len() ==> !(#[trigger] options[k]).active,
        },
    decreases options.len() - at,
{
    if at < options.len() && !options[at].active {
        active_is_the_first(options, at + 1);
    }
}

/// Focus comes in on the first active option where it shows; else a single
/// select's choice; else the edge that was crossed.
pub proof fn focus_comes_in_on_the_active_option(select: SelectView, forward: bool, index: int)
    requires
        select.wf(),
        0 <= index < select.options.len(),
        select.options[index].active,
        forall|k: int| 0 <= k < index ==> !(#[trigger] select.options[k]).active,
        exists|r: int| 0 <= r < select.visible.len() && #[trigger] select.visible[r] == index,
    ensures
        select.entry(forward) < select.visible.len(),
        select.visible[select.entry(forward) as int] == index,
{
    active_is_the_first(select.options, 0);
    rows_are_found(select.visible, index, 0);
    let found = active_from(select.options, 0)->0;
    if found < index {
        assert(select.options[found].active);
    }
}

/// The first recommended option is chosen where nothing is.
pub proof fn recommended_options_are_chosen(select: SelectView, index: int)
    requires
        select.chosen == Set::<usize>::empty(),
        0 <= index < select.options.len() <= 65536,
        select.options[index].recommended,
        forall|k: int| 0 <= k < index ==> !(#[trigger] select.options[k]).recommended,
    ensures
        select.with_recommended().chosen == Set::<usize>::empty().insert(index as usize),
{
    recommended_is_the_first(select.options, 0, index);
}

proof fn recommended_is_the_first(options: Seq<OptionView>, at: int, index: int)
    requires
        0 <= at <= index < options.len(),
        options[index].recommended,
        forall|k: int| at <= k < index ==> !(#[trigger] options[k]).recommended,
    ensures
        recommended_from(options, at) == Some(index),
    decreases index - at,
{
    if at < index {
        assert(!options[at].recommended);
        recommended_is_the_first(options, at + 1, index);
    }
}

/// Whether a glyph is blank.
pub open spec fn blank(bytes: Seq<u8>, glyph: Glyph) -> bool {
    class_of(part(bytes, glyph.start as int, glyph.end as int)) is Whitespace
}

proof fn blanks_end(bytes: Seq<u8>, glyphs: Seq<Glyph>, at: int)
    requires
        0 <= at <= glyphs.len(),
    ensures
        at <= blank_run_end(bytes, glyphs, at) <= glyphs.len(),
        forall|k: int|
            at <= k < blank_run_end(bytes, glyphs, at) ==> blank(bytes, #[trigger] glyphs[k]),
        blank_run_end(bytes, glyphs, at) < glyphs.len() ==> !blank(
            bytes,
            glyphs[blank_run_end(bytes, glyphs, at)],
        ),
    decreases glyphs.len() - at,
{
    if at < glyphs.len() && blank(bytes, glyphs[at]) {
        blanks_end(bytes, glyphs, at + 1);
    }
}

proof fn blanks_start(bytes: Seq<u8>, glyphs: Seq<Glyph>, at: int)
    requires
        0 <= at <= glyphs.len(),
    ensures
        0 <= blank_run_start(bytes, glyphs, at) <= at,
        forall|k: int|
            blank_run_start(bytes, glyphs, at) <= k < at ==> blank(bytes, #[trigger] glyphs[k]),
        blank_run_start(bytes, glyphs, at) > 0 ==> !blank(
            bytes,
            glyphs[blank_run_start(bytes, glyphs, at) - 1],
        ),
    decreases at,
{
    if at > 0 && blank(bytes, glyphs[at - 1]) {
        blanks_start(bytes, glyphs, at - 1);
    }
}

/// On a blank, the run of blanks around it is selected, all of it and nothing
/// else.
pub proof fn blanks_are_selected_as_a_run(
    bytes: Seq<u8>,
    before: Seq<Glyph>,
    after: Seq<Glyph>,
    at: int,
) -> (run: (int, int))
    requires
        tiles(before, bytes, 0, at),
        tiles(after, bytes, at, bytes.len() as int),
        after.len() > 0,
        blank(bytes, after[0]),
    ensures
        ({
            let (first, last) = run;
            &&& 0 <= first <= before.len()
            &&& 0 < last <= after.len()
            &&& forall|k: int| first <= k < before.len() ==> blank(bytes, #[trigger] before[k])
            &&& forall|k: int| 0 <= k < last ==> blank(bytes, #[trigger] after[k])
            &&& first > 0 ==> !blank(bytes, before[first - 1])
            &&& last < after.len() ==> !blank(bytes, after[last])
            &&& word_around(bytes, before, after) == Some(
                (
                    if first < before.len() {
                        before[first].start as int
                    } else {
                        at
                    },
                    after[last - 1].end as int,
                ),
            )
        }),
{
    let first = blank_run_start(bytes, before, before.len() as int);
    let last = blank_run_end(bytes, after, 0);
    blanks_start(bytes, before, before.len() as int);
    blanks_end(bytes, after, 0);
    (first, last)
}

/// Screen rows of the visible options from `from` up to `to`.
pub open spec fn rows_between(
    select: SelectView,
    charset: Charset,
    width: u16,
    from: int,
    to: int,
) -> int
    decreases to - from,
{
    if from >= to {
        0
    } else {
        select.shown(from).height(charset, width) + rows_between(
            select,
            charset,
            width,
            from + 1,
            to,
        )
    }
}

/// Where pulling ends.
proof fn pulling_ends(
    select: SelectView,
    charset: Charset,
    width: u16,
    cap: u16,
    first: int,
    at: int,
    span: u16,
)
    requires
        cap < 65535,
        0 <= first <= select.cursor,
        first - 1 <= at <= select.cursor,
        span == rows_between(select, charset, width, at + 1, select.cursor + 1),
        span <= cap,
    ensures
        ({
            let start = select.pulled(charset, width, cap, first, at, span);
            let end = select.cursor + 1;
            &&& first <= start <= select.cursor
            &&& rows_between(select, charset, width, start, end) <= cap || start == select.cursor
            &&& start > first ==> rows_between(select, charset, width, start - 1, end) > cap
                || start == select.cursor && rows_between(select, charset, width, start, end) > cap
        }),
    decreases at - first + 1,
{
    if at >= first {
        let end = select.cursor + 1;
        assert(rows_between(select, charset, width, at, end) == select.shown(at).height(
            charset,
            width,
        ) + span);
        let taken = sat_add(span, select.shown(at).height(charset, width));
        if taken <= cap {
            pulling_ends(select, charset, width, cap, first, at - 1, taken);
        }
    }
}

/// The window of a list stays where it was while the cursor's row shows in it,
/// starts with that row where the cursor went above, and where it went below
/// starts with the first row from which all down to the cursor's fits.
pub proof fn windows_follow_the_cursor(
    select: SelectView,
    charset: Charset,
    width: u16,
    cap: u16,
)
    requires
        cap < 65535,
        select.cursor < select.visible.len(),
        select.scroll < select.visible.len(),
    ensures
        ({
            let start = select.window(charset, width, cap);
            let end = select.cursor + 1;
            &&& select.cursor < select.scroll ==> start == select.cursor
            &&& select.scroll <= select.cursor && rows_between(
                select,
                charset,
                width,
                select.scroll as int,
                end,
            ) <= cap ==> start == select.scroll
            &&& select.scroll <= select.cursor ==> select.scroll <= start <= select.cursor
            &&& rows_between(select, charset, width, start, end) <= cap || start == select.cursor
            &&& start > select.scroll ==> rows_between(select, charset, width, start - 1, end)
                > cap || start == select.cursor && rows_between(select, charset, width, start, end)
                > cap
        }),
{
    let first = if select.cursor < select.scroll {
        select.cursor as int
    } else {
        select.scroll as int
    };
    let end = select.cursor + 1;
    pulling_ends(select, charset, width, cap, first, select.cursor as int, 0);
    let start = select.window(charset, width, cap);
    if select.scroll <= select.cursor {
        rows_shrink(select, charset, width, select.scroll as int, start, end);
        if start > select.scroll {
            rows_shrink(select, charset, width, select.scroll as int, start - 1, end);
        }
    }
}

/// Fewer rows are no taller.
proof fn rows_shrink(
    select: SelectView,
    charset: Charset,
    width: u16,
    from: int,
    later: int,
    to: int,
)
    requires
        from <= later,
    ensures
        rows_between(select, charset, width, later, to) <= rows_between(
            select,
            charset,
            width,
            from,
            to,
        ),
        rows_between(select, charset, width, later, to) >= 0,
    decreases to - from,
{
    if from < to {
        if from < later {
            rows_shrink(select, charset, width, from + 1, later, to);
        } else {
            rows_shrink(select, charset, width, from + 1, from + 1, to);
        }
    }
}

/// Arrows move the cursor by a row, around the ends of a filtered list and no
/// further than the ends of another; pages move it by a page, and the first and
/// last rows are a key away.
pub proof fn arrows_move_by_a_row(select: SelectView)
    requires
        select.visible.len() < 65536,
        select.cursor < select.visible.len(),
    ensures
        ({
            let rows = select.visible.len() as int;
            let at = select.cursor as int;
            let to = |key: Key| select.navigated(key).state.cursor as int;
            &&& at + 1 < rows ==> to(Key::Down) == at + 1
            &&& at + 1 == rows ==> to(Key::Down) == if select.filter {
                0
            } else {
                at
            }
            &&& at > 0 ==> to(Key::Up) == at - 1
            &&& at == 0 ==> to(Key::Up) == if select.filter {
                rows - 1
            } else {
                0
            }
            &&& select.page >= 1 && at + select.page < rows ==> to(Key::PageDown) == at
                + select.page
            &&& select.page >= 1 && at + select.page >= rows ==> to(Key::PageDown) == rows - 1
            &&& select.page >= 1 && at >= select.page ==> to(Key::PageUp) == at - select.page
            &&& select.page >= 1 && at < select.page ==> to(Key::PageUp) == 0
            &&& to(Key::Home) == 0
            &&& to(Key::End) == rows - 1
        }),
{
    let rows = select.visible.len() as int;
    let at = select.cursor as int;
    if at + 1 < rows {
        vstd::arithmetic::div_mod::lemma_small_mod((at + 1) as nat, rows as nat);
    } else {
        vstd::arithmetic::div_mod::lemma_mod_self_0(rows);
    }
    if at > 0 {
        vstd::arithmetic::div_mod::lemma_small_mod((at - 1) as nat, rows as nat);
    } else {
        vstd::arithmetic::div_mod::lemma_mod_add_multiples_vanish(-1, rows);
        vstd::arithmetic::div_mod::lemma_small_mod((rows - 1) as nat, rows as nat);
    }
}

/// On anything but a blank, the word around it is selected: from the first
/// grapheme of the word, or of the run of its class, that it ends to the last of
/// the one that it starts. The grapheme itself is among them.
pub proof fn words_are_selected_whole(
    bytes: Seq<u8>,
    before: Seq<Glyph>,
    after: Seq<Glyph>,
    at: int,
) -> (word: (int, int))
    requires
        tiles(before, bytes, 0, at),
        tiles(after, bytes, at, bytes.len() as int),
        after.len() > 0,
        !blank(bytes, after[0]),
    ensures
        ({
            let (first, last) = word;
            let left = before.push(after[0]);
            let lead = steps_of(bytes, left);
            let rest = steps_of(bytes, after);
            let seed = before.len() as int;
            &&& 0 <= first <= seed
            &&& 0 <= last < after.len()
            &&& word_around(bytes, before, after) == Some(
                (left[first].start as int, after[last].end as int),
            )
            &&& rest[0].class is Word ==> one_word(lead, first, seed) && one_word(rest, 0, last)
                && !goes_on(lead, first - 1, first - 2) && !goes_on(rest, last + 1, last + 2)
            &&& !(rest[0].class is Word) ==> one_class(lead, first, seed) && one_class(rest, 0, last)
                && (first > 0 ==> lead[first - 1].class != rest[0].class) && (last + 1
                < after.len() ==> rest[last + 1].class != rest[0].class)
        }),
{
    let seed = after[0];
    let left = before.push(seed);
    let lead = steps_of(bytes, left);
    let rest = steps_of(bytes, after);
    graphemes_have_one_class(part(bytes, seed.start as int, seed.end as int));
    let (first, end) = word_left_passes_one_word(bytes, left);
    let (start, last) = word_right_passes_one_word(bytes, after, bytes.len() as int);
    assert(lead[before.len() as int].class == rest[0].class);
    assert(!(rest[0].class is Whitespace));
    (first, last)
}

/// Typing goes to the end of a filter's query, a backspace takes the last
/// character back, and Escape takes all of it.
pub proof fn queries_are_typed_at_their_end(select: SelectView, c: char, kept: usize)
    requires
        !select.editing,
        select.filter,
        !select.multi,
        select.quick_target(Key::Char(c)) is None,
    ensures
        ({
            let typed = select.dispatched(Key::Char(c), kept).state;
            let spaced = select.dispatched(Key::Space, kept).state;
            &&& typed.filter_q == select.filter_q.push(c)
            &&& typed.chosen == select.chosen && typed.options == select.options
            &&& typed.dispatched(Key::Backspace, kept).state.filter_q == select.filter_q
            &&& typed.dispatched(Key::Esc, kept).state.filter_q == Seq::<char>::empty()
            &&& typed.dispatched(Key::Ctrl('u'), kept).state.filter_q == Seq::<char>::empty()
            &&& spaced.filter_q == select.filter_q.push(' ')
            &&& select.dispatched(Key::Char(c), kept).flow is None
        }),
{
    assert(select.filter_q.push(c).drop_last() =~= select.filter_q);
}

/// A custom value is typed at its end, reported with `Enter` and dropped with
/// Escape; until then no other key leaves it.
pub proof fn custom_values_are_typed_at_their_end(
    select: SelectView,
    c: char,
    kept: usize,
    id: Seq<char>,
)
    requires
        select.editing,
        select.id == Some(id),
    ensures
        ({
            let typed = select.dispatched(Key::Char(c), kept).state;
            let done = typed.dispatched(Key::Enter, kept);
            let dropped = typed.dispatched(Key::Esc, kept).state;
            &&& typed.custom_text == select.custom_text.push(c)
            &&& typed.editing
            &&& typed.dispatched(Key::Backspace, kept).state.custom_text == select.custom_text
            &&& !done.state.editing
            &&& done.flow == Some(
                FlowView::Event(EventView::Changed { id, value: select.custom_text.push(c) }),
            )
            &&& !dropped.editing && dropped.custom_text.len() == 0
            &&& select.dispatched(Key::Up, kept).state == select
            &&& select.dispatched(Key::Down, kept).state == select
        }),
{
    assert(select.custom_text.push(c).drop_last() =~= select.custom_text);
}

} // verus!
