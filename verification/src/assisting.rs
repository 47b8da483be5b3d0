//! What holds of the editor's help as a whole: prompt history, dropdowns,
//! accepted rows and volatile previews.

use vstd::prelude::*;
use vstd::utf8::*;

use crate::atoms::spliced_bytes;
use crate::chars::{all_whitespace, whitespace};
use crate::editor::{
    boundary_before, boundary_behind, clamped_range, EditorView, OutcomeView, Replies,
    HISTORY_CAPACITY,
};
use crate::input::Key;
use crate::layout::trimmed;
use crate::moving::trimming_takes_trailing_blanks;
use crate::prompting::{
    gone_back, lead_trimmed, match_before, match_from, other_than, remembered, seeded, stripped,
};
use crate::scoring::entry_matches;
use crate::strings::{boundary, utf8};

verus! {

proof fn leading_blanks(text: Seq<char>)
    ensures
        lead_trimmed(text).len() <= text.len(),
        lead_trimmed(text) == text.skip(text.len() - lead_trimmed(text).len()),
        all_whitespace(text.take(text.len() - lead_trimmed(text).len())),
        lead_trimmed(text).len() > 0 ==> !whitespace(lead_trimmed(text)[0]),
    decreases text.len(),
{
    if text.len() > 0 && whitespace(text[0]) {
        let rest = text.drop_first();
        leading_blanks(rest);
        let count = text.len() - lead_trimmed(text).len();
        assert(text.skip(count) =~= rest.skip(count - 1));
        let front = text.take(count);
        assert forall|i: int| 0 <= i < front.len() implies #[trigger] whitespace(front[i]) by {
            if i > 0 {
                assert(front[i] == rest.take(count - 1)[i - 1]);
            }
        }
    } else {
        assert(text.skip(0) =~= text);
    }
}

/// Stripping a text takes the blanks at both of its ends, and nothing else.
pub proof fn stripping_takes_outer_blanks(text: Seq<char>) -> (from: int)
    ensures
        ({
            let kept = stripped(text);
            &&& 0 <= from
            &&& from + kept.len() <= text.len()
            &&& kept == text.subrange(from, from + kept.len())
            &&& all_whitespace(text.take(from))
            &&& all_whitespace(text.skip(from + kept.len()))
            &&& kept.len() > 0 ==> !whitespace(kept[0]) && !whitespace(kept.last())
        }),
{
    leading_blanks(text);
    let rest = lead_trimmed(text);
    trimming_takes_trailing_blanks(rest);
    let kept = trimmed(rest);
    let from = text.len() - rest.len();
    assert(kept =~= text.subrange(from, from + kept.len()));
    let tail = text.skip(from + kept.len());
    assert forall|i: int| 0 <= i < tail.len() implies #[trigger] whitespace(tail[i]) by {
        assert(tail[i] == rest.skip(kept.len() as int)[i]);
    }
    from
}

/// Steps back through the history show the prompts one after the other, the
/// newest first, with the caret at the start.
pub proof fn steps_back_show_prompts_in_order(editor: EditorView, replies: Replies, steps: nat)
    requires
        editor.history_index is None,
        0 < steps <= editor.history.len(),
    ensures
        ({
            let after = gone_back(editor, replies, steps);
            &&& after.buffer.bytes == utf8(editor.history[steps - 1])
            &&& after.buffer.cursor == 0
            &&& after.history_index == Some(steps - 1)
            &&& after.history == editor.history
        }),
    decreases steps,
{
    if steps > 1 {
        steps_back_show_prompts_in_order(editor, replies, (steps - 1) as nat);
    } else {
        assert(gone_back(editor, replies, 0) == editor);
    }
}

proof fn next_match(history: Seq<Seq<char>>, query: Seq<u8>, at: int)
    requires
        0 <= at,
    ensures
        match match_from(history, query, at) {
            Some(found) => at <= found < history.len() && entry_matches(query, utf8(history[found]))
                && forall|k: int|
                at <= k < found ==> !entry_matches(query, utf8(#[trigger] history[k])),
            None => forall|k: int|
                at <= k < history.len() ==> !entry_matches(query, utf8(#[trigger] history[k])),
        },
    decreases history.len() - at,
{
    if at < history.len() && !entry_matches(query, utf8(history[at])) {
        next_match(history, query, at + 1);
    }
}

proof fn last_match(history: Seq<Seq<char>>, query: Seq<u8>, at: int)
    requires
        0 <= at <= history.len(),
    ensures
        match match_before(history, query, at) {
            Some(found) => 0 <= found < at && entry_matches(query, utf8(history[found]))
                && forall|k: int|
                found < k < at ==> !entry_matches(query, utf8(#[trigger] history[k])),
            None => forall|k: int|
                0 <= k < at ==> !entry_matches(query, utf8(#[trigger] history[k])),
        },
    decreases at,
{
    if at > 0 && !entry_matches(query, utf8(history[at - 1])) {
        last_match(history, query, at - 1);
    }
}

/// A history search goes to the next older prompt that matches what was being
/// typed, and a step forth from there to the next newer one that does; no match
/// in between is passed over.
pub proof fn searches_pass_over_no_match(editor: EditorView, replies: Replies)
    requires
        editor.wf(),
        editor.history.len() > 0,
    ensures
        ({
            let query = editor.search_query();
            let (after, outcome) = editor.searched(replies);
            let from = match editor.history_index {
                Some(index) => index + 1,
                None => 0,
            };
            match after.history_index {
                Some(found) if outcome == OutcomeView::Changed => {
                    &&& from <= found < editor.history.len()
                    &&& entry_matches(query, utf8(editor.history[found]))
                    &&& after.buffer.bytes == utf8(editor.history[found])
                    &&& forall|k: int|
                        from <= k < found ==> !entry_matches(
                            query,
                            utf8(#[trigger] editor.history[k]),
                        )
                },
                _ => after.buffer == editor.buffer && forall|k: int|
                    from <= k < editor.history.len() ==> !entry_matches(
                        query,
                        utf8(#[trigger] editor.history[k]),
                    ),
            }
        }),
        (editor.history_index matches Some(index) && editor.history_query matches Some(query)) ==> ({
            let index = editor.history_index->0;
            let query = editor.history_query->0;
            let after = editor.newer(replies).0;
            match after.history_index {
                Some(found) => {
                    &&& 0 <= found < index
                    &&& entry_matches(query, utf8(editor.history[found]))
                    &&& after.buffer.bytes == utf8(editor.history[found])
                    &&& forall|k: int|
                        found < k < index ==> !entry_matches(
                            query,
                            utf8(#[trigger] editor.history[k]),
                        )
                },
                None => after.buffer.bytes == utf8(editor.history_draft) && forall|k: int|
                    0 <= k < index ==> !entry_matches(query, utf8(#[trigger] editor.history[k])),
            }
        }),
{
    let from = match editor.history_index {
        Some(index) => index + 1,
        None => 0,
    };
    next_match(editor.history, editor.search_query(), from);
    if editor.history_index is Some && editor.history_query is Some {
        last_match(editor.history, editor.history_query->0, editor.history_index->0);
    }
}

proof fn filter_keeps_others(history: Seq<Seq<char>>, entry: Seq<char>, other: Seq<char>)
    requires
        other != entry,
    ensures
        history.filter(other_than(entry)).contains(other) <==> history.contains(other),
        history.filter(other_than(entry)).len() <= history.len(),
    decreases history.len(),
{
    reveal(Seq::filter);
    if history.len() > 0 {
        let front = history.drop_last();
        filter_keeps_others(front, entry, other);
        let kept = front.filter(other_than(entry));
        let last = history.last();
        let all = history.filter(other_than(entry));
        if history.contains(other) {
            let i = choose|i: int| 0 <= i < history.len() && history[i] == other;
            if i < front.len() {
                assert(front[i] == other);
            }
        }
        if front.contains(other) {
            let i = choose|i: int| 0 <= i < front.len() && front[i] == other;
            assert(history[i] == other);
        }
        if last != entry {
            assert(all == kept.push(last));
            assert(all[all.len() - 1] == last);
            assert(history[history.len() - 1] == last);
            if kept.contains(other) {
                let i = choose|i: int| 0 <= i < kept.len() && kept[i] == other;
                assert(all[i] == other);
            }
            if all.contains(other) {
                let i = choose|i: int| 0 <= i < all.len() && all[i] == other;
                if i < kept.len() {
                    assert(kept[i] == other);
                }
            }
        }
    }
}

/// Remembering a prompt forgets no other while there is room, and adds no other.
pub proof fn remembering_forgets_nothing(
    history: Seq<Seq<char>>,
    entry: Seq<char>,
    other: Seq<char>,
)
    requires
        other != entry,
        history.len() < HISTORY_CAPACITY,
    ensures
        remembered(history, entry).contains(other) <==> history.contains(other),
{
    filter_keeps_others(history, entry, other);
    let kept = history.filter(other_than(entry));
    let all = remembered(history, entry);
    assert(all == seq![entry] + kept);
    if kept.contains(other) {
        let i = choose|i: int| 0 <= i < kept.len() && kept[i] == other;
        assert(all[i + 1] == other);
    }
    if all.contains(other) {
        let i = choose|i: int| 0 <= i < all.len() && all[i] == other;
        assert(kept[i - 1] == other);
    }
}

/// Whether no two entries are the same.
pub open spec fn without_repeats(history: Seq<Seq<char>>) -> bool {
    forall|i: int, j: int|
        0 <= i < j < history.len() ==> #[trigger] history[i] != #[trigger] history[j]
}

/// A seeded history starts with what it held, repeats nothing, and holds every
/// prompt that is not blank, stripped of outer blanks, while there is room.
pub proof fn seeding_keeps_prompts_once(
    history: Seq<Seq<char>>,
    prompts: Seq<Seq<char>>,
    at: int,
)
    requires
        without_repeats(history),
        0 <= at <= prompts.len(),
        history.len() <= HISTORY_CAPACITY,
    ensures
        ({
            let all = seeded(history, prompts, at);
            &&& history.len() <= all.len() <= HISTORY_CAPACITY
            &&& all.take(history.len() as int) == history
            &&& without_repeats(all)
            &&& forall|k: int|
                at <= k < prompts.len() && all.len() < HISTORY_CAPACITY && stripped(
                    #[trigger] prompts[k],
                ).len() > 0 ==> all.contains(stripped(prompts[k]))
        }),
    decreases prompts.len() - at,
{
    assert(history.take(history.len() as int) =~= history);
    if at < prompts.len() && history.len() < HISTORY_CAPACITY {
        let entry = stripped(prompts[at]);
        if entry.len() == 0 || history.contains(entry) {
            seeding_keeps_prompts_once(history, prompts, at + 1);
            let all = seeded(history, prompts, at);
            if history.contains(entry) {
                let i = choose|i: int| 0 <= i < history.len() && history[i] == entry;
                assert(all.take(history.len() as int)[i] == entry);
                assert(all[i] == entry);
            }
        } else {
            let more = history.push(entry);
            assert forall|i: int, j: int| 0 <= i < j < more.len() implies #[trigger] more[i]
                != #[trigger] more[j] by {
                if j == history.len() && more[i] == entry {
                    assert(history[i] == entry);
                }
            }
            seeding_keeps_prompts_once(more, prompts, at + 1);
            let all = seeded(history, prompts, at);
            assert(all.take(more.len() as int) == more);
            assert(all.take(history.len() as int) =~= more.take(history.len() as int)) by {
                assert forall|i: int| 0 <= i < history.len() implies all[i] == more[i] by {
                    assert(all.take(more.len() as int)[i] == more[i]);
                }
            }
            assert(more.take(history.len() as int) =~= history);
            assert(all.take(more.len() as int)[history.len() as int] == entry);
            assert(all[history.len() as int] == entry);
        }
    }
}

/// What is submitted leaves an empty text behind, and is the first of the
/// history. Blank text is not submitted.
pub proof fn submissions_empty_the_editor(editor: EditorView)
    ensures
        ({
            let (after, outcome) = editor.submitted();
            match outcome {
                OutcomeView::Submitted(text) => {
                    &&& !all_whitespace(decode_utf8(editor.buffer.bytes))
                    &&& after.buffer.bytes.len() == 0
                    &&& after.buffer.cursor == 0
                    &&& after.picker is None
                    &&& editor.options.history && stripped(decode_utf8(text)).len() > 0
                        ==> after.history[0] == stripped(decode_utf8(text))
                },
                _ => after == editor && all_whitespace(decode_utf8(editor.buffer.bytes)),
            }
        }),
{
    if let OutcomeView::Submitted(text) = editor.submitted().1 {
        let entry = stripped(decode_utf8(text));
        crate::prompting::prompts_are_remembered_once(editor.history, entry);
    }
}

/// Up and Down in a dropdown go one row and around the ends, so that each takes
/// the other back; PageUp and PageDown go a window's height and stop at the
/// ends.
pub proof fn dropdown_keys_go_around(editor: EditorView)
    requires
        editor.wf(),
        editor.picker is Some,
    ensures
        ({
            let open = editor.picker->0;
            let end = open.suggestions.len() - 1;
            let up = editor.selected_by(Key::Up);
            let down = editor.selected_by(Key::Down);
            let page_up = editor.selected_by(Key::PageUp);
            let page_down = editor.selected_by(Key::PageDown);
            &&& up is Some && down is Some && page_up is Some && page_down is Some
            &&& editor.with_selected(up->0).selected_by(Key::Down) == Some(open.selected)
            &&& editor.with_selected(down->0).selected_by(Key::Up) == Some(open.selected)
            &&& open.selected < end ==> down == Some(open.selected + 1)
            &&& open.selected == end ==> down == Some(0int)
            &&& open.selected - page_up->0 == open.rows || page_up == Some(0int) && open.selected
                < open.rows
            &&& page_down->0 - open.selected == open.rows || page_down == Some(end) && end
                - open.selected < open.rows
        }),
{
}

proof fn boundaries_around(bytes: Seq<u8>, at: int)
    requires
        0 <= at <= bytes.len(),
    ensures
        0 <= boundary_before(bytes, at) <= at,
        at <= boundary_behind(bytes, at) <= bytes.len(),
{
    boundary_down(bytes, at);
    boundary_up(bytes, at);
}

proof fn boundary_down(bytes: Seq<u8>, at: int)
    requires
        0 <= at,
    ensures
        0 <= boundary_before(bytes, at) <= at,
    decreases at,
{
    if at > 0 && !boundary(bytes, at) {
        boundary_down(bytes, at - 1);
    }
}

proof fn boundary_up(bytes: Seq<u8>, at: int)
    requires
        0 <= at <= bytes.len(),
    ensures
        at <= boundary_behind(bytes, at) <= bytes.len(),
    decreases bytes.len() - at,
{
    if at < bytes.len() && !boundary(bytes, at) {
        boundary_up(bytes, at + 1);
    }
}

/// Whatever range an engine names, the one replaced reaches from at or before
/// the cursor to at or behind it, inside the text; a range that does so already,
/// cut at boundaries, is taken as it is.
pub proof fn replaced_ranges_hold_the_cursor(bytes: Seq<u8>, cursor: int, start: int, end: int)
    requires
        0 <= cursor <= bytes.len(),
        0 <= start,
    ensures
        ({
            let (from, to) = clamped_range(bytes, cursor, start, end);
            &&& 0 <= from <= cursor <= to <= bytes.len()
            &&& start <= cursor <= end <= bytes.len() && boundary(bytes, start) && boundary(
                bytes,
                end,
            ) ==> from == start && to == end
        }),
{
    let low = if start < cursor {
        start
    } else {
        cursor
    };
    let wanted = if end > cursor {
        end
    } else {
        cursor
    };
    let high = if wanted < bytes.len() {
        wanted
    } else {
        bytes.len() as int
    };
    boundaries_around(bytes, low);
    boundaries_around(bytes, high);
}

/// Accepting a row puts its value in place of the range it was offered for, with
/// the cursor behind it; the rest of the text stays.
pub proof fn accepted_rows_replace_their_range(
    editor: EditorView,
    replies: Replies,
)
    requires
        editor.wf(),
        editor.buffer.atoms.len() == 0,
        editor.picker matches Some(open) && editor.current(open) && open.provided
            && editor.buffer.bytes.subrange(open.start, open.end) != utf8(
            open.suggestions[open.selected].value,
        ),
    ensures
        ({
            let open = editor.picker->0;
            let value = utf8(open.suggestions[open.selected].value);
            let after = editor.accepted(true, replies).0;
            let text = editor.buffer.bytes;
            &&& after.buffer.bytes == text.subrange(0, open.start) + value + text.subrange(
                open.end,
                text.len() as int,
            )
            &&& after.buffer.cursor == open.start + value.len()
        }),
{
}

/// A preview leaves no trace: shown at the cursor and taken out again, text and
/// cursor are as before; and a preview that replaces another leaves the text as
/// if it had been the only one.
pub proof fn previews_leave_no_trace(editor: EditorView, first: Seq<u8>, second: Seq<u8>)
    requires
        editor.wf(),
        editor.volatile is None,
        editor.buffer.selection() is None,
        first.len() > 0,
        second.len() > 0,
        ({
            let shown = editor.transcribing(first).buffer.bytes;
            let at = editor.buffer.cursor;
            boundary(shown, at) && boundary(shown, at + first.len())
        }),
    ensures
        ({
            let shown = editor.transcribing(first);
            let (cleared, had) = shown.preview_cleared();
            &&& had
            &&& cleared.buffer.bytes == editor.buffer.bytes
            &&& cleared.buffer.cursor == editor.buffer.cursor
            &&& cleared.buffer.undo == editor.buffer.undo
            &&& cleared.buffer.ring == editor.buffer.ring
            &&& shown.transcribing(second).buffer.bytes == editor.transcribing(second).buffer.bytes
            &&& shown.transcribing(second).buffer.cursor == editor.transcribing(
                second,
            ).buffer.cursor
        }),
{
    let at = editor.buffer.cursor;
    let text = editor.buffer.bytes;
    let shown = editor.transcribing(first);
    let none = Seq::<u8>::empty();
    assert(shown.buffer.bytes == spliced_bytes(text, at, at, first));
    assert(shown.buffer.bytes.subrange(at, at + first.len()) =~= first);
    assert(spliced_bytes(shown.buffer.bytes, at, at + first.len(), none) =~= text);
    assert(spliced_bytes(shown.buffer.bytes, at, at + first.len(), second) =~= spliced_bytes(
        text,
        at,
        at,
        second,
    ));
}

/// A preview made final stands in the text like text put in at the cursor, and
/// one undo takes it back to the text without any preview.
pub proof fn final_previews_are_one_edit(editor: EditorView, shown_text: Seq<u8>, final_text: Seq<u8>)
    requires
        editor.wf(),
        editor.volatile is None,
        editor.buffer.selection() is None,
        shown_text.len() > 0,
        final_text.len() > 0,
        ({
            let shown = editor.transcribing(shown_text).buffer.bytes;
            let at = editor.buffer.cursor;
            boundary(shown, at) && boundary(shown, at + shown_text.len())
        }),
    ensures
        ({
            let (after, changed) = editor.transcribing(shown_text).preview_committed(final_text);
            &&& changed
            &&& after.buffer.bytes == editor.buffer.with_inserted(final_text).0.bytes
            &&& after.buffer.undone().0.bytes == editor.buffer.bytes
        }),
{
    let at = editor.buffer.cursor;
    let text = editor.buffer.bytes;
    let shown = editor.transcribing(shown_text);
    let none = Seq::<u8>::empty();
    assert(shown.buffer.bytes == spliced_bytes(text, at, at, shown_text));
    assert(shown.buffer.bytes.subrange(at, at + shown_text.len()) =~= shown_text);
    assert(spliced_bytes(shown.buffer.bytes, at, at + shown_text.len(), none) =~= text);
}

/// The wheel selects the next row of a dropdown or the one before, and stops at
/// the ends.
pub proof fn wheels_select_the_next_row(editor: EditorView)
    requires
        editor.picker matches Some(open) && 0 <= open.selected < open.suggestions.len(),
    ensures
        ({
            let open = editor.picker->0;
            let last = open.suggestions.len() - 1;
            let down = editor.wheeled(true);
            let up = editor.wheeled(false);
            &&& open.selected < last ==> down.0.picker->0.selected == open.selected + 1 && down.1
                == OutcomeView::Changed
            &&& open.selected == last ==> down == (editor, OutcomeView::Ignored)
            &&& open.selected > 0 ==> up.0.picker->0.selected == open.selected - 1 && up.1
                == OutcomeView::Changed
            &&& open.selected == 0 ==> up == (editor, OutcomeView::Ignored)
            &&& down.0.buffer == editor.buffer && up.0.buffer == editor.buffer
            &&& down.0.picker->0.suggestions == open.suggestions
        }),
{
}

/// A click on a row of a dropdown takes that row, whichever was selected: its
/// value stands in place of the range, with the cursor behind it.
pub proof fn clicks_take_the_row_clicked(editor: EditorView, replies: Replies, index: int)
    requires
        editor.wf(),
        editor.buffer.atoms.len() == 0,
        editor.picker matches Some(open) && editor.current(open) && open.provided && 0 <= index
            < open.suggestions.len() && editor.buffer.bytes.subrange(open.start, open.end) != utf8(
            open.suggestions[index].value,
        ),
    ensures
        ({
            let open = editor.picker->0;
            let value = utf8(open.suggestions[index].value);
            let (after, outcome) = editor.clicked(index, true, replies);
            let text = editor.buffer.bytes;
            &&& after.buffer.bytes == text.subrange(0, open.start) + value + text.subrange(
                open.end,
                text.len() as int,
            )
            &&& after.buffer.cursor == open.start + value.len()
            &&& outcome == OutcomeView::Changed
        }),
{
}

/// A replacement that the editor offers for text before the cursor leaves the
/// cursor where it stands in the rest of the text.
pub proof fn replacements_keep_the_cursor(
    editor: EditorView,
    replies: Replies,
    start: int,
    end: int,
    items: Seq<Seq<char>>,
)
    requires
        editor.buffer.atoms.len() == 0,
        editor.buffer.cuts(start, end),
        0 <= start < end <= editor.buffer.cursor <= editor.buffer.bytes.len(),
        items.len() > 0,
        editor.buffer.bytes.subrange(start, end) != utf8(items[0]),
        ({
            let text = editor.buffer.bytes;
            boundary(
                text.subrange(0, start) + utf8(items[0]) + text.subrange(end, text.len() as int),
                editor.buffer.cursor - (end - start) + utf8(items[0]).len(),
            )
        }),
    ensures
        ({
            let open = editor.replacements(start, end, items);
            let offering = EditorView { picker: Some(open), ..editor };
            let after = offering.accepted(false, replies).0;
            let text = editor.buffer.bytes;
            &&& open.suggestions[0].value == items[0]
            &&& open.selected == 0
            &&& after.buffer.bytes == text.subrange(0, start) + utf8(items[0]) + text.subrange(
                end,
                text.len() as int,
            )
            &&& after.buffer.bytes.len() - after.buffer.cursor == text.len() - editor.buffer.cursor
        }),
{
    let open = editor.replacements(start, end, items);
    let offering = EditorView { picker: Some(open), ..editor };
    assert(open.suggestions.len() > 0);
    assert(open.suggestions[0].value == items[0]);
    assert(offering.current(open));
    let text = editor.buffer.bytes;
    let value = utf8(items[0]);
    let replaced = editor.buffer.with_replaced(start, end, value);
    assert(editor.buffer.widened(start, end) == (start, end));
    assert(replaced.bytes =~= text.subrange(0, start) + value + text.subrange(
        end,
        text.len() as int,
    ));
}

} // verus!
