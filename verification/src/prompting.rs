//! Prompt history, submission, volatile previews and keys of the editor.

use vstd::prelude::*;
use vstd::string::*;
use vstd::utf8::*;

use crate::atoms::filter_grows;
use crate::buffer::{BufferOutcome, BufferView};
use crate::chars::{all_whitespace, is_whitespace, whitespace};
use crate::commands::{build_text, text_views};
use crate::completion::{
    exchanged, plain_tab, talked, EditorCompletion, Exchange, Picker, PickerView, TabView,
};
use crate::editor::{
    answers, tab_answers, EditOutcome, Editor, EditorView, OutcomeView, Replies,
    HISTORY_CAPACITY,
};
use crate::emoji::{emoticon_replaced, emoticons_replaced, expand_emoticons, shortcode_replaced};
use crate::input::Key;
use crate::layout::{
    cursor_row, is_all_whitespace, line_views, lines_measured, segments_of, trimmed, Glyph,
    Measured,
};
use crate::motion::clamped;
use crate::references::expanded;
use crate::scoring::{entry_matches, history_entry_matches, lower_bytes, to_lower_bytes};
use crate::strings::{byte_len, chars_of, same_text, utf8};

verus! {

/// The text without leading whitespace.
pub open spec fn lead_trimmed(text: Seq<char>) -> Seq<char>
    decreases text.len(),
{
    if text.len() > 0 && whitespace(text[0]) {
        lead_trimmed(text.drop_first())
    } else {
        text
    }
}

/// The text without whitespace at either end.
pub open spec fn stripped(text: Seq<char>) -> Seq<char> {
    trimmed(lead_trimmed(text))
}

/// The text without whitespace at either end.
pub fn strip_text(text: &str) -> (result: String)
    ensures
        result@ == stripped(text@),
{
    let chars: Vec<char> = chars_of(text);
    let count: usize = chars.len();
    let mut from: usize = 0;
    assert(chars@.skip(0) =~= chars@);
    while from < count && is_whitespace(chars[from])
        invariant
            from <= count,
            count == chars.len(),
            chars@ == text@,
            lead_trimmed(text@) == lead_trimmed(chars@.skip(from as int)),
        decreases count - from,
    {
        assert(chars@.skip(from as int).drop_first() =~= chars@.skip(from + 1));
        from += 1;
    }
    let ghost rest = chars@.skip(from as int);
    let mut to: usize = count;
    assert(rest.take(to - from) =~= rest);
    while to > from && is_whitespace(chars[to - 1])
        invariant
            from <= to <= count,
            count == chars.len(),
            rest == chars@.skip(from as int),
            trimmed(rest) == trimmed(rest.take(to - from)),
        decreases to,
    {
        assert(rest.take(to - from).last() == chars@[to - 1]);
        assert(rest.take(to - from).drop_last() =~= rest.take(to - 1 - from));
        to -= 1;
    }
    proof {
        let now = rest.take(to - from);
        if to > from {
            assert(now.last() == chars@[to - 1]);
        }
        assert(trimmed(now) == now);
        assert(chars@.subrange(from as int, to as int) =~= now);
        if rest.len() > 0 {
            assert(rest[0] == chars@[from as int]);
        }
    }
    build_text(&chars, from, to)
}

/// Keys that move or select without editing text (the readline motions
/// included), so browsing prompt history survives them.
pub open spec fn moves_caret(key: Key) -> bool {
    match key {
        Key::Up | Key::Down | Key::Left | Key::Right | Key::SelectLeft | Key::SelectRight
        | Key::SelectUp | Key::SelectDown | Key::Home | Key::End | Key::SelectHome
        | Key::SelectEnd | Key::PageUp | Key::PageDown | Key::WordLeft | Key::WordRight
        | Key::SelectWordLeft | Key::SelectWordRight | Key::SelectAll | Key::Copy => true,
        Key::Ctrl(c) => c == 'a' || c == 'e' || c == 'b' || c == 'f',
        _ => false,
    }
}

/// Keys that move or select without editing text.
pub fn is_caret_motion(key: Key) -> (yes: bool)
    ensures
        yes == moves_caret(key),
{
    match key {
        Key::Up | Key::Down | Key::Left | Key::Right | Key::SelectLeft | Key::SelectRight
        | Key::SelectUp | Key::SelectDown | Key::Home | Key::End | Key::SelectHome
        | Key::SelectEnd | Key::PageUp | Key::PageDown | Key::WordLeft | Key::WordRight
        | Key::SelectWordLeft | Key::SelectWordRight | Key::SelectAll | Key::Copy => true,
        Key::Ctrl(c) => c == 'a' || c == 'e' || c == 'b' || c == 'f',
        _ => false,
    }
}

/// The first history entry, from `at` on, that matches.
pub open spec fn match_from(history: Seq<Seq<char>>, query: Seq<u8>, at: int) -> Option<int>
    decreases history.len() - at,
{
    if at >= history.len() {
        None
    } else if entry_matches(query, utf8(history[at])) {
        Some(at)
    } else {
        match_from(history, query, at + 1)
    }
}

/// The last history entry before `at` that matches.
pub open spec fn match_before(history: Seq<Seq<char>>, query: Seq<u8>, at: int) -> Option<int>
    decreases at,
{
    if at <= 0 {
        None
    } else if entry_matches(query, utf8(history[at - 1])) {
        Some(at - 1)
    } else {
        match_before(history, query, at - 1)
    }
}

/// A history with the prompts from `at` on behind it: blanks and repeats are
/// left out, up to the capacity.
pub open spec fn seeded(history: Seq<Seq<char>>, prompts: Seq<Seq<char>>, at: int) -> Seq<Seq<char>>
    decreases prompts.len() - at,
{
    if at >= prompts.len() || history.len() >= HISTORY_CAPACITY {
        history
    } else {
        let entry = stripped(prompts[at]);
        if entry.len() == 0 || history.contains(entry) {
            seeded(history, prompts, at + 1)
        } else {
            seeded(history.push(entry), prompts, at + 1)
        }
    }
}

/// What differs from an entry.
pub open spec fn other_than(entry: Seq<char>) -> spec_fn(Seq<char>) -> bool {
    |other: Seq<char>| other != entry
}

/// A history with a new first entry and no other copy of it.
pub open spec fn remembered(history: Seq<Seq<char>>, entry: Seq<char>) -> Seq<Seq<char>> {
    let all = seq![entry] + history.filter(other_than(entry));
    if all.len() > HISTORY_CAPACITY {
        all.take(HISTORY_CAPACITY as int)
    } else {
        all
    }
}

impl EditorView {
    /// The editor that browses no history.
    pub open spec fn unbrowsed(self) -> Self {
        EditorView { history_index: None, history_query: None, ..self }
    }

    /// The editor after completion was asked for anew with the dropdown kept
    /// closed.
    pub open spec fn recalled(self, replies: Replies) -> Self {
        EditorView { picker: None, ..self.refreshed(replies) }
    }

    /// The editor after a prompt is recorded.
    pub open spec fn with_prompt(self, text: Seq<char>) -> Self {
        let entry = stripped(text);
        if self.options.history && entry.len() > 0 {
            EditorView { history: remembered(self.history, entry), ..self.unbrowsed() }
        } else {
            self.unbrowsed()
        }
    }

    /// Whether the cursor is on the first visual row.
    pub open spec fn on_first_row(self, lines: Seq<Seq<Glyph>>) -> bool {
        cursor_row(
            segments_of(self.buffer.bytes, lines, self.buffer.layout_width as int),
            self.buffer.cursor,
        ) == 0
    }

    /// Whether the cursor is on the last visual row.
    pub open spec fn on_last_row(self, lines: Seq<Seq<Glyph>>) -> bool {
        let rows = segments_of(self.buffer.bytes, lines, self.buffer.layout_width as int);
        cursor_row(rows, self.buffer.cursor) + 1 == rows.len()
    }

    /// Whether Up steps the history: on an empty draft or while browsing, from
    /// the first visual row.
    pub open spec fn gate_up(self, lines: Seq<Seq<Glyph>>) -> bool {
        self.on_first_row(lines) && (self.history_index is Some || self.buffer.bytes.len() == 0)
    }

    /// Whether a key steps the history instead of moving the caret.
    pub open spec fn navigates(self, key: Key, lines: Seq<Seq<Glyph>>) -> bool {
        self.options.history && self.picker is None && match key {
            Key::Up => self.gate_up(lines) && self.history.len() > 0,
            Key::Down => self.history_index is Some && self.on_last_row(lines),
            _ => false,
        }
    }

    /// The draft to return to: what is being edited, unless browsing already.
    pub open spec fn draft(self) -> Seq<char> {
        if self.history_index is None {
            decode_utf8(self.buffer.bytes)
        } else {
            self.history_draft
        }
    }

    /// The editor showing a history entry.
    pub open spec fn showing(self, index: int, cursor_at_start: bool) -> Self {
        EditorView {
            history_index: Some(index),
            buffer: self.buffer.externally_replaced(utf8(self.history[index]), cursor_at_start),
            ..self
        }
    }

    /// The editor after a step to the next older prompt.
    pub open spec fn older(self, replies: Replies) -> (Self, OutcomeView) {
        let next = match self.history_index {
            Some(index) => index + 1,
            None => 0,
        };
        if next >= self.history.len() {
            (self, OutcomeView::Ignored)
        } else {
            (
                (EditorView { history_draft: self.draft(), history_query: None, ..self }).showing(
                    next,
                    true,
                ).recalled(replies),
                OutcomeView::Changed,
            )
        }
    }

    /// What a history search looks for.
    pub open spec fn search_query(self) -> Seq<u8> {
        match self.history_query {
            Some(query) => query,
            None => lower_bytes(utf8(stripped(self.draft()))),
        }
    }

    /// The editor after a search for the next older matching prompt.
    pub open spec fn searched(self, replies: Replies) -> (Self, OutcomeView) {
        if self.history.len() == 0 {
            (self, OutcomeView::Ignored)
        } else {
            let query = self.search_query();
            let ready = EditorView {
                history_draft: self.draft(),
                history_query: Some(query),
                ..self
            };
            let from = match self.history_index {
                Some(index) => index + 1,
                None => 0,
            };
            match match_from(self.history, query, from) {
                None => (ready, OutcomeView::Ignored),
                Some(index) => (
                    ready.showing(index, false).recalled(replies),
                    OutcomeView::Changed,
                ),
            }
        }
    }

    /// The editor after a step to the next newer prompt, or back to the draft.
    pub open spec fn newer(self, replies: Replies) -> (Self, OutcomeView) {
        match self.history_index {
            None => (self, OutcomeView::Ignored),
            Some(index) => {
                let next = match self.history_query {
                    Some(query) => match_before(self.history, query, index),
                    None => if index > 0 {
                        Some(index - 1)
                    } else {
                        None
                    },
                };
                let shown = match next {
                    Some(index) => self.showing(index, false),
                    None => EditorView {
                        buffer: self.buffer.externally_replaced(utf8(self.history_draft), false),
                        ..self.unbrowsed()
                    },
                };
                (shown.recalled(replies), OutcomeView::Changed)
            },
        }
    }

    /// The editor after its text is submitted, unless that is blank.
    pub open spec fn submitted(self) -> (Self, OutcomeView) {
        if all_whitespace(decode_utf8(self.buffer.bytes)) {
            (self, OutcomeView::Ignored)
        } else {
            let plain = expanded(self.buffer.bytes, self.buffer.atoms, 0);
            let text = if self.options.emoji {
                emoticons_replaced(plain, 0)
            } else {
                plain
            };
            (
                EditorView {
                    picker: None,
                    hint: None,
                    ..(EditorView { buffer: self.buffer.submitted(), ..self }).with_prompt(
                        decode_utf8(text),
                    )
                },
                OutcomeView::Submitted(text),
            )
        }
    }

    /// The edited text with the emoji that a typed key completes put in.
    pub open spec fn with_emoji(self, buffer: BufferView, key: Key) -> BufferView {
        if !self.options.emoji {
            buffer
        } else {
            match key {
                Key::Char(c) => if c == ':' {
                    shortcode_replaced(buffer, self.emojis)
                } else if whitespace(c) {
                    emoticon_replaced(buffer)
                } else {
                    buffer
                },
                Key::Space => emoticon_replaced(buffer),
                _ => buffer,
            }
        }
    }

    /// The editor after a key that edits the text. Any edit leaves history
    /// browsing; caret motion inside a recalled entry keeps it and never pops
    /// the dropdown.
    pub open spec fn edited(self, key: Key, measured: Measured, replies: Replies) -> (
        Self,
        OutcomeView,
    ) {
        let ready = if moves_caret(key) {
            self
        } else {
            self.unbrowsed()
        };
        let (buffer, outcome) = self.buffer.handled(key, self.width, self.page_rows, measured);
        if outcome == BufferOutcome::Changed {
            let next = EditorView { buffer: self.with_emoji(buffer, key), ..ready };
            (
                if next.history_index is Some {
                    next.recalled(replies)
                } else {
                    next.refreshed(replies)
                },
                OutcomeView::Changed,
            )
        } else {
            (EditorView { buffer, ..ready }, OutcomeView::Ignored)
        }
    }

    /// The editor after a key that no dropdown takes.
    pub open spec fn unpicked(
        self,
        key: Key,
        measured: Measured,
        installed: bool,
        replies: Replies,
    ) -> (Self, OutcomeView) {
        let lines = line_views(measured.lines@);
        if key == Key::Enter {
            self.submitted()
        } else if key == Key::Tab {
            self.tabbed(installed, replies)
        } else if key == Key::Ctrl('r') && self.options.history {
            self.searched(replies)
        } else if key == Key::Up && self.options.history && self.gate_up(lines) {
            self.older(replies)
        } else if key == Key::Down && self.options.history && self.history_index is Some
            && self.on_last_row(lines) {
            self.newer(replies)
        } else {
            self.edited(key, measured, replies)
        }
    }

    /// Whether the cursor is at the end of its logical line.
    pub open spec fn at_line_end(self) -> bool {
        self.buffer.cursor == self.buffer.bytes.len() || self.buffer.bytes[self.buffer.cursor] == 10
    }

    /// The row that a key selects in an open dropdown.
    pub open spec fn selected_by(self, key: Key) -> Option<int> {
        match self.picker {
            None => None,
            Some(open) => {
                let count = open.suggestions.len() as int;
                match key {
                    Key::Up => Some(
                        if open.selected == 0 {
                            count - 1
                        } else {
                            open.selected - 1
                        },
                    ),
                    Key::Down => Some(
                        if open.selected + 1 == count {
                            0
                        } else {
                            open.selected + 1
                        },
                    ),
                    Key::PageUp => Some(clamped(open.selected - open.rows, 0, count - 1)),
                    Key::PageDown => Some(clamped(open.selected + open.rows, 0, count - 1)),
                    _ => None,
                }
            },
        }
    }

    /// The editor after a key.
    pub open spec fn handled(
        self,
        key: Key,
        measured: Measured,
        installed: bool,
        replies: Replies,
    ) -> (Self, OutcomeView) {
        if self.picker is None {
            self.unpicked(key, measured, installed, replies)
        } else if key == Key::Esc {
            (EditorView { picker: None, ..self }, OutcomeView::Changed)
        } else if self.selected_by(key) is Some {
            (self.with_selected(self.selected_by(key)->0), OutcomeView::Changed)
        } else if key == Key::Enter {
            if self.enter_submits() {
                self.accepted_for_submit(installed, replies).submitted()
            } else {
                self.accepted(installed, replies)
            }
        } else if key == Key::Tab || key == Key::Right && self.at_line_end() {
            self.tabbed(installed, replies)
        } else {
            self.unpicked(key, measured, installed, replies)
        }
    }
}

/// Answers that say nothing.
pub open spec fn silence(tab: TabView) -> Replies {
    Replies { suggestions: None, emoji: true, hint: None, tab }
}

/// Whether one of the entries is `wanted`.
fn has_entry(entries: &Vec<String>, wanted: &str) -> (yes: bool)
    ensures
        yes == text_views(entries@).contains(wanted@),
{
    let ghost views = text_views(entries@);
    let mut at: usize = 0;
    while at < entries.len()
        invariant
            at <= entries.len(),
            views == text_views(entries@),
            views.len() == entries.len(),
            forall|i: int| 0 <= i < at ==> views[i] != wanted@,
        decreases entries.len() - at,
    {
        assert(views[at as int] == entries@[at as int]@);
        if same_text(entries[at].as_str(), wanted) {
            return true;
        }
        at += 1;
    }
    false
}

/// A text is blank exactly when nothing of it is left without its outer
/// whitespace.
pub proof fn blank_strips_to_nothing(text: Seq<char>)
    ensures
        all_whitespace(text) <==> stripped(text).len() == 0,
    decreases text.len(),
{
    if text.len() > 0 && whitespace(text[0]) {
        let rest = text.drop_first();
        blank_strips_to_nothing(rest);
        assert forall|i: int| 0 <= i < rest.len() implies rest[i] == text[i + 1] by {}
        if all_whitespace(rest) {
            assert forall|i: int| 0 <= i < text.len() implies whitespace(#[trigger] text[i]) by {
                if i > 0 {
                    assert(whitespace(rest[i - 1]));
                }
            }
        }
    } else if text.len() > 0 {
        crate::layout::trimmed_facts(text);
        assert(!whitespace(text[0]));
        trimming_keeps_the_first(text);
    }
}

/// Trimming at the end keeps a first character that is no whitespace.
proof fn trimming_keeps_the_first(text: Seq<char>)
    requires
        text.len() > 0,
        !whitespace(text[0]),
    ensures
        trimmed(text).len() > 0,
    decreases text.len(),
{
    if whitespace(text.last()) {
        trimming_keeps_the_first(text.drop_last());
    }
}

impl<C: EditorCompletion> Editor<C> {
    /// Records a submitted prompt as the newest history entry: blank text is
    /// ignored, an earlier copy is dropped, the list is capped, and browsing
    /// state resets so the next Up starts from the newest entry. The host
    /// calls this after it decides the submission really happened.
    pub fn add_to_history(&mut self, text: &str)
        requires
            old(self).wf(),
        ensures
            final(self).wf(),
            final(self).completion == old(self).completion,
            final(self)@ == old(self)@.with_prompt(text@),
    {
        let ghost before = self@;
        self.history_index = None;
        self.history_query = None;
        if !self.options.history {
            assert(self@ =~= before.with_prompt(text@));
            return;
        }
        let entry: String = strip_text(text);
        let blank: bool = is_all_whitespace(entry.as_str());
        proof {
            blank_strips_to_nothing(text@);
            blank_strips_to_nothing(entry@);
            stripped_is_not_blank(text@);
        }
        if blank {
            assert(self@ =~= before.with_prompt(text@));
            return;
        }
        let ghost keep = other_than(entry@);
        let ghost views = before.history;
        let ghost wanted = entry@;
        let mut kept: Vec<String> = Vec::new();
        kept.push(entry.clone());
        let mut at: usize = 0;
        assert(views.take(0).filter(keep) =~= Seq::<Seq<char>>::empty()) by {
            reveal(Seq::filter);
        }
        assert(text_views(kept@) =~= seq![wanted] + views.take(0).filter(keep));
        while at < self.history.len()
            invariant
                at <= self.history.len(),
                self.history == old(self).history,
                views == text_views(self.history@),
                views.len() == self.history.len(),
                wanted == entry@,
                keep == other_than(wanted),
                text_views(kept@) == seq![wanted] + views.take(at as int).filter(keep),
            decreases self.history.len() - at,
        {
            assert(views[at as int] == self.history@[at as int]@);
            proof {
                filter_grows(views, keep, at as int);
            }
            let ghost earlier = text_views(kept@);
            if !same_text(self.history[at].as_str(), entry.as_str()) {
                kept.push(self.history[at].clone());
                assert(text_views(kept@) =~= earlier.push(views[at as int]));
                assert(text_views(kept@) =~= seq![wanted] + views.take(at + 1).filter(keep));
            }
            at += 1;
        }
        assert(views.take(at as int) =~= views);
        let ghost all = text_views(kept@);
        assert(all.len() == kept.len());
        if kept.len() > HISTORY_CAPACITY {
            kept.truncate(HISTORY_CAPACITY);
            assert(text_views(kept@) =~= all.take(HISTORY_CAPACITY as int));
        }
        self.history = kept;
        proof {
            assert(all == seq![wanted] + before.history.filter(other_than(wanted)));
            assert(self@ =~= before.with_prompt(text@));
        }
    }

    /// Replaces the history list with `prompts`, newest first. A resumed
    /// session seeds Up/Down from stored prompts. Duplicates keep their first
    /// (newest) position.
    pub fn seed_history(&mut self, prompts: &Vec<String>)
        requires
            old(self).wf(),
        ensures
            final(self).wf(),
            final(self).completion == old(self).completion,
            final(self)@ == (EditorView {
                history: if old(self)@.options.history {
                    seeded(Seq::empty(), text_views(prompts@), 0)
                } else {
                    Seq::empty()
                },
                ..old(self)@.unbrowsed()
            }),
    {
        let ghost before = self@;
        let ghost views = text_views(prompts@);
        let mut history: Vec<String> = Vec::new();
        assert(text_views(history@) =~= Seq::<Seq<char>>::empty());
        if self.options.history {
            let mut at: usize = 0;
            while at < prompts.len() && history.len() < HISTORY_CAPACITY
                invariant
                    at <= prompts.len(),
                    views == text_views(prompts@),
                    views.len() == prompts.len(),
                    history.len() <= HISTORY_CAPACITY,
                    seeded(Seq::empty(), views, 0) == seeded(
                        text_views(history@),
                        views,
                        at as int,
                    ),
                decreases prompts.len() - at,
            {
                assert(views[at as int] == prompts@[at as int]@);
                let entry: String = strip_text(prompts[at].as_str());
                proof {
                    blank_strips_to_nothing(prompts@[at as int]@);
                    blank_strips_to_nothing(entry@);
                    stripped_is_not_blank(prompts@[at as int]@);
                }
                let ghost earlier = text_views(history@);
                if !is_all_whitespace(entry.as_str()) && !has_entry(&history, entry.as_str()) {
                    let ghost added = entry@;
                    history.push(entry);
                    assert(text_views(history@) =~= earlier.push(added));
                }
                at += 1;
            }
            assert(text_views(history@).len() == history.len());
        }
        self.history_index = None;
        self.history_query = None;
        self.history = history;
        assert(self@.history == text_views(history@));
        assert(self@ =~= (EditorView { history: self@.history, ..before.unbrowsed() }));
    }

    /// Whether Up steps the history.
    fn history_gate_up(&self, lines: &Vec<Vec<Glyph>>) -> (yes: bool)
        requires
            self.wf(),
            lines_measured(line_views(lines@), self@.buffer.bytes, 0, 0),
        ensures
            yes == self@.gate_up(line_views(lines@)),
    {
        if !self.buffer.on_first_row(lines) {
            return false;
        }
        self.history_index.is_some() || byte_len(self.buffer.text.as_str()) == 0
    }

    /// Whether `key` would step prompt history instead of moving the caret:
    /// Up on an empty draft or while browsing from the first visual row, Down
    /// while browsing from the last visual row. Hosts that borrow Up/Down at
    /// the draft's edges (transcript scrolling) yield to the editor when this
    /// holds.
    #[must_use]
    pub fn history_navigates(&self, key: Key, lines: &Vec<Vec<Glyph>>) -> (yes: bool)
        requires
            self.wf(),
            lines_measured(line_views(lines@), self@.buffer.bytes, 0, 0),
        ensures
            yes == self@.navigates(key, line_views(lines@)),
    {
        if !self.options.history || self.picker.is_some() {
            return false;
        }
        assert(self@.history.len() == self.history.len());
        match key {
            Key::Up => self.history_gate_up(lines) && self.history.len() > 0,
            Key::Down => self.history_index.is_some() && self.buffer.on_last_row(lines),
            _ => false,
        }
    }

    /// Asks for completion anew and keeps the dropdown closed: a recalled
    /// `/command` is a prompt to resend, and Up/Down keep stepping history
    /// instead of walking a popup that popped over it.
    fn refresh_recalled(&mut self)
        requires
            old(self).wf(),
        ensures
            final(self).wf(),
            final(self).completion is None <==> old(self).completion is None,
            talked(old(self).completion, old(self)@.talk, final(self)@.talk, final(self).completion),
            exists|replies: Replies|
                #![trigger old(self)@.recalled(replies)]
                {
                    &&& final(self)@ == old(self)@.recalled(replies)
                    &&& answers(old(self).completion is Some, replies)
                },
    {
        let ghost before = self@;
        let ghost installed = self.completion is Some;
        self.refresh();
        let ghost asked = self@;
        self.picker = None;
        proof {
            let replies = choose|replies: Replies|
                #![trigger before.refreshed(replies)]
                asked == before.refreshed(replies) && answers(installed, replies);
            assert(self@ =~= before.recalled(replies));
        }
    }

    /// Shows a history entry in place of the text.
    fn show_entry(&mut self, index: usize, cursor_at_start: bool)
        requires
            old(self).wf(),
            index < old(self).history.len(),
        ensures
            final(self).wf(),
            final(self).completion == old(self).completion,
            final(self)@ == old(self)@.showing(index as int, cursor_at_start),
    {
        let ghost before = self@;
        assert(before.history[index as int] == self.history@[index as int]@);
        assert(before.history.len() == self.history.len());
        self.history_index = Some(index);
        let entry: String = self.history[index].clone();
        self.buffer.replace_external(entry.as_str(), cursor_at_start);
        assert(self@ =~= before.showing(index as int, cursor_at_start));
    }

    /// Keeps the draft to return to, unless browsing already.
    fn keep_draft(&mut self)
        requires
            old(self).wf(),
        ensures
            final(self).wf(),
            final(self).completion == old(self).completion,
            final(self)@ == (EditorView { history_draft: old(self)@.draft(), ..old(self)@ }),
            final(self).history == old(self).history,
    {
        let ghost before = self@;
        proof {
            encode_utf8_decode_utf8(self.buffer.text@);
        }
        if self.history_index.is_none() {
            self.history_draft = self.buffer.text.clone();
        }
        assert(self@ =~= (EditorView { history_draft: before.draft(), ..before }));
    }

    /// Steps to the next older prompt.
    fn history_older(&mut self) -> (outcome: EditOutcome)
        requires
            old(self).wf(),
        ensures
            final(self).wf(),
            final(self).completion is None <==> old(self).completion is None,
            talked(old(self).completion, old(self)@.talk, final(self)@.talk, final(self).completion),
            exists|replies: Replies|
                #![trigger old(self)@.older(replies)]
                {
                    &&& (final(self)@, outcome@) == old(self)@.older(replies)
                    &&& answers(old(self).completion is Some, replies)
                },
    {
        let ghost before = self@;
        let ghost installed = self.completion is Some;
        assert(before.history.len() == self.history.len());
        let next: usize = match self.history_index {
            Some(index) => index + 1,
            None => 0,
        };
        if next >= self.history.len() {
            assert((self@, OutcomeView::Ignored) == before.older(silence(TabView::Pass)));
            return EditOutcome::Ignored;
        }
        self.keep_draft();
        self.history_query = None;
        let ghost ready = EditorView {
            history_draft: before.draft(),
            history_query: None,
            ..before
        };
        assert(self@ =~= ready);
        self.show_entry(next, true);
        let ghost shown = self@;
        self.refresh_recalled();
        proof {
            let replies = choose|replies: Replies|
                #![trigger shown.recalled(replies)]
                self@ == shown.recalled(replies) && answers(installed, replies);
            assert((self@, OutcomeView::Changed) == before.older(replies));
        }
        EditOutcome::Changed
    }

    /// Searches for the next older matching prompt.
    fn history_search(&mut self) -> (outcome: EditOutcome)
        requires
            old(self).wf(),
        ensures
            final(self).wf(),
            final(self).completion is None <==> old(self).completion is None,
            talked(old(self).completion, old(self)@.talk, final(self)@.talk, final(self).completion),
            exists|replies: Replies|
                #![trigger old(self)@.searched(replies)]
                {
                    &&& (final(self)@, outcome@) == old(self)@.searched(replies)
                    &&& answers(old(self).completion is Some, replies)
                },
    {
        let ghost before = self@;
        let ghost installed = self.completion is Some;
        assert(before.history.len() == self.history.len());
        if self.history.len() == 0 {
            assert((self@, OutcomeView::Ignored) == before.searched(silence(TabView::Pass)));
            return EditOutcome::Ignored;
        }
        self.keep_draft();
        if self.history_query.is_none() {
            let entry: String = strip_text(self.history_draft.as_str());
            self.history_query = Some(to_lower_bytes(entry.as_str().as_bytes()));
        }
        let ghost query = before.search_query();
        let ghost ready = EditorView {
            history_draft: before.draft(),
            history_query: Some(query),
            ..before
        };
        assert(self@ =~= ready);
        let from: usize = match self.history_index {
            Some(index) => index + 1,
            None => 0,
        };
        let mut at: usize = from;
        let mut found: Option<usize> = None;
        while at < self.history.len() && found.is_none()
            invariant
                from <= at <= self.history.len(),
                self@ == ready,
                ready.history.len() == self.history.len(),
                ready.history_query == Some(query),
                match found {
                    Some(index) => match_from(ready.history, query, from as int) == Some(
                        index as int,
                    ) && index < self.history.len(),
                    None => match_from(ready.history, query, from as int) == match_from(
                        ready.history,
                        query,
                        at as int,
                    ),
                },
            decreases self.history.len() - at, (if found is None { 1int } else { 0int }),
        {
            assert(ready.history[at as int] == self.history@[at as int]@);
            let hit: bool = match &self.history_query {
                Some(wanted) => history_entry_matches(
                    wanted.as_slice(),
                    self.history[at].as_str().as_bytes(),
                ),
                None => false,
            };
            if hit {
                found = Some(at);
            } else {
                at += 1;
            }
        }
        match found {
            None => {
                assert((self@, OutcomeView::Ignored) == before.searched(silence(TabView::Pass)));
                EditOutcome::Ignored
            },
            Some(index) => {
                self.show_entry(index, false);
                let ghost shown = self@;
                self.refresh_recalled();
                proof {
                    let replies = choose|replies: Replies|
                        #![trigger shown.recalled(replies)]
                        self@ == shown.recalled(replies) && answers(installed, replies);
                    assert((self@, OutcomeView::Changed) == before.searched(replies));
                }
                EditOutcome::Changed
            },
        }
    }

    /// The newer entry to step to.
    fn find_newer(&self, index: usize) -> (next: Option<usize>)
        requires
            self.wf(),
            index < self.history.len(),
        ensures
            crate::buffer::offset_view(next) == (match self@.history_query {
                Some(query) => match_before(self@.history, query, index as int),
                None => if index > 0 {
                    Some(index - 1)
                } else {
                    None
                },
            }),
            next matches Some(at) ==> at < index,
    {
        match &self.history_query {
            None => {
                if index > 0 {
                    Some(index - 1)
                } else {
                    None
                }
            },
            Some(query) => {
                let ghost views = self@.history;
                let mut at: usize = index;
                assert(views.len() == self.history.len());
                while at > 0
                    invariant
                        at <= index < self.history.len(),
                        views == self@.history,
                        views == text_views(self.history@),
                        self@.history_query == Some(query@),
                        views.len() == self.history.len(),
                        match_before(views, query@, index as int) == match_before(
                            views,
                            query@,
                            at as int,
                        ),
                    decreases at,
                {
                    at -= 1;
                    assert(views[at as int] == self.history@[at as int]@);
                    if history_entry_matches(
                        query.as_slice(),
                        self.history[at].as_str().as_bytes(),
                    ) {
                        return Some(at);
                    }
                }
                None
            },
        }
    }

    /// Steps to the next newer prompt, or back to the draft.
    fn history_newer(&mut self) -> (outcome: EditOutcome)
        requires
            old(self).wf(),
        ensures
            final(self).wf(),
            final(self).completion is None <==> old(self).completion is None,
            talked(old(self).completion, old(self)@.talk, final(self)@.talk, final(self).completion),
            exists|replies: Replies|
                #![trigger old(self)@.newer(replies)]
                {
                    &&& (final(self)@, outcome@) == old(self)@.newer(replies)
                    &&& answers(old(self).completion is Some, replies)
                },
    {
        let ghost before = self@;
        let ghost installed = self.completion is Some;
        assert(before.history.len() == self.history.len());
        match self.history_index {
            None => {
                assert((self@, OutcomeView::Ignored) == before.newer(silence(TabView::Pass)));
                EditOutcome::Ignored
            },
            Some(index) => {
                match self.find_newer(index) {
                    Some(next) => {
                        self.show_entry(next, false);
                    },
                    None => {
                        self.history_index = None;
                        self.history_query = None;
                        let draft: String = self.history_draft.clone();
                        self.buffer.replace_external(draft.as_str(), false);
                        assert(self@ =~= (EditorView {
                            buffer: before.buffer.externally_replaced(
                                utf8(before.history_draft),
                                false,
                            ),
                            ..before.unbrowsed()
                        }));
                    },
                }
                let ghost shown = self@;
                self.refresh_recalled();
                proof {
                    let replies = choose|replies: Replies|
                        #![trigger shown.recalled(replies)]
                        self@ == shown.recalled(replies) && answers(installed, replies);
                    assert((self@, OutcomeView::Changed) == before.newer(replies));
                }
                EditOutcome::Changed
            },
        }
    }

    /// Submits the text, unless it is blank.
    pub fn submit(&mut self) -> (outcome: EditOutcome)
        requires
            old(self).wf(),
        ensures
            final(self).wf(),
            final(self).completion == old(self).completion,
            (final(self)@, outcome@) == old(self)@.submitted(),
    {
        let ghost before = self@;
        proof {
            encode_utf8_decode_utf8(self.buffer.text@);
        }
        if is_all_whitespace(self.buffer.text.as_str()) {
            return EditOutcome::Ignored;
        }
        let plain: String = self.buffer.clear_after_submit();
        let ghost cleared = EditorView { buffer: before.buffer.submitted(), ..before };
        assert(self@ =~= cleared);
        let text: String = if self.options.emoji {
            expand_emoticons(plain)
        } else {
            plain
        };
        proof {
            encode_utf8_decode_utf8(text@);
        }
        self.add_to_history(text.as_str());
        self.picker = None;
        self.hint = None;
        assert(self@ =~= before.submitted().0);
        EditOutcome::Submitted(text)
    }

    /// Puts the emoji that a typed key completes in.
    fn complete_emoji(&mut self, key: Key)
        requires
            old(self).wf(),
        ensures
            final(self).wf(),
            final(self).completion == old(self).completion,
            final(self)@ == (EditorView {
                buffer: old(self)@.with_emoji(old(self)@.buffer, key),
                ..old(self)@
            }),
    {
        let ghost before = self@;
        if self.options.emoji {
            match key {
                Key::Char(c) => {
                    if c == ':' {
                        self.buffer.replace_shortcode(&self.emojis);
                    } else if is_whitespace(c) {
                        self.buffer.replace_emoticon();
                    }
                },
                Key::Space => {
                    self.buffer.replace_emoticon();
                },
                _ => {},
            }
        }
        assert(self@ =~= (EditorView {
            buffer: before.with_emoji(before.buffer, key),
            ..before
        }));
    }

    /// Applies a key that edits the text.
    fn edit(&mut self, key: Key, measured: &Measured) -> (outcome: EditOutcome)
        requires
            old(self).wf(),
            measured.measures(old(self)@.buffer.bytes, old(self)@.buffer.cursor),
        ensures
            final(self).wf(),
            final(self).completion is None <==> old(self).completion is None,
            talked(old(self).completion, old(self)@.talk, final(self)@.talk, final(self).completion),
            exists|replies: Replies|
                #![trigger old(self)@.edited(key, *measured, replies)]
                {
                    &&& (final(self)@, outcome@) == old(self)@.edited(key, *measured, replies)
                    &&& answers(old(self).completion is Some, replies)
                },
    {
        let ghost before = self@;
        let ghost installed = self.completion is Some;
        if !is_caret_motion(key) {
            self.history_index = None;
            self.history_query = None;
        }
        let ghost ready = if moves_caret(key) {
            before
        } else {
            before.unbrowsed()
        };
        assert(self@ =~= ready);
        let outcome: BufferOutcome = self.buffer.handle(
            key,
            self.last_layout_width,
            self.last_page_rows,
            measured,
        );
        let ghost buffer = self.buffer@;
        assert(self@ =~= (EditorView { buffer, ..ready }));
        match outcome {
            BufferOutcome::Changed => {
                self.complete_emoji(key);
                let ghost next = EditorView { buffer: before.with_emoji(buffer, key), ..ready };
                assert(self@ =~= next);
                if self.history_index.is_some() {
                    self.refresh_recalled();
                    proof {
                        let replies = choose|replies: Replies|
                            #![trigger next.recalled(replies)]
                            self@ == next.recalled(replies) && answers(installed, replies);
                        assert((self@, OutcomeView::Changed) == before.edited(
                            key,
                            *measured,
                            replies,
                        ));
                    }
                } else {
                    self.refresh();
                    proof {
                        let replies = choose|replies: Replies|
                            #![trigger next.refreshed(replies)]
                            self@ == next.refreshed(replies) && answers(installed, replies);
                        assert((self@, OutcomeView::Changed) == before.edited(
                            key,
                            *measured,
                            replies,
                        ));
                    }
                }
                EditOutcome::Changed
            },
            BufferOutcome::Ignored => {
                assert((self@, OutcomeView::Ignored) == before.edited(
                    key,
                    *measured,
                    silence(TabView::Pass),
                ));
                EditOutcome::Ignored
            },
        }
    }
}

/// What an editor makes of answers does not depend on what they say of Tab.
proof fn retelling(editor: EditorView, replies: Replies, tab: TabView)
    ensures
        editor.refreshed(Replies { tab, ..replies }) == editor.refreshed(replies),
        editor.recalled(Replies { tab, ..replies }) == editor.recalled(replies),
{
}

impl<C: EditorCompletion> Editor<C> {
    /// Applies a key that no dropdown takes.
    fn handle_without_picker(&mut self, key: Key, measured: &Measured) -> (outcome: EditOutcome)
        requires
            old(self).wf(),
            measured.measures(old(self)@.buffer.bytes, old(self)@.buffer.cursor),
        ensures
            final(self).wf(),
            final(self).completion is None <==> old(self).completion is None,
            talked(old(self).completion, old(self)@.talk, final(self)@.talk, final(self).completion),
            exists|replies: Replies|
                #![trigger old(self)@.unpicked(key, *measured, old(self).completion is Some, replies)]
                {
                    &&& (final(self)@, outcome@) == old(self)@.unpicked(
                        key,
                        *measured,
                        old(self).completion is Some,
                        replies,
                    )
                    &&& answers(old(self).completion is Some, replies)
                    &&& tab_answers(
                        old(self).completion is Some,
                        old(self)@.picker is Some,
                        replies,
                    )
                },
    {
        let ghost before = self@;
        let ghost installed = self.completion is Some;
        let ghost tab = plain_tab(before.picker is Some);
        let ghost lines = line_views(measured.lines@);
        let ctrl_r: bool = match key {
            Key::Ctrl(c) => c == 'r',
            _ => false,
        };
        if key == Key::Enter {
            let outcome: EditOutcome = self.submit();
            assert((self@, outcome@) == before.unpicked(
                key,
                *measured,
                installed,
                silence(tab),
            ));
            return outcome;
        }
        if key == Key::Tab {
            let outcome: EditOutcome = self.tab_complete();
            proof {
                let replies = choose|replies: Replies|
                    #![trigger before.tabbed(installed, replies)]
                    (self@, outcome@) == before.tabbed(installed, replies) && answers(
                        installed,
                        replies,
                    ) && tab_answers(installed, before.picker is Some, replies);
                assert((self@, outcome@) == before.unpicked(key, *measured, installed, replies));
            }
            return outcome;
        }
        if ctrl_r && self.options.history {
            let outcome: EditOutcome = self.history_search();
            proof {
                let replies = choose|replies: Replies|
                    #![trigger before.searched(replies)]
                    (self@, outcome@) == before.searched(replies) && answers(installed, replies);
                let told = Replies { tab, ..replies };
                assert forall|editor: EditorView| #[trigger]
                    editor.recalled(told) == editor.recalled(replies) by {
                    retelling(editor, replies, tab);
                }
                assert(before.searched(told) == before.searched(replies));
                assert((self@, outcome@) == before.unpicked(key, *measured, installed, told));
            }
            return outcome;
        }
        if key == Key::Up && self.options.history && self.history_gate_up(&measured.lines) {
            let outcome: EditOutcome = self.history_older();
            proof {
                let replies = choose|replies: Replies|
                    #![trigger before.older(replies)]
                    (self@, outcome@) == before.older(replies) && answers(installed, replies);
                let told = Replies { tab, ..replies };
                assert forall|editor: EditorView| #[trigger]
                    editor.recalled(told) == editor.recalled(replies) by {
                    retelling(editor, replies, tab);
                }
                assert(before.older(told) == before.older(replies));
                assert((self@, outcome@) == before.unpicked(key, *measured, installed, told));
            }
            return outcome;
        }
        if key == Key::Down && self.options.history && self.history_index.is_some()
            && self.buffer.on_last_row(&measured.lines) {
            let outcome: EditOutcome = self.history_newer();
            proof {
                let replies = choose|replies: Replies|
                    #![trigger before.newer(replies)]
                    (self@, outcome@) == before.newer(replies) && answers(installed, replies);
                let told = Replies { tab, ..replies };
                assert forall|editor: EditorView| #[trigger]
                    editor.recalled(told) == editor.recalled(replies) by {
                    retelling(editor, replies, tab);
                }
                assert(before.newer(told) == before.newer(replies));
                assert((self@, outcome@) == before.unpicked(key, *measured, installed, told));
            }
            return outcome;
        }
        let outcome: EditOutcome = self.edit(key, measured);
        proof {
            let replies = choose|replies: Replies|
                #![trigger before.edited(key, *measured, replies)]
                (self@, outcome@) == before.edited(key, *measured, replies) && answers(
                    installed,
                    replies,
                );
            let told = Replies { tab, ..replies };
            assert forall|editor: EditorView| #[trigger]
                editor.recalled(told) == editor.recalled(replies) by {
                retelling(editor, replies, tab);
            }
            assert forall|editor: EditorView| #[trigger]
                editor.refreshed(told) == editor.refreshed(replies) by {
                retelling(editor, replies, tab);
            }
            assert(before.edited(key, *measured, told) == before.edited(key, *measured, replies));
            assert((self@, outcome@) == before.unpicked(key, *measured, installed, told));
        }
        outcome
    }

    /// Selects another row of the open dropdown.
    pub fn select_row(&mut self, row: usize)
        requires
            old(self).wf(),
            old(self)@.picker matches Some(open) && row < open.suggestions.len(),
        ensures
            final(self).wf(),
            final(self).completion == old(self).completion,
            final(self)@ == old(self)@.with_selected(row as int),
    {
        let ghost before = self@;
        match self.picker.take() {
            Some(open) => {
                let mut picker: Picker = open;
                picker.selected = row;
                assert(picker@ =~= (PickerView { selected: row as int, ..open@ }));
                self.picker = Some(picker);
                assert(self@ =~= before.with_selected(row as int));
            },
            None => {},
        }
    }

    /// The row that a key selects in the open dropdown.
    fn row_selected_by(&self, key: Key) -> (row: Option<usize>)
        requires
            self.wf(),
        ensures
            crate::buffer::offset_view(row) == self@.selected_by(key),
            row matches Some(at) ==> (self@.picker matches Some(open) && at
                < open.suggestions.len()),
    {
        match &self.picker {
            None => None,
            Some(open) => {
                let count: usize = open.suggestions.len();
                assert(open@.suggestions.len() == count);
                match key {
                    Key::Up => Some(
                        if open.selected == 0 {
                            count - 1
                        } else {
                            open.selected - 1
                        },
                    ),
                    Key::Down => Some(
                        if open.selected + 1 == count {
                            0
                        } else {
                            open.selected + 1
                        },
                    ),
                    Key::PageUp => Some(
                        if open.selected >= open.rows {
                            open.selected - open.rows
                        } else {
                            0
                        },
                    ),
                    Key::PageDown => Some(
                        if open.rows > count - 1 - open.selected {
                            count - 1
                        } else {
                            open.selected + open.rows
                        },
                    ),
                    _ => None,
                }
            },
        }
    }

    /// Whether the cursor is at the end of its logical line.
    fn cursor_at_logical_line_end(&self) -> (yes: bool)
        requires
            self.wf(),
        ensures
            yes == self@.at_line_end(),
    {
        let bytes: &[u8] = self.buffer.text.as_str().as_bytes();
        self.buffer.cursor == bytes.len() || bytes[self.buffer.cursor] == 10
    }

    /// Applies one decoded editor key; `measured` holds the clusters of the
    /// text around the cursor.
    ///
    /// While the dropdown is open, navigation and acceptance keys drive
    /// it and `Esc` closes it; every other key edits the buffer as usual.
    pub fn handle(&mut self, key: Key, measured: &Measured) -> (outcome: EditOutcome)
        requires
            old(self).wf(),
            measured.measures(old(self)@.buffer.bytes, old(self)@.buffer.cursor),
        ensures
            final(self).wf(),
            final(self).completion is None <==> old(self).completion is None,
            talked(old(self).completion, old(self)@.talk, final(self)@.talk, final(self).completion),
            exists|replies: Replies|
                #![trigger old(self)@.handled(key, *measured, old(self).completion is Some, replies)]
                {
                    &&& (final(self)@, outcome@) == old(self)@.handled(
                        key,
                        *measured,
                        old(self).completion is Some,
                        replies,
                    )
                    &&& answers(old(self).completion is Some, replies)
                    &&& tab_answers(
                        old(self).completion is Some,
                        old(self)@.picker is Some,
                        replies,
                    )
                },
    {
        let ghost before = self@;
        let ghost installed = self.completion is Some;
        let ghost tab = plain_tab(before.picker is Some);
        if self.picker.is_some() {
            if key == Key::Esc {
                self.picker = None;
                assert(self@ =~= (EditorView { picker: None, ..before }));
                assert((self@, OutcomeView::Changed) == before.handled(
                    key,
                    *measured,
                    installed,
                    silence(tab),
                ));
                return EditOutcome::Changed;
            }
            if let Some(row) = self.row_selected_by(key) {
                self.select_row(row);
                assert((self@, OutcomeView::Changed) == before.handled(
                    key,
                    *measured,
                    installed,
                    silence(tab),
                ));
                return EditOutcome::Changed;
            }
            if key == Key::Enter {
                if self.picker_enter_submits() {
                    self.accept_for_submit();
                    let ghost ready = self@;
                    let outcome: EditOutcome = self.submit();
                    proof {
                        let replies = choose|replies: Replies|
                            #![trigger before.accepted_for_submit(installed, replies)]
                            ready == before.accepted_for_submit(installed, replies) && answers(
                                installed,
                                replies,
                            );
                        let told = Replies { tab, ..replies };
                        assert(before.accepted_for_submit(installed, told)
                            == before.accepted_for_submit(installed, replies));
                        assert((self@, outcome@) == before.handled(
                            key,
                            *measured,
                            installed,
                            told,
                        ));
                    }
                    return outcome;
                }
                let outcome: EditOutcome = self.accept_picker();
                proof {
                    let replies = choose|replies: Replies|
                        #![trigger before.accepted(installed, replies)]
                        (self@, outcome@) == before.accepted(installed, replies) && answers(
                            installed,
                            replies,
                        );
                    let told = Replies { tab, ..replies };
                    assert forall|editor: EditorView| #[trigger]
                        editor.refreshed(told) == editor.refreshed(replies) by {
                        retelling(editor, replies, tab);
                    }
                    assert(before.accepted(installed, told) == before.accepted(
                        installed,
                        replies,
                    ));
                    assert((self@, outcome@) == before.handled(key, *measured, installed, told));
                }
                return outcome;
            }
            if key == Key::Tab || key == Key::Right && self.cursor_at_logical_line_end() {
                let outcome: EditOutcome = self.tab_complete();
                proof {
                    let replies = choose|replies: Replies|
                        #![trigger before.tabbed(installed, replies)]
                        (self@, outcome@) == before.tabbed(installed, replies) && answers(
                            installed,
                            replies,
                        ) && tab_answers(installed, before.picker is Some, replies);
                    assert((self@, outcome@) == before.handled(
                        key,
                        *measured,
                        installed,
                        replies,
                    ));
                }
                return outcome;
            }
        }
        let outcome: EditOutcome = self.handle_without_picker(key, measured);
        proof {
            let replies = choose|replies: Replies|
                #![trigger before.unpicked(key, *measured, installed, replies)]
                (self@, outcome@) == before.unpicked(key, *measured, installed, replies) && answers(
                    installed,
                    replies,
                ) && tab_answers(installed, before.picker is Some, replies);
            assert((self@, outcome@) == before.handled(key, *measured, installed, replies));
        }
        outcome
    }

    /// Applies one decoded terminal key.
    pub fn handle_key(&mut self, key: Key, measured: &Measured) -> (outcome: EditOutcome)
        requires
            old(self).wf(),
            measured.measures(old(self)@.buffer.bytes, old(self)@.buffer.cursor),
        ensures
            final(self).wf(),
            final(self).completion is None <==> old(self).completion is None,
            talked(old(self).completion, old(self)@.talk, final(self)@.talk, final(self).completion),
            exists|replies: Replies|
                #![trigger old(self)@.handled(key, *measured, old(self).completion is Some, replies)]
                {
                    &&& (final(self)@, outcome@) == old(self)@.handled(
                        key,
                        *measured,
                        old(self).completion is Some,
                        replies,
                    )
                    &&& answers(old(self).completion is Some, replies)
                    &&& tab_answers(
                        old(self).completion is Some,
                        old(self)@.picker is Some,
                        replies,
                    )
                },
    {
        self.handle(key, measured)
    }
}

/// Nothing of a text without outer whitespace is left only where it is blank.
proof fn stripped_is_not_blank(text: Seq<char>)
    ensures
        all_whitespace(stripped(text)) <==> stripped(text).len() == 0,
{
    let rest = lead_trimmed(text);
    lead_trimmed_facts(text);
    if rest.len() > 0 {
        trimming_keeps_the_first(rest);
        first_survives_trimming(rest);
    }
}

/// The text without leading whitespace does not start with whitespace.
proof fn lead_trimmed_facts(text: Seq<char>)
    ensures
        lead_trimmed(text).len() > 0 ==> !whitespace(lead_trimmed(text)[0]),
    decreases text.len(),
{
    if text.len() > 0 && whitespace(text[0]) {
        lead_trimmed_facts(text.drop_first());
    }
}

/// Trimming at the end leaves the first character where anything is left.
proof fn first_survives_trimming(text: Seq<char>)
    requires
        text.len() > 0,
    ensures
        trimmed(text).len() > 0 ==> trimmed(text)[0] == text[0],
    decreases text.len(),
{
    if whitespace(text.last()) {
        if text.len() > 1 {
            first_survives_trimming(text.drop_last());
        } else {
            assert(trimmed(text.drop_last()).len() == 0);
        }
    }
}

/// The editor after `steps` steps to older prompts.
pub open spec fn gone_back(editor: EditorView, replies: Replies, steps: nat) -> EditorView
    decreases steps,
{
    if steps == 0 {
        editor
    } else {
        gone_back(editor, replies, (steps - 1) as nat).older(replies).0
    }
}

/// The editor after `steps` steps to newer prompts.
pub open spec fn come_forth(editor: EditorView, replies: Replies, steps: nat) -> EditorView
    decreases steps,
{
    if steps == 0 {
        editor
    } else {
        come_forth(editor.newer(replies).0, replies, (steps - 1) as nat)
    }
}

/// Steps back browse the prompts one by one and keep the draft.
proof fn going_back_keeps_the_draft(editor: EditorView, replies: Replies, steps: nat)
    requires
        editor.history_index is None,
        0 < steps <= editor.history.len(),
    ensures
        ({
            let after = gone_back(editor, replies, steps);
            &&& after.history_index == Some(steps - 1)
            &&& after.history_query is None
            &&& after.history_draft == decode_utf8(editor.buffer.bytes)
            &&& after.history == editor.history
        }),
    decreases steps,
{
    if steps > 1 {
        going_back_keeps_the_draft(editor, replies, (steps - 1) as nat);
    } else {
        assert(gone_back(editor, replies, 0) == editor);
    }
}

/// As many steps forth as the prompt lies back end at the draft.
proof fn coming_forth_ends_at_the_draft(editor: EditorView, replies: Replies, steps: nat)
    requires
        0 < steps <= editor.history.len(),
        editor.history_index == Some(steps - 1),
        editor.history_query is None,
    ensures
        come_forth(editor, replies, steps).buffer.bytes == utf8(editor.history_draft),
        come_forth(editor, replies, steps).history_index is None,
    decreases steps,
{
    let next = editor.newer(replies).0;
    if steps > 1 {
        coming_forth_ends_at_the_draft(next, replies, (steps - 1) as nat);
    } else {
        assert(come_forth(next, replies, 0) == next);
    }
}

/// A key that is said to step the history does: Up to the next older prompt,
/// Down to the next newer one or back to the draft.
pub proof fn announced_keys_step_the_history(
    editor: EditorView,
    key: Key,
    measured: Measured,
    installed: bool,
    replies: Replies,
)
    requires
        editor.navigates(key, line_views(measured.lines@)),
    ensures
        editor.handled(key, measured, installed, replies) == (if key == Key::Up {
            editor.older(replies)
        } else {
            editor.newer(replies)
        }),
{
}

/// However far back the history is browsed, as many steps forth restore the
/// draft.
pub proof fn history_restores_the_draft(
    editor: EditorView,
    back: Replies,
    forth: Replies,
    steps: nat,
)
    requires
        editor.history_index is None,
        0 < steps <= editor.history.len(),
        valid_utf8(editor.buffer.bytes),
    ensures
        ({
            let after = come_forth(gone_back(editor, back, steps), forth, steps);
            after.buffer.bytes == editor.buffer.bytes && after.history_index is None
        }),
{
    decode_utf8_encode_utf8(editor.buffer.bytes);
    going_back_keeps_the_draft(editor, back, steps);
    coming_forth_ends_at_the_draft(gone_back(editor, back, steps), forth, steps);
}

/// After every edit the engine is asked for rows and for ghost text, about the
/// text and the cursor as the edit left them.
pub proof fn edits_consult_the_engine(
    editor: EditorView,
    key: Key,
    measured: Measured,
    replies: Replies,
)
    requires
        editor.edited(key, measured, replies).1 == OutcomeView::Changed,
    ensures
        ({
            let after = editor.edited(key, measured, replies).0;
            let text = after.buffer.bytes;
            let cursor = after.buffer.cursor;
            &&& after.talk.take(editor.talk.len() as int) == editor.talk
            &&& after.talk[editor.talk.len() as int] == (Exchange::Suggest {
                text,
                cursor,
                found: replies.suggestions,
            })
            &&& after.talk.last() == (Exchange::Hint { text, cursor, hint: replies.hint })
            &&& after.hint == replies.hint
        }),
{
    let after = editor.edited(key, measured, replies).0;
    assert(after.talk.take(editor.talk.len() as int) =~= editor.talk);
}

/// What a refresh shows is what the installed engine may offer for the present
/// text and cursor; without an engine nothing is offered.
pub proof fn refreshes_show_what_the_engine_offers<C: EditorCompletion>(
    before: Option<C>,
    editor: EditorView,
    replies: Replies,
    after: Option<C>,
)
    requires
        talked(before, editor.talk, editor.refreshed(replies).talk, after),
    ensures
        match before {
            Some(engine) => exists|next: C| #[trigger]
                engine.may_suggest(
                    editor.buffer.bytes,
                    editor.buffer.cursor,
                    replies.suggestions,
                    &next,
                ),
            None => replies.suggestions is None && replies.hint is None,
        },
        match after {
            Some(engine) => exists|last: C| #[trigger]
                last.may_hint(editor.buffer.bytes, editor.buffer.cursor, replies.hint, &engine),
            None => before is None,
        },
{
    let text = editor.buffer.bytes;
    let cursor = editor.buffer.cursor;
    let start = editor.talk;
    let end = editor.refreshed(replies).talk;
    let hinted = end.drop_last();
    let asked = start.push(Exchange::Suggest { text, cursor, found: replies.suggestions });
    assert(asked.drop_last() =~= start);
    let third = choose|between: Option<C>|
        talked(before, start, hinted, between) && #[trigger] exchanged(between, end.last(), after);
    if hinted.len() == asked.len() {
        assert(hinted =~= asked);
        offer_comes_first(before, start, asked, third);
    } else {
        assert(hinted.drop_last() =~= asked);
        let second = choose|between: Option<C>|
            talked(before, start, asked, between) && #[trigger] exchanged(
                between,
                hinted.last(),
                third,
            );
        assert(hinted.len() == start.len() + 2);
        assert(talked(before, start, asked, second));
        offer_comes_first(before, start, asked, second);
    }
}

/// The engine that answers first is the one that the talk starts with.
proof fn offer_comes_first<C: EditorCompletion>(
    before: Option<C>,
    start: Seq<Exchange>,
    asked: Seq<Exchange>,
    after: Option<C>,
)
    requires
        talked(before, start, asked, after),
        asked.len() == start.len() + 1,
        asked.drop_last() == start,
    ensures
        exchanged(before, asked.last(), after),
{
    let first = choose|between: Option<C>|
        talked(before, start, asked.drop_last(), between) && #[trigger] exchanged(
            between,
            asked.last(),
            after,
        );
    assert(talked(before, start, start, first));
}

/// A recalled prompt opens no dropdown, so the next step browses on.
pub proof fn recalls_open_no_dropdown(editor: EditorView, replies: Replies)
    requires
        editor.picker is None,
    ensures
        editor.older(replies).0.picker is None,
        editor.newer(replies).0.picker is None,
        editor.searched(replies).0.picker is None,
{
}

/// Accepting a row that is already typed closes the dropdown and leaves the
/// text alone, so the next Enter acts on the finished text.
pub proof fn finished_rows_close_the_dropdown(
    editor: EditorView,
    installed: bool,
    replies: Replies,
)
    requires
        editor.picker matches Some(open) && editor.buffer.bytes.subrange(open.start, open.end)
            == utf8(open.suggestions[open.selected].value),
    ensures
        editor.accepted(installed, replies).0.picker is None,
        editor.accepted(installed, replies).0.buffer == editor.buffer,
{
}

/// A dropdown that was made for another text, cursor or query is closed
/// without touching the text.
pub proof fn stale_dropdowns_never_edit(editor: EditorView, installed: bool, replies: Replies)
    requires
        editor.picker matches Some(open) && !editor.current(open),
    ensures
        editor.accepted(installed, replies).0.buffer == editor.buffer,
        editor.accepted(installed, replies).0.picker is None,
        editor.accepted_for_submit(installed, replies).buffer == editor.buffer,
{
}

/// No dropdown opens over an atom.
pub proof fn dropdowns_keep_clear_of_atoms(editor: EditorView, replies: Replies)
    ensures
        editor.refreshed(replies).picker matches Some(open) ==> crate::editor::clear_of_atoms(
            editor.buffer.atoms,
            open.start,
            open.end,
        ),
{
}

/// A remembered prompt comes first, stands once, and the history keeps within
/// its capacity.
pub proof fn prompts_are_remembered_once(history: Seq<Seq<char>>, entry: Seq<char>)
    ensures
        remembered(history, entry).len() <= HISTORY_CAPACITY,
        remembered(history, entry)[0] == entry,
        forall|i: int|
            0 < i < remembered(history, entry).len() ==> #[trigger] remembered(history, entry)[i]
                != entry,
{
    let keep = other_than(entry);
    let kept = history.filter(keep);
    crate::atoms::filter_keeps(history, keep, |other: Seq<char>| true);
    assert forall|i: int| 0 < i < remembered(history, entry).len() implies #[trigger] remembered(
        history,
        entry,
    )[i] != entry by {
        assert(remembered(history, entry)[i] == kept[i - 1]);
        assert(keep(kept[i - 1]));
    }
}

} // verus!
