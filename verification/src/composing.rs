//! The editor's programmatic edits, volatile previews and viewport.

use vstd::prelude::*;
use vstd::string::*;

use crate::buffer::{range_view, BufferOutcome, BufferView};
use crate::completion::{
    clamped_rows, plain_suggestion, talked, EditorCompletion, EditorOptions, Picker, PickerView,
    Suggestion, TabView,
};
use crate::editor::{
    answers, boundary_before, EditOutcome, Editor, EditorView, OutcomeView, Replies,
    Volatile, VolatileView, MAX_INPUT_ROWS,
};
use crate::emoji::{entry_views, EmojiEntry};
use crate::layout::{
    cursor_row, find_line_end, find_line_start, line_end, line_end_is_boundary, line_start,
    line_start_is_boundary, line_views, lines_measured, segments_of, tiles, Glyph, Measured,
};
use crate::motion::{at_least_one, clamped, positive_width, VisualRow};
use crate::prompting::silence;
use crate::ranges::{listed, RangeList};
use crate::references::{atoms_hold, ranges_hold, reference_views};
use crate::strings::{
    at_boundary, boundary, ends_are_boundaries, same_text, slice_text, utf8,
};

verus! {

impl EditorView {
    /// The editor with its text edited.
    pub open spec fn with_buffer(self, edit: (BufferView, BufferOutcome)) -> Self {
        EditorView { buffer: edit.0, ..self }
    }

    /// The editor with its text edited, and completion asked for anew where
    /// that changed anything.
    pub open spec fn changed_buffer(self, edit: (BufferView, BufferOutcome), replies: Replies) -> (
        Self,
        OutcomeView,
    ) {
        if edit.1 == BufferOutcome::Changed {
            (self.with_buffer(edit).refreshed(replies), OutcomeView::Changed)
        } else {
            (self.with_buffer(edit), OutcomeView::Ignored)
        }
    }

    /// The editor with other text.
    pub open spec fn with_text(self, bytes: Seq<u8>) -> Self {
        EditorView {
            volatile: None,
            volatile_cursor: true,
            buffer: self.buffer.externally_replaced(bytes, false),
            ..self.unbrowsed()
        }
    }

    /// The editor with other feature switches.
    pub open spec fn with_options(self, options: EditorOptions) -> Self {
        let ready = if options.history {
            self
        } else {
            self.unbrowsed()
        };
        EditorView {
            options,
            buffer: BufferView { xml: options.xml, ..self.buffer },
            ..ready
        }
    }

    /// The editor with a range of its text replaced.
    pub open spec fn with_edit(self, start: int, end: int, insert: Seq<u8>) -> Self {
        EditorView { buffer: self.buffer.with_replaced(start, end, insert), ..self.unbrowsed() }
    }

    /// The editor with the cursor on a visible row and column.
    pub open spec fn placed_on(
        self,
        row: int,
        column: u16,
        width: u16,
        lines: Seq<Seq<Glyph>>,
    ) -> Self {
        let sized = BufferView { layout_width: at_least_one(width), ..self.buffer };
        EditorView {
            buffer: sized.placed(self.buffer.visual_position(row, column, width, lines)),
            ..self
        }
    }

    /// The editor with the selection extended to a visible row and column.
    pub open spec fn extended_on(
        self,
        row: int,
        column: u16,
        width: u16,
        lines: Seq<Seq<Glyph>>,
    ) -> Self {
        let sized = BufferView { layout_width: at_least_one(width), ..self.buffer };
        EditorView {
            buffer: sized.extended_to(self.buffer.visual_position(row, column, width, lines)),
            ..self
        }
    }

    /// The editor with the word on a visible row and column selected.
    pub open spec fn word_on(
        self,
        row: int,
        column: u16,
        width: u16,
        lines: Seq<Seq<Glyph>>,
        before: Seq<Glyph>,
        after: Seq<Glyph>,
    ) -> Self {
        let sized = BufferView { layout_width: at_least_one(width), ..self.buffer };
        EditorView {
            buffer: sized.word_selected(
                self.buffer.visual_position(row, column, width, lines),
                before,
                after,
            ),
            ..self
        }
    }

    /// The editor laid out at a width and height.
    pub open spec fn laid_out(self, width: u16, max_rows: usize) -> Self {
        EditorView {
            width: at_least_one(width),
            page_rows: if max_rows == 0 {
                1
            } else {
                max_rows
            },
            ..self
        }
    }

    /// The dropdown that offers replacements for a range.
    pub open spec fn replacements(self, start: int, end: int, items: Seq<Seq<char>>) -> PickerView {
        let rows = clamped_rows(self.options.picker_rows) as int;
        let shown = if items.len() > rows {
            items.take(rows)
        } else {
            items
        };
        PickerView {
            start,
            end,
            suggestions: shown.map_values(|item: Seq<char>| plain_suggestion(item, item)),
            selected: 0,
            source_generation: self.generation,
            source_text: self.buffer.bytes,
            source_cursor: self.buffer.cursor,
            cursor_offset: if self.buffer.cursor > end {
                self.buffer.cursor - end
            } else {
                0
            },
            provided: false,
            rows,
        }
    }

    /// The editor after the wheel turned over the open dropdown.
    pub open spec fn wheeled(self, down: bool) -> (Self, OutcomeView) {
        match self.picker {
            None => (self, OutcomeView::Ignored),
            Some(open) => {
                let next = clamped(
                    if down {
                        open.selected + 1
                    } else {
                        open.selected - 1
                    },
                    0,
                    open.suggestions.len() - 1,
                );
                if next == open.selected {
                    (self, OutcomeView::Ignored)
                } else {
                    (self.with_selected(next), OutcomeView::Changed)
                }
            },
        }
    }

    /// The editor after a row of the open dropdown was clicked.
    pub open spec fn clicked(self, index: int, installed: bool, replies: Replies) -> (
        Self,
        OutcomeView,
    ) {
        if self.picker matches Some(open) && index < open.suggestions.len() {
            self.with_selected(index).accepted(installed, replies)
        } else {
            (self, OutcomeView::Ignored)
        }
    }

    /// Whether replacements may be offered for a range: some text at or before
    /// the cursor.
    pub open spec fn replaceable(self, start: int, end: int) -> bool {
        start < end && self.buffer.cuts(start, end) && start <= self.buffer.cursor
    }

    /// Where the volatile preview stands, where the text still holds it, else
    /// the cursor.
    pub open spec fn preview_range(self) -> (int, int) {
        match self.volatile {
            Some(span) => if self.holds_preview(span) {
                (span.start, span.end)
            } else {
                (self.buffer.cursor, self.buffer.cursor)
            },
            None => (self.buffer.cursor, self.buffer.cursor),
        }
    }

    /// Whether the text still holds a preview.
    pub open spec fn holds_preview(self, span: VolatileView) -> bool {
        self.buffer.cuts(span.start, span.end) && self.buffer.bytes.subrange(span.start, span.end)
            == span.bytes
    }

    /// The editor showing a volatile preview with a selection inside it.
    pub open spec fn previewing(self, insert: Seq<u8>, selection: Option<(int, int)>) -> Self {
        let (from, to) = self.preview_range();
        let (buffer, (start, end)) = self.buffer.transiently_replaced(from, to, insert);
        let kept = buffer.bytes.subrange(start, end);
        let placed = match selection {
            None => buffer,
            Some((first, last)) => {
                let a = boundary_before(kept, clamped(first, 0, kept.len() as int));
                let b = boundary_before(kept, clamped(last, 0, kept.len() as int));
                let (low, high) = if a <= b {
                    (a, b)
                } else {
                    (b, a)
                };
                BufferView {
                    cursor: start + high,
                    anchor: if low != high {
                        Some(start + low)
                    } else {
                        None
                    },
                    ..buffer
                }
            },
        };
        EditorView {
            buffer: placed,
            volatile: if start < end {
                Some(VolatileView { start, end, bytes: kept })
            } else {
                None
            },
            volatile_cursor: selection is Some,
            ..self.unbrowsed()
        }
    }

    /// The editor showing a volatile preview, with the caret kept in its place
    /// around it.
    pub open spec fn transcribing(self, insert: Seq<u8>) -> Self {
        EditorView { volatile_cursor: true, ..self.previewing(insert, None) }
    }

    /// The editor without its volatile preview, before completion is asked for
    /// anew; the flag tells whether there was one to take out.
    pub open spec fn preview_cleared(self) -> (Self, bool) {
        let bare = EditorView { volatile: None, volatile_cursor: true, ..self };
        match self.volatile {
            Some(span) => if self.holds_preview(span) {
                (
                    EditorView {
                        buffer: self.buffer.transiently_replaced(
                            span.start,
                            span.end,
                            Seq::empty(),
                        ).0,
                        ..bare
                    },
                    true,
                )
            } else {
                (bare, false)
            },
            None => (bare, false),
        }
    }

    /// The editor with its volatile preview made final, before completion is
    /// asked for anew; the flag tells whether anything changed.
    pub open spec fn preview_committed(self, insert: Seq<u8>) -> (Self, bool) {
        let bare = EditorView { volatile: None, volatile_cursor: true, ..self.unbrowsed() };
        if self.volatile matches Some(span) && self.holds_preview(span) {
            (
                EditorView {
                    buffer: self.buffer.committed(
                        self.volatile->0.start,
                        self.volatile->0.end,
                        insert,
                    ),
                    ..bare
                },
                true,
            )
        } else {
            let (buffer, outcome) = self.buffer.with_inserted(insert);
            (EditorView { buffer, ..bare }, outcome == BufferOutcome::Changed)
        }
    }
}

impl<C: EditorCompletion> Editor<C> {
    /// Installs a completion handler, replacing any previous one.
    pub fn set_completion(&mut self, completion: C)
        requires
            old(self).wf(),
        ensures
            final(self).wf(),
            final(self).completion is Some,
            talked(Some(completion), old(self)@.talk, final(self)@.talk, final(self).completion),
            exists|replies: Replies|
                #![trigger old(self)@.refreshed(replies)]
                final(self)@ == old(self)@.refreshed(replies),
    {
        let ghost installed = true;
        let ghost goal = self@;
        self.completion = Some(completion);
        assert(self@ =~= goal);
        self.refresh();
        proof {
            let replies = choose|replies: Replies|
                #![trigger goal.refreshed(replies)]
                self@ == goal.refreshed(replies) && answers(installed, replies);
            assert(self@ == goal.refreshed(replies));
        }
    }

    /// Replaces the editor text without adding an undo entry, preserving
    /// completion and history configuration. Leaves history browsing.
    pub fn set_text(&mut self, text: &str)
        requires
            old(self).wf(),
        ensures
            final(self).wf(),
            final(self).completion is None <==> old(self).completion is None,
            talked(old(self).completion, old(self)@.talk, final(self)@.talk, final(self).completion),
            exists|replies: Replies|
                #![trigger old(self)@.with_text(utf8(text@)).refreshed(replies)]
                {
                    &&& final(self)@ == old(self)@.with_text(utf8(text@)).refreshed(replies)
                    &&& answers(old(self).completion is Some, replies)
                },
    {
        let ghost installed = self.completion is Some;
        let ghost goal = self@.with_text(utf8(text@));
        self.history_index = None;
        self.history_query = None;
        self.volatile = None;
        self.volatile_cursor = true;
        self.buffer.replace_external(text, false);
        assert(self@ =~= goal);
        self.refresh();
        proof {
            let replies = choose|replies: Replies|
                #![trigger goal.refreshed(replies)]
                self@ == goal.refreshed(replies) && answers(installed, replies);
            assert(self@ == goal.refreshed(replies));
        }
    }

    /// Replaces the feature switches at runtime: an open dropdown re-queries
    /// so its window and built-in emoji source follow the new switches.
    pub fn set_options(&mut self, options: EditorOptions)
        requires
            old(self).wf(),
        ensures
            final(self).wf(),
            final(self).completion is None <==> old(self).completion is None,
            talked(old(self).completion, old(self)@.talk, final(self)@.talk, final(self).completion),
            exists|replies: Replies|
                #![trigger old(self)@.with_options(options).refreshed(replies)]
                {
                    &&& final(self)@ == old(self)@.with_options(options).refreshed(replies)
                    &&& answers(old(self).completion is Some, replies)
                },
    {
        let ghost installed = self.completion is Some;
        let ghost goal = self@.with_options(options);
        self.options = options;
        self.buffer.set_xml(options.xml);
        if !options.history {
            self.history_index = None;
            self.history_query = None;
        }
        assert(self@ =~= goal);
        self.refresh();
        proof {
            let replies = choose|replies: Replies|
                #![trigger goal.refreshed(replies)]
                self@ == goal.refreshed(replies) && answers(installed, replies);
            assert(self@ == goal.refreshed(replies));
        }
    }

    /// Applies a programmatic replacement (word completion, platform
    /// autocorrect) as one undo unit, leaving the cursor after `insert`,
    /// and re-queries completion state.
    pub fn apply_edit(&mut self, start: usize, end: usize, insert: &str)
        requires
            old(self).wf(),
            old(self)@.buffer.cuts(start as int, end as int),
        ensures
            final(self).wf(),
            final(self).completion is None <==> old(self).completion is None,
            talked(old(self).completion, old(self)@.talk, final(self)@.talk, final(self).completion),
            exists|replies: Replies|
                #![trigger old(self)@.with_edit(start as int, end as int, utf8(insert@)).refreshed(replies)]
                {
                    &&& final(self)@ == old(self)@.with_edit(start as int, end as int, utf8(insert@)).refreshed(replies)
                    &&& answers(old(self).completion is Some, replies)
                },
    {
        let ghost installed = self.completion is Some;
        let ghost goal = self@.with_edit(start as int, end as int, utf8(insert@));
        self.history_index = None;
        self.history_query = None;
        self.buffer.replace_range(start, end, insert);
        assert(self@ =~= goal);
        self.refresh();
        proof {
            let replies = choose|replies: Replies|
                #![trigger goal.refreshed(replies)]
                self@ == goal.refreshed(replies) && answers(installed, replies);
            assert(self@ == goal.refreshed(replies));
        }
    }

    /// Places the cursor on a visual input row and refreshes derived editor
    /// state.
    pub fn set_cursor_visual_row(
        &mut self,
        row: usize,
        column: u16,
        width: u16,
        lines: &Vec<Vec<Glyph>>,
    )
        requires
            old(self).wf(),
            lines_measured(line_views(lines@), old(self)@.buffer.bytes, 0, 0),
        ensures
            final(self).wf(),
            final(self).completion is None <==> old(self).completion is None,
            talked(old(self).completion, old(self)@.talk, final(self)@.talk, final(self).completion),
            exists|replies: Replies|
                #![trigger old(self)@.placed_on(row as int, column, width, line_views(lines@)).refreshed(replies)]
                {
                    &&& final(self)@ == old(self)@.placed_on(row as int, column, width, line_views(lines@)).refreshed(replies)
                    &&& answers(old(self).completion is Some, replies)
                },
    {
        let ghost installed = self.completion is Some;
        let ghost goal = self@.placed_on(row as int, column, width, line_views(lines@));
        self.buffer.set_cursor_visual_row(row, column, width, lines);
        assert(self@ =~= goal);
        self.refresh();
        proof {
            let replies = choose|replies: Replies|
                #![trigger goal.refreshed(replies)]
                self@ == goal.refreshed(replies) && answers(installed, replies);
            assert(self@ == goal.refreshed(replies));
        }
    }

    /// Extends the selection to a visual input row and refreshes derived state.
    pub fn extend_selection_visual_row(
        &mut self,
        row: usize,
        column: u16,
        width: u16,
        lines: &Vec<Vec<Glyph>>,
    )
        requires
            old(self).wf(),
            lines_measured(line_views(lines@), old(self)@.buffer.bytes, 0, 0),
        ensures
            final(self).wf(),
            final(self).completion is None <==> old(self).completion is None,
            talked(old(self).completion, old(self)@.talk, final(self)@.talk, final(self).completion),
            exists|replies: Replies|
                #![trigger old(self)@.extended_on(row as int, column, width, line_views(lines@)).refreshed(replies)]
                {
                    &&& final(self)@ == old(self)@.extended_on(row as int, column, width, line_views(lines@)).refreshed(replies)
                    &&& answers(old(self).completion is Some, replies)
                },
    {
        let ghost installed = self.completion is Some;
        let ghost goal = self@.extended_on(row as int, column, width, line_views(lines@));
        self.buffer.extend_selection_visual_row(row, column, width, lines);
        assert(self@ =~= goal);
        self.refresh();
        proof {
            let replies = choose|replies: Replies|
                #![trigger goal.refreshed(replies)]
                self@ == goal.refreshed(replies) && answers(installed, replies);
            assert(self@ == goal.refreshed(replies));
        }
    }

    /// Selects the word around a visual input position and refreshes derived
    /// state; `before` and `after` measure the text on both sides of it.
    pub fn select_word_visual_row(
        &mut self,
        row: usize,
        column: u16,
        width: u16,
        lines: &Vec<Vec<Glyph>>,
        before: &Vec<Glyph>,
        after: &Vec<Glyph>,
    )
        requires
            old(self).wf(),
            lines_measured(line_views(lines@), old(self)@.buffer.bytes, 0, 0),
            tiles(
                before@,
                old(self)@.buffer.bytes,
                0,
                old(self)@.buffer.visual_position(row as int, column, width, line_views(lines@)),
            ),
            tiles(
                after@,
                old(self)@.buffer.bytes,
                old(self)@.buffer.visual_position(row as int, column, width, line_views(lines@)),
                old(self)@.buffer.bytes.len() as int,
            ),
        ensures
            final(self).wf(),
            final(self).completion is None <==> old(self).completion is None,
            talked(old(self).completion, old(self)@.talk, final(self)@.talk, final(self).completion),
            exists|replies: Replies|
                #![trigger old(self)@.word_on(row as int, column, width, line_views(lines@), before@, after@).refreshed(replies)]
                {
                    &&& final(self)@ == old(self)@.word_on(row as int, column, width, line_views(lines@), before@, after@).refreshed(replies)
                    &&& answers(old(self).completion is Some, replies)
                },
    {
        let ghost installed = self.completion is Some;
        let ghost goal = self@.word_on(row as int, column, width, line_views(lines@), before@, after@);
        self.buffer.select_word_visual_row(row, column, width, lines, before, after);
        assert(self@ =~= goal);
        self.refresh();
        proof {
            let replies = choose|replies: Replies|
                #![trigger goal.refreshed(replies)]
                self@ == goal.refreshed(replies) && answers(installed, replies);
            assert(self@ == goal.refreshed(replies));
        }
    }

    /// Inserts text, made safe by the host, at the cursor (pastes, programmatic
    /// prefill).
    pub fn insert_text(&mut self, text: &str) -> (outcome: EditOutcome)
        requires
            old(self).wf(),
        ensures
            final(self).wf(),
            final(self).completion is None <==> old(self).completion is None,
            talked(old(self).completion, old(self)@.talk, final(self)@.talk, final(self).completion),
            exists|replies: Replies|
                #![trigger old(self)@.unbrowsed().with_buffer(old(self)@.buffer.with_inserted(utf8(text@))).refreshed(replies)]
                {
                    &&& (final(self)@, outcome@) == old(self)@.unbrowsed().changed_buffer(old(self)@.buffer.with_inserted(utf8(text@)), replies)
                    &&& answers(old(self).completion is Some, replies)
                },
    {
        let ghost installed = self.completion is Some;
        let ghost start = self@.unbrowsed();
        let ghost edit = self@.buffer.with_inserted(utf8(text@));
        self.history_index = None;
        self.history_query = None;
        let changed: BufferOutcome = self.buffer.insert_text(text);
        assert(self@ =~= start.with_buffer(edit));
        match changed {
            BufferOutcome::Changed => {
                self.refresh();
                proof {
                    let replies = choose|replies: Replies|
                        #![trigger start.with_buffer(edit).refreshed(replies)]
                        self@ == start.with_buffer(edit).refreshed(replies) && answers(
                            installed,
                            replies,
                        );
                    assert((self@, OutcomeView::Changed) == start.changed_buffer(edit, replies));
                }
                EditOutcome::Changed
            },
            BufferOutcome::Ignored => {
                let ghost replies = silence(TabView::Pass);
                let ghost asked = start.with_buffer(edit).refreshed(replies);
                assert((self@, OutcomeView::Ignored) == start.changed_buffer(edit, replies));
                EditOutcome::Ignored
            },
        }
    }

    /// Inserts an atomic reference at the cursor; see
    /// [`crate::buffer::EditBuffer::insert_reference`].
    pub fn insert_reference(&mut self, marker: &str, payload: &str) -> (outcome: EditOutcome)
        requires
            old(self).wf(),
        ensures
            final(self).wf(),
            final(self).completion is None <==> old(self).completion is None,
            talked(old(self).completion, old(self)@.talk, final(self)@.talk, final(self).completion),
            exists|replies: Replies|
                #![trigger old(self)@.unbrowsed().with_buffer(old(self)@.buffer.with_reference(marker@, payload@)).refreshed(replies)]
                {
                    &&& (final(self)@, outcome@) == old(self)@.unbrowsed().changed_buffer(old(self)@.buffer.with_reference(marker@, payload@), replies)
                    &&& answers(old(self).completion is Some, replies)
                },
    {
        let ghost installed = self.completion is Some;
        let ghost start = self@.unbrowsed();
        let ghost edit = self@.buffer.with_reference(marker@, payload@);
        self.history_index = None;
        self.history_query = None;
        let changed: BufferOutcome = self.buffer.insert_reference(marker, payload);
        assert(self@ =~= start.with_buffer(edit));
        match changed {
            BufferOutcome::Changed => {
                self.refresh();
                proof {
                    let replies = choose|replies: Replies|
                        #![trigger start.with_buffer(edit).refreshed(replies)]
                        self@ == start.with_buffer(edit).refreshed(replies) && answers(
                            installed,
                            replies,
                        );
                    assert((self@, OutcomeView::Changed) == start.changed_buffer(edit, replies));
                }
                EditOutcome::Changed
            },
            BufferOutcome::Ignored => {
                let ghost replies = silence(TabView::Pass);
                let ghost asked = start.with_buffer(edit).refreshed(replies);
                assert((self@, OutcomeView::Ignored) == start.changed_buffer(edit, replies));
                EditOutcome::Ignored
            },
        }
    }

    /// Inserts one paste/drop gesture's attachment references as one undo unit.
    pub fn insert_reference_group(
        &mut self,
        references: &Vec<(String, String)>,
        suffix: &str,
    ) -> (outcome: EditOutcome)
        requires
            old(self).wf(),
        ensures
            final(self).wf(),
            final(self).completion is None <==> old(self).completion is None,
            talked(old(self).completion, old(self)@.talk, final(self)@.talk, final(self).completion),
            exists|replies: Replies|
                #![trigger old(self)@.unbrowsed().with_buffer(old(self)@.buffer.with_references(reference_views(references@), utf8(suffix@))).refreshed(replies)]
                {
                    &&& (final(self)@, outcome@) == old(self)@.unbrowsed().changed_buffer(old(self)@.buffer.with_references(reference_views(references@), utf8(suffix@)), replies)
                    &&& answers(old(self).completion is Some, replies)
                },
    {
        let ghost installed = self.completion is Some;
        let ghost start = self@.unbrowsed();
        let ghost edit = self@.buffer.with_references(reference_views(references@), utf8(suffix@));
        self.history_index = None;
        self.history_query = None;
        let changed: BufferOutcome = self.buffer.insert_reference_group(references, suffix);
        assert(self@ =~= start.with_buffer(edit));
        match changed {
            BufferOutcome::Changed => {
                self.refresh();
                proof {
                    let replies = choose|replies: Replies|
                        #![trigger start.with_buffer(edit).refreshed(replies)]
                        self@ == start.with_buffer(edit).refreshed(replies) && answers(
                            installed,
                            replies,
                        );
                    assert((self@, OutcomeView::Changed) == start.changed_buffer(edit, replies));
                }
                EditOutcome::Changed
            },
            BufferOutcome::Ignored => {
                let ghost replies = silence(TabView::Pass);
                let ghost asked = start.with_buffer(edit).refreshed(replies);
                assert((self@, OutcomeView::Ignored) == start.changed_buffer(edit, replies));
                EditOutcome::Ignored
            },
        }
    }

    /// Moves the cursor to the start or end of the whole message.
    pub fn move_to_message_edge(&mut self, end: bool) -> (outcome: EditOutcome)
        requires
            old(self).wf(),
        ensures
            final(self).wf(),
            final(self).completion is None <==> old(self).completion is None,
            talked(old(self).completion, old(self)@.talk, final(self)@.talk, final(self).completion),
            exists|replies: Replies|
                #![trigger old(self)@.with_buffer(old(self)@.buffer.at_message_edge(end)).refreshed(replies)]
                {
                    &&& (final(self)@, outcome@) == old(self)@.changed_buffer(old(self)@.buffer.at_message_edge(end), replies)
                    &&& answers(old(self).completion is Some, replies)
                },
    {
        let ghost installed = self.completion is Some;
        let ghost start = self@;
        let ghost edit = self@.buffer.at_message_edge(end);
        let changed: BufferOutcome = self.buffer.move_to_message_edge(end);
        assert(self@ =~= start.with_buffer(edit));
        match changed {
            BufferOutcome::Changed => {
                self.refresh();
                proof {
                    let replies = choose|replies: Replies|
                        #![trigger start.with_buffer(edit).refreshed(replies)]
                        self@ == start.with_buffer(edit).refreshed(replies) && answers(
                            installed,
                            replies,
                        );
                    assert((self@, OutcomeView::Changed) == start.changed_buffer(edit, replies));
                }
                EditOutcome::Changed
            },
            BufferOutcome::Ignored => {
                let ghost replies = silence(TabView::Pass);
                let ghost asked = start.with_buffer(edit).refreshed(replies);
                assert((self@, OutcomeView::Ignored) == start.changed_buffer(edit, replies));
                EditOutcome::Ignored
            },
        }
    }

    /// Undoes the last meaningful edit, skipping snapshots that only carry
    /// the just-removed `transient` trigger text.
    pub fn undo_past_transient(&mut self, transient: &str) -> (outcome: EditOutcome)
        requires
            old(self).wf(),
        ensures
            final(self).wf(),
            final(self).completion is None <==> old(self).completion is None,
            talked(old(self).completion, old(self)@.talk, final(self)@.talk, final(self).completion),
            exists|replies: Replies|
                #![trigger old(self)@.unbrowsed().with_buffer(old(self)@.buffer.undone_past(utf8(transient@))).refreshed(replies)]
                {
                    &&& (final(self)@, outcome@) == old(self)@.unbrowsed().changed_buffer(old(self)@.buffer.undone_past(utf8(transient@)), replies)
                    &&& answers(old(self).completion is Some, replies)
                },
    {
        let ghost installed = self.completion is Some;
        let ghost start = self@.unbrowsed();
        let ghost edit = self@.buffer.undone_past(utf8(transient@));
        self.history_index = None;
        self.history_query = None;
        let changed: BufferOutcome = self.buffer.undo_past_transient(transient);
        assert(self@ =~= start.with_buffer(edit));
        match changed {
            BufferOutcome::Changed => {
                self.refresh();
                proof {
                    let replies = choose|replies: Replies|
                        #![trigger start.with_buffer(edit).refreshed(replies)]
                        self@ == start.with_buffer(edit).refreshed(replies) && answers(
                            installed,
                            replies,
                        );
                    assert((self@, OutcomeView::Changed) == start.changed_buffer(edit, replies));
                }
                EditOutcome::Changed
            },
            BufferOutcome::Ignored => {
                let ghost replies = silence(TabView::Pass);
                let ghost asked = start.with_buffer(edit).refreshed(replies);
                assert((self@, OutcomeView::Ignored) == start.changed_buffer(edit, replies));
                EditOutcome::Ignored
            },
        }
    }

    /// The largest boundary of the text between `start` and `end` that is at
    /// most `offset` bytes behind `start`.
    fn clamp_offset(&self, start: usize, end: usize, offset: usize) -> (at: usize)
        requires
            start <= end,
            boundary(self@.buffer.bytes, start as int),
            boundary(self@.buffer.bytes, end as int),
        ensures
            ({
                let kept = self@.buffer.bytes.subrange(start as int, end as int);
                at == boundary_before(kept, clamped(offset as int, 0, kept.len() as int))
            }),
            start + at <= end,
            boundary(self@.buffer.bytes, start + at),
    {
        let kept: &str = slice_text(self.buffer.text.as_str(), start, end);
        let size: usize = end - start;
        let mut at: usize = if offset < size {
            offset
        } else {
            size
        };
        let ghost first = at;
        proof {
            ends_are_boundaries(kept@);
        }
        while !at_boundary(kept, at)
            invariant
                at <= size,
                size == utf8(kept@).len(),
                boundary(utf8(kept@), 0),
                boundary_before(utf8(kept@), first as int) == boundary_before(
                    utf8(kept@),
                    at as int,
                ),
            decreases at,
        {
            at -= 1;
        }
        at
    }

    /// Where the volatile preview stands, where the text still holds it.
    fn held_preview(&self) -> (range: Option<(usize, usize)>)
        ensures
            match range {
                Some((start, end)) => self@.volatile matches Some(span) && self@.holds_preview(span)
                    && span.start == start && span.end == end,
                None => self@.volatile matches Some(span) ==> !self@.holds_preview(span),
            },
    {
        match &self.volatile {
            None => None,
            Some(span) => {
                let valid: bool = span.start <= span.end && at_boundary(
                    self.buffer.text.as_str(),
                    span.start,
                ) && at_boundary(self.buffer.text.as_str(), span.end);
                if !valid {
                    return None;
                }
                let kept: &str = slice_text(self.buffer.text.as_str(), span.start, span.end);
                let same: bool = same_text(kept, span.text.as_str());
                proof {
                    if !same && utf8(kept@) == utf8(span.text@) {
                        crate::strings::utf8_is_injective(kept@, span.text@);
                    }
                }
                if same {
                    Some((span.start, span.end))
                } else {
                    None
                }
            },
        }
    }

    /// Puts a volatile preview in, before completion is asked for anew.
    fn place_preview(&mut self, text: &str, selection: Option<(usize, usize)>)
        requires
            old(self).wf(),
        ensures
            final(self).wf(),
            final(self).completion == old(self).completion,
            final(self)@ == old(self)@.previewing(utf8(text@), range_view(selection)),
    {
        let ghost before = self@;
        let held: Option<(usize, usize)> = self.held_preview();
        let (from, to): (usize, usize) = match held {
            Some(range) => range,
            None => (self.buffer.cursor, self.buffer.cursor),
        };
        self.history_index = None;
        self.history_query = None;
        let (start, end): (usize, usize) = self.buffer.replace_transient_range(from, to, text);
        self.volatile_cursor = selection.is_some();
        if let Some((first, last)) = selection {
            let a: usize = self.clamp_offset(start, end, first);
            let b: usize = self.clamp_offset(start, end, last);
            let (low, high): (usize, usize) = if a <= b {
                (a, b)
            } else {
                (b, a)
            };
            self.buffer.cursor = start + high;
            self.buffer.anchor = if low != high {
                Some(start + low)
            } else {
                None
            };
        }
        self.volatile = if start < end {
            let kept: String = slice_text(self.buffer.text.as_str(), start, end).to_owned();
            Some(Volatile { start, end, text: kept })
        } else {
            None
        };
        assert(self@ =~= before.previewing(utf8(text@), range_view(selection)));
    }

    /// Shows or replaces one volatile native-IME preedit and applies the
    /// byte-indexed selection inside that preedit. `None` hides the insertion
    /// caret while the platform candidate picker owns it.
    pub fn set_volatile_text_selection(&mut self, text: &str, selection: Option<(usize, usize)>)
        requires
            old(self).wf(),
        ensures
            final(self).wf(),
            final(self).completion is None <==> old(self).completion is None,
            talked(old(self).completion, old(self)@.talk, final(self)@.talk, final(self).completion),
            exists|replies: Replies|
                #![trigger old(self)@.previewing(utf8(text@), range_view(selection)).refreshed(replies)]
                {
                    &&& final(self)@ == old(self)@.previewing(
                        utf8(text@),
                        range_view(selection),
                    ).refreshed(replies)
                    &&& answers(old(self).completion is Some, replies)
                },
    {
        let ghost installed = self.completion is Some;
        let ghost goal = self@.previewing(utf8(text@), range_view(selection));
        self.place_preview(text, selection);
        self.refresh();
        proof {
            let replies = choose|replies: Replies|
                #![trigger goal.refreshed(replies)]
                self@ == goal.refreshed(replies) && answers(installed, replies);
            assert(self@ == goal.refreshed(replies));
        }
    }

    /// Shows or replaces one volatile speech-recognition preview.
    ///
    /// Replacements do not enter undo history. The caret stays synchronized
    /// with its logical position around the span as its byte length changes.
    pub fn set_volatile_text(&mut self, text: &str)
        requires
            old(self).wf(),
        ensures
            final(self).wf(),
            final(self).completion is None <==> old(self).completion is None,
            talked(old(self).completion, old(self)@.talk, final(self)@.talk, final(self).completion),
            exists|replies: Replies|
                #![trigger old(self)@.transcribing(utf8(text@)).refreshed(replies)]
                {
                    &&& final(self)@ == old(self)@.transcribing(utf8(text@)).refreshed(replies)
                    &&& answers(old(self).completion is Some, replies)
                },
    {
        let ghost installed = self.completion is Some;
        let ghost goal = self@.transcribing(utf8(text@));
        self.place_preview(text, None);
        self.volatile_cursor = true;
        assert(self@ =~= goal);
        self.refresh();
        proof {
            let replies = choose|replies: Replies|
                #![trigger goal.refreshed(replies)]
                self@ == goal.refreshed(replies) && answers(installed, replies);
            assert(self@ == goal.refreshed(replies));
        }
    }

    /// Whether the retained editor should expose its hardware/native caret.
    #[must_use]
    pub fn caret_visible(&self) -> (visible: bool)
        ensures
            visible == self@.volatile_cursor,
    {
        self.volatile_cursor
    }

    /// Whether a volatile speech/IME span is currently retained.
    #[must_use]
    pub fn volatile_active(&self) -> (active: bool)
        ensures
            active == self@.volatile is Some,
    {
        self.volatile.is_some()
    }

    /// Discards the active volatile speech-recognition preview.
    pub fn clear_volatile_text(&mut self)
        requires
            old(self).wf(),
        ensures
            final(self).wf(),
            final(self).completion is None <==> old(self).completion is None,
            talked(old(self).completion, old(self)@.talk, final(self)@.talk, final(self).completion),
            exists|replies: Replies|
                #![trigger old(self)@.preview_cleared().0.refreshed(replies)]
                {
                    &&& final(self)@ == (if old(self)@.preview_cleared().1 {
                        old(self)@.preview_cleared().0.refreshed(replies)
                    } else {
                        old(self)@.preview_cleared().0
                    })
                    &&& answers(old(self).completion is Some, replies)
                },
    {
        let ghost before = self@;
        let ghost installed = self.completion is Some;
        let ghost goal = before.preview_cleared();
        let held: Option<(usize, usize)> = self.held_preview();
        self.volatile_cursor = true;
        self.volatile = None;
        match held {
            Some((start, end)) => {
                proof {
                    reveal_strlit("");
                    assert(utf8(""@) =~= Seq::<u8>::empty());
                }
                let _ = self.buffer.replace_transient_range(start, end, "");
                assert(self@ =~= goal.0);
                self.refresh();
                proof {
                    let replies = choose|replies: Replies|
                        #![trigger goal.0.refreshed(replies)]
                        self@ == goal.0.refreshed(replies) && answers(installed, replies);
                    assert(self@ == goal.0.refreshed(replies));
                }
            },
            None => {
                assert(self@ =~= goal.0);
                let ghost asked = goal.0.refreshed(silence(TabView::Pass));
            },
        }
    }

    /// Replaces the volatile preview with one undoable finalized segment.
    pub fn commit_volatile_text(&mut self, text: &str)
        requires
            old(self).wf(),
        ensures
            final(self).wf(),
            final(self).completion is None <==> old(self).completion is None,
            talked(old(self).completion, old(self)@.talk, final(self)@.talk, final(self).completion),
            exists|replies: Replies|
                #![trigger old(self)@.preview_committed(utf8(text@)).0.refreshed(replies)]
                {
                    &&& final(self)@ == (if old(self)@.preview_committed(utf8(text@)).1 {
                        old(self)@.preview_committed(utf8(text@)).0.refreshed(replies)
                    } else {
                        old(self)@.preview_committed(utf8(text@)).0
                    })
                    &&& answers(old(self).completion is Some, replies)
                },
    {
        let ghost before = self@;
        let ghost installed = self.completion is Some;
        let ghost goal = before.preview_committed(utf8(text@));
        let held: Option<(usize, usize)> = self.held_preview();
        self.history_index = None;
        self.history_query = None;
        self.volatile_cursor = true;
        self.volatile = None;
        let changed: bool = match held {
            Some((start, end)) => {
                self.buffer.commit_transient_range(start, end, text);
                true
            },
            None => match self.buffer.insert_text(text) {
                BufferOutcome::Changed => true,
                BufferOutcome::Ignored => false,
            },
        };
        assert(self@ =~= goal.0);
        assert(changed == goal.1);
        if changed {
            self.refresh();
            proof {
                let replies = choose|replies: Replies|
                    #![trigger goal.0.refreshed(replies)]
                    self@ == goal.0.refreshed(replies) && answers(installed, replies);
                assert(self@ == goal.0.refreshed(replies));
            }
        } else {
            let ghost asked = goal.0.refreshed(silence(TabView::Pass));
        }
    }

    /// Opens a replacement picker for a range at or before the cursor;
    /// acceptance replaces that range and preserves the cursor's trailing
    /// offset (for example, after a word-boundary space).
    pub fn show_replacements(&mut self, start: usize, end: usize, items: &Vec<String>) -> (shown: bool)
        requires
            old(self).wf(),
        ensures
            final(self).wf(),
            final(self).completion == old(self).completion,
            shown == (old(self)@.replaceable(start as int, end as int) && items.len() > 0),
            final(self)@ == (if shown {
                EditorView {
                    picker: Some(
                        old(self)@.replacements(
                            start as int,
                            end as int,
                            crate::commands::text_views(items@),
                        ),
                    ),
                    ..old(self)@
                }
            } else {
                old(self)@
            }),
    {
        let ghost before = self@;
        let ghost views = crate::commands::text_views(items@);
        let ghost goal = before.replacements(start as int, end as int, views);
        let cursor: usize = self.buffer.cursor;
        if start >= end || cursor < start || !at_boundary(self.buffer.text.as_str(), start)
            || !at_boundary(self.buffer.text.as_str(), end) {
            return false;
        }
        let rows: usize = self.options.picker_rows();
        let count: usize = if items.len() > rows {
            rows
        } else {
            items.len()
        };
        let mut suggestions: Vec<Suggestion> = Vec::new();
        let mut at: usize = 0;
        while at < count
            invariant
                at <= count <= items.len(),
                views == crate::commands::text_views(items@),
                suggestions.len() == at,
                forall|i: int|
                    0 <= i < at ==> (#[trigger] suggestions@[i])@ == plain_suggestion(
                        views[i],
                        views[i],
                    ),
            decreases count - at,
        {
            assert(views[at as int] == items@[at as int]@);
            suggestions.push(Suggestion::new(items[at].as_str(), items[at].as_str()));
            at += 1;
        }
        if suggestions.len() == 0 {
            return false;
        }
        let picker = Picker {
            start,
            end,
            suggestions,
            selected: 0,
            source_generation: self.completion_generation,
            source_text: self.buffer.text.clone(),
            source_cursor: cursor,
            cursor_offset: if cursor > end {
                cursor - end
            } else {
                0
            },
            provided: false,
            rows,
        };
        assert(picker@.suggestions =~= goal.suggestions);
        assert(picker@ =~= goal);
        self.picker = Some(picker);
        assert(self@ =~= (EditorView { picker: Some(goal), ..before }));
        true
    }

    /// Moves keyboard selection one row without wrapping, as a pointer wheel
    /// over the completion list does.
    pub fn wheel_picker(&mut self, down: bool) -> (outcome: EditOutcome)
        requires
            old(self).wf(),
        ensures
            final(self).wf(),
            final(self).completion == old(self).completion,
            (final(self)@, outcome@) == old(self)@.wheeled(down),
    {
        let (selected, count): (usize, usize) = match &self.picker {
            None => {
                return EditOutcome::Ignored;
            },
            Some(open) => {
                assert(open@.suggestions.len() == open.suggestions.len());
                (open.selected, open.suggestions.len())
            },
        };
        let next: usize = if down {
            if selected + 1 < count {
                selected + 1
            } else {
                selected
            }
        } else if selected > 0 {
            selected - 1
        } else {
            0
        };
        if next == selected {
            return EditOutcome::Ignored;
        }
        self.select_row(next);
        EditOutcome::Changed
    }

    /// Promotes one pointer row to keyboard selection and accepts it.
    pub fn click_picker(&mut self, index: usize) -> (outcome: EditOutcome)
        requires
            old(self).wf(),
        ensures
            final(self).wf(),
            final(self).completion is None <==> old(self).completion is None,
            talked(old(self).completion, old(self)@.talk, final(self)@.talk, final(self).completion),
            exists|replies: Replies|
                #![trigger old(self)@.clicked(index as int, old(self).completion is Some, replies)]
                {
                    &&& (final(self)@, outcome@) == old(self)@.clicked(
                        index as int,
                        old(self).completion is Some,
                        replies,
                    )
                    &&& answers(old(self).completion is Some, replies)
                },
    {
        let ghost before = self@;
        let ghost installed = self.completion is Some;
        let known: bool = match &self.picker {
            None => false,
            Some(open) => {
                assert(open@.suggestions.len() == open.suggestions.len());
                index < open.suggestions.len()
            },
        };
        if !known {
            assert((self@, OutcomeView::Ignored) == before.clicked(
                index as int,
                installed,
                silence(TabView::Pass),
            ));
            return EditOutcome::Ignored;
        }
        self.select_row(index);
        let ghost chosen = self@;
        let outcome: EditOutcome = self.accept_picker();
        proof {
            let replies = choose|replies: Replies|
                #![trigger chosen.accepted(installed, replies)]
                (self@, outcome@) == chosen.accepted(installed, replies) && answers(
                    installed,
                    replies,
                );
            assert((self@, outcome@) == before.clicked(index as int, installed, replies));
        }
        outcome
    }

    /// Supplies the emoji catalog.
    pub fn set_emojis(&mut self, emojis: Vec<EmojiEntry>)
        requires
            old(self).wf(),
        ensures
            final(self).wf(),
            final(self).completion == old(self).completion,
            final(self)@ == (EditorView { emojis: entry_views(emojis@), ..old(self)@ }),
    {
        self.emojis = emojis;
    }

    /// Returns the feature switches the editor was built with, so
    /// renderers can honor them (e.g. XML highlighting).
    pub fn options(&self) -> (options: EditorOptions)
        ensures
            options == self@.options,
    {
        self.options
    }

    /// Returns the visible text, with paste markers unexpanded.
    pub fn text(&self) -> (text: &str)
        ensures
            utf8(text@) == self@.buffer.bytes,
    {
        self.buffer.text()
    }

    /// Returns the visible text of the line containing the cursor, without
    /// its trailing newline, for host copy-line actions.
    pub fn current_line(&self) -> (line: &str)
        requires
            self.wf(),
        ensures
            utf8(line@) == self@.buffer.bytes.subrange(
                line_start(self@.buffer.bytes, self@.buffer.cursor),
                line_end(self@.buffer.bytes, self@.buffer.cursor),
            ),
    {
        let cursor: usize = self.buffer.cursor;
        let start: usize = find_line_start(self.buffer.text.as_str(), cursor);
        let end: usize = find_line_end(self.buffer.text.as_str(), cursor);
        proof {
            line_start_is_boundary(self.buffer.text@, cursor as int);
            line_end_is_boundary(self.buffer.text@, cursor as int);
        }
        slice_text(self.buffer.text.as_str(), start, end)
    }

    /// Returns the open completion dropdown, if any.
    pub fn picker(&self) -> (picker: Option<&Picker>)
        ensures
            match picker {
                Some(open) => self@.picker == Some(open@),
                None => self@.picker is None,
            },
    {
        match &self.picker {
            Some(open) => Some(open),
            None => None,
        }
    }

    /// Returns the rows the open completion dropdown occupies (0 when closed).
    pub fn picker_height(&self) -> (height: u16)
        requires
            self.wf(),
        ensures
            height == (match self@.picker {
                Some(open) => if open.rows_from(0, None).len() < open.rows {
                    open.rows_from(0, None).len() as int
                } else {
                    open.rows
                },
                None => 0,
            }),
    {
        match &self.picker {
            None => 0,
            Some(open) => {
                let shown = open.visible_rows();
                assert(crate::completion::picker_row_views(shown@).len() == shown.len());
                if shown.len() < open.rows {
                    shown.len() as u16
                } else {
                    open.rows as u16
                }
            },
        }
    }

    /// Returns the clipped input row count at `width`, remembering the
    /// width for subsequent key handling.
    pub fn input_height_for(&mut self, width: u16, lines: &Vec<Vec<Glyph>>) -> (height: u16)
        requires
            old(self).wf(),
            lines_measured(line_views(lines@), old(self)@.buffer.bytes, 0, 0),
        ensures
            final(self).wf(),
            final(self).completion == old(self).completion,
            final(self)@ == (EditorView {
                width: at_least_one(width),
                buffer: BufferView { layout_width: at_least_one(width), ..old(self)@.buffer },
                ..old(self)@
            }),
            height == ({
                let total = segments_of(
                    old(self)@.buffer.bytes,
                    line_views(lines@),
                    at_least_one(width) as int,
                ).len();
                if total < MAX_INPUT_ROWS {
                    total as int
                } else {
                    MAX_INPUT_ROWS as int
                }
            }),
    {
        self.last_layout_width = positive_width(width);
        self.buffer.visual_height(width, MAX_INPUT_ROWS, lines) as u16
    }

    /// Returns up to `max_rows` cursor-centered visible input rows at `width`.
    pub fn view_rows(&mut self, width: u16, max_rows: usize, measured: &Measured) -> (rows: Vec<
        VisualRow,
    >)
        requires
            old(self).wf(),
            measured.measures(old(self)@.buffer.bytes, old(self)@.buffer.cursor),
        ensures
            final(self).wf(),
            final(self).completion == old(self).completion,
            ({
                let all = segments_of(
                    old(self)@.buffer.bytes,
                    line_views(measured.lines@),
                    at_least_one(width) as int,
                );
                let first = old(self)@.buffer.centered_row(
                    all.len() as int,
                    cursor_row(all, old(self)@.buffer.cursor),
                    max_rows as int,
                );
                &&& rows.len() == (if all.len() < max_rows {
                    all.len() as int
                } else {
                    max_rows as int
                })
                &&& forall|i: int|
                    0 <= i < rows.len() ==> (#[trigger] rows@[i])@ == old(self)@.buffer.row_view(
                        all[first + i],
                        measured.before@,
                    )
                &&& final(self)@ == (EditorView {
                    buffer: BufferView {
                        layout_width: at_least_one(width),
                        view_offset: first,
                        ..old(self)@.buffer
                    },
                    ..old(self)@.laid_out(width, max_rows)
                })
            }),
    {
        let (rows, _) = self.view_rows_with_metrics(width, max_rows, measured);
        rows
    }

    /// Returns the cursor-centered visible input rows at `width`.
    pub fn visible_rows(&mut self, width: u16, measured: &Measured) -> (rows: Vec<VisualRow>)
        requires
            old(self).wf(),
            measured.measures(old(self)@.buffer.bytes, old(self)@.buffer.cursor),
        ensures
            final(self).wf(),
            final(self).completion == old(self).completion,
            ({
                let all = segments_of(
                    old(self)@.buffer.bytes,
                    line_views(measured.lines@),
                    at_least_one(width) as int,
                );
                let first = old(self)@.buffer.centered_row(
                    all.len() as int,
                    cursor_row(all, old(self)@.buffer.cursor),
                    MAX_INPUT_ROWS as int,
                );
                &&& rows.len() == (if all.len() < MAX_INPUT_ROWS {
                    all.len() as int
                } else {
                    MAX_INPUT_ROWS as int
                })
                &&& forall|i: int|
                    0 <= i < rows.len() ==> (#[trigger] rows@[i])@ == old(self)@.buffer.row_view(
                        all[first + i],
                        measured.before@,
                    )
                &&& final(self)@ == (EditorView {
                    buffer: BufferView {
                        layout_width: at_least_one(width),
                        view_offset: first,
                        ..old(self)@.buffer
                    },
                    ..old(self)@.laid_out(width, MAX_INPUT_ROWS)
                })
            }),
    {
        self.view_rows(width, MAX_INPUT_ROWS, measured)
    }

    /// Byte ranges of atomic markers present in the draft, ascending.
    pub fn atom_ranges(&self) -> (ranges: RangeList)
        requires
            self.wf(),
        ensures
            listed(ranges).len() == self@.buffer.atoms.len(),
            forall|i: int, j: int|
                0 <= i < j < listed(ranges).len() ==> (#[trigger] listed(ranges)[i]).1 <= (
                #[trigger] listed(ranges)[j]).0,
            forall|i: int|
                0 <= i < self@.buffer.atoms.len() ==> ranges_hold(
                    listed(ranges),
                    #[trigger] self@.buffer.atoms[i],
                ),
            forall|i: int|
                0 <= i < listed(ranges).len() ==> atoms_hold(
                    self@.buffer.atoms,
                    #[trigger] listed(ranges)[i],
                ),
    {
        self.buffer.atom_ranges()
    }

    /// Returns the cursor-centered visible input rows and `(first, visible,
    /// total)` viewport metrics from one wrapping pass.
    pub fn view_rows_with_metrics(&mut self, width: u16, max_rows: usize, measured: &Measured) -> (shown:
        (Vec<VisualRow>, (usize, usize, usize)))
        requires
            old(self).wf(),
            measured.measures(old(self)@.buffer.bytes, old(self)@.buffer.cursor),
        ensures
            final(self).wf(),
            final(self).completion == old(self).completion,
            ({
                let all = segments_of(
                    old(self)@.buffer.bytes,
                    line_views(measured.lines@),
                    at_least_one(width) as int,
                );
                let (first, visible, total) = shown.1;
                &&& total == all.len()
                &&& visible == (if all.len() < max_rows {
                    all.len() as int
                } else {
                    max_rows as int
                })
                &&& first == old(self)@.buffer.centered_row(
                    all.len() as int,
                    cursor_row(all, old(self)@.buffer.cursor),
                    max_rows as int,
                )
                &&& shown.0.len() == visible
                &&& forall|i: int|
                    0 <= i < visible ==> (#[trigger] shown.0@[i])@ == old(self)@.buffer.row_view(
                        all[first + i],
                        measured.before@,
                    )
                &&& final(self)@ == (EditorView {
                    buffer: BufferView {
                        layout_width: at_least_one(width),
                        view_offset: first as int,
                        ..old(self)@.buffer
                    },
                    ..old(self)@.laid_out(width, max_rows)
                })
            }),
    {
        self.last_layout_width = positive_width(width);
        self.last_page_rows = if max_rows == 0 {
            1
        } else {
            max_rows
        };
        self.buffer.rows_followed(width, max_rows, measured, true)
    }

    /// Scrolls the input viewport by `delta` visual rows.
    ///
    /// Returns whether the clamped viewport offset changed.
    pub fn scroll_rows(&mut self, delta: i32, width: u16, max_rows: usize, lines: &Vec<Vec<Glyph>>) -> (changed:
        bool)
        requires
            old(self).wf(),
            lines_measured(line_views(lines@), old(self)@.buffer.bytes, 0, 0),
        ensures
            final(self).wf(),
            final(self).completion == old(self).completion,
            ({
                let all = segments_of(
                    old(self)@.buffer.bytes,
                    line_views(lines@),
                    at_least_one(width) as int,
                );
                let room = if all.len() < max_rows {
                    0
                } else {
                    all.len() - max_rows
                };
                let current = old(self)@.buffer.centered_row(
                    all.len() as int,
                    cursor_row(all, old(self)@.buffer.cursor),
                    max_rows as int,
                );
                let next = clamped(current + delta, 0, room);
                &&& changed == (next != current)
                &&& final(self)@ == (EditorView {
                    buffer: BufferView {
                        layout_width: at_least_one(width),
                        view_offset: next,
                        manual_scroll: true,
                        ..old(self)@.buffer
                    },
                    ..old(self)@.laid_out(width, max_rows)
                })
            }),
    {
        self.last_layout_width = positive_width(width);
        self.last_page_rows = if max_rows == 0 {
            1
        } else {
            max_rows
        };
        self.buffer.scroll_followed(delta, width, max_rows, lines, true)
    }

    /// Returns the selected display-column span intersecting a row; `glyphs`
    /// measures the row's logical line.
    pub fn selection_span(&self, row: &VisualRow, glyphs: &Vec<Glyph>) -> (span: Option<(u16, u16)>)
        requires
            self.wf(),
        ensures
            span == self@.buffer.selected_columns(row.start as int, row.end as int, glyphs@),
    {
        self.buffer.selection_span(row, glyphs)
    }

    /// Takes the text captured by the last `Copy`/`Cut`.
    pub fn take_copied(&mut self) -> (copied: Option<String>)
        requires
            old(self).wf(),
        ensures
            final(self).wf(),
            final(self).completion == old(self).completion,
            final(self)@ == (EditorView {
                buffer: BufferView { copied: None, ..old(self)@.buffer },
                ..old(self)@
            }),
            crate::buffer::text_view(copied) == old(self)@.buffer.copied,
    {
        self.buffer.take_copied()
    }
}

/// A preview leaves the caret where it logically stands: before the span at the
/// same position, behind it at the same distance from the end of the text.
pub proof fn previews_keep_the_caret(editor: EditorView, insert: Seq<u8>)
    requires
        editor.volatile matches Some(span) && span.start < span.end && editor.holds_preview(span),
    ensures
        ({
            let span = editor.volatile->0;
            let before = editor.buffer;
            let after = editor.transcribing(insert).buffer;
            &&& before.cursor <= span.start ==> after.cursor == before.cursor
            &&& before.cursor >= span.end ==> after.bytes.len() - after.cursor
                == before.bytes.len() - before.cursor
        }),
{
}

} // verus!
