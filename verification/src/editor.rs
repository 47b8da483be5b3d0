//! The multiline input: an edited text with a completion dropdown, ghost
//! hints, emoji expansion and prompt history.

use vstd::prelude::*;
use vstd::string::*;

use crate::atoms::{atom_views, atoms_get, atoms_len, Atom, AtomView};
use crate::buffer::{BufferView, EditBuffer};
use crate::completion::{
    clamped_rows, copy_text, exchange_talks, exchanged, plain_tab, selected_view, shown_text,
    suggestion_views, suggestions_view, tab_plainly, talked, talks_join, EditorCompletion,
    EditorOptions, Exchange, Picker, PickerView, Suggestion, SuggestionView, Suggestions, TabAction,
    TabView,
};
use crate::emoji::{emoji_dropdown, emoji_picker, entry_views, EmojiEntry};
use crate::strings::{
    at_boundary, boundary, byte_len, ends_are_boundaries, same_text, slice_text, utf8,
};

verus! {

/// Page navigation fallback before a host reports its rendered viewport.
pub const DEFAULT_PAGE_ROWS: usize = 10;

/// Most input rows shown at once.
pub const MAX_INPUT_ROWS: usize = 16;

/// Most prompts that the history keeps.
pub const HISTORY_CAPACITY: usize = 100;

/// A volatile preview in the visible text.
pub struct Volatile {
    /// First byte of the preview.
    pub start: usize,
    /// Byte behind the last one.
    pub end: usize,
    /// The preview's exact text.
    pub text: String,
}

/// A volatile preview in the visible text.
pub struct VolatileView {
    /// First byte of the preview.
    pub start: int,
    /// Byte behind the last one.
    pub end: int,
    /// The preview's exact bytes.
    pub bytes: Seq<u8>,
}

/// A preview, where there is one.
pub open spec fn volatile_view(preview: Option<Volatile>) -> Option<VolatileView> {
    match preview {
        Some(span) => Some(
            VolatileView {
                start: span.start as int,
                end: span.end as int,
                bytes: utf8(span.text@),
            },
        ),
        None => None,
    }
}

/// Result of handling one terminal key event.
#[derive(Debug, PartialEq, Eq)]
pub enum EditOutcome {
    /// Editor contents or selection changed.
    Changed,
    /// Complete input was submitted, with paste markers expanded.
    Submitted(String),
    /// The key had no editor meaning; the embedding app may act on it.
    Ignored,
}

/// Result of handling one terminal key event.
pub enum OutcomeView {
    /// Editor contents or selection changed.
    Changed,
    /// Complete input was submitted.
    Submitted(Seq<u8>),
    /// The key had no editor meaning.
    Ignored,
}

impl View for EditOutcome {
    type V = OutcomeView;

    open spec fn view(&self) -> OutcomeView {
        match *self {
            EditOutcome::Changed => OutcomeView::Changed,
            EditOutcome::Submitted(text) => OutcomeView::Submitted(utf8(text@)),
            EditOutcome::Ignored => OutcomeView::Ignored,
        }
    }
}

/// What a completion engine answers.
pub struct Replies {
    /// The rows it offers, with the range they replace.
    pub suggestions: Option<(int, int, Seq<SuggestionView>)>,
    /// Whether the built-in emoji dropdown may open.
    pub emoji: bool,
    /// Its ghost text.
    pub hint: Option<Seq<char>>,
    /// What it makes of Tab.
    pub tab: TabView,
}

/// Whether the answers are those of no engine at all, where none is installed.
pub open spec fn answers(installed: bool, replies: Replies) -> bool {
    !installed ==> replies.suggestions is None && replies.emoji && replies.hint is None
}

/// Whether Tab accepts an open row and else passes, where no engine is
/// installed.
pub open spec fn tab_answers(installed: bool, picker_open: bool, replies: Replies) -> bool {
    !installed ==> replies.tab == plain_tab(picker_open)
}

/// Editable multiline input with completion and editing.
///
/// Wraps an [`EditBuffer`] with a pluggable [`EditorCompletion`] dropdown,
/// inline ghost hints, built-in emoji expansion, and prompt history —
/// each governed by [`EditorOptions`].
pub struct Editor<C: EditorCompletion> {
    /// The edited text.
    pub buffer: EditBuffer,
    /// The open dropdown.
    pub picker: Option<Picker>,
    /// The completion engine.
    pub completion: Option<C>,
    /// Monotonic identity of the current completion query. Text and caret
    /// checks reject ordinary drift; this also fences ABA snapshots.
    pub completion_generation: u64,
    /// The feature switches.
    pub options: EditorOptions,
    /// The engine's ghost text.
    pub hint: Option<String>,
    /// Submitted prompts, newest first.
    pub history: Vec<String>,
    /// The prompt being browsed.
    pub history_index: Option<usize>,
    /// The draft that browsing left.
    pub history_draft: String,
    /// What is searched for, in lower case.
    pub history_query: Option<Vec<u8>>,
    /// Volatile speech/IME preview in the visible buffer.
    pub volatile: Option<Volatile>,
    /// Whether a volatile preview exposes its insertion caret. Native IMEs
    /// hide it while selecting a marked-text candidate.
    pub volatile_cursor: bool,
    /// Columns of the last layout.
    pub last_layout_width: u16,
    /// Rows of the last viewport.
    pub last_page_rows: usize,
    /// The emoji catalog.
    pub emojis: Vec<EmojiEntry>,
    /// Every exchange with the completion engine, in order.
    pub talk: Ghost<Seq<Exchange>>,
}

/// An editor.
#[verifier::ext_equal]
pub struct EditorView {
    /// The edited text.
    pub buffer: BufferView,
    /// The open dropdown.
    pub picker: Option<PickerView>,
    /// Identity of the current completion query.
    pub generation: u64,
    /// The feature switches.
    pub options: EditorOptions,
    /// The engine's ghost text.
    pub hint: Option<Seq<char>>,
    /// Submitted prompts, newest first.
    pub history: Seq<Seq<char>>,
    /// The prompt being browsed.
    pub history_index: Option<int>,
    /// The draft that browsing left.
    pub history_draft: Seq<char>,
    /// What is searched for, in lower case.
    pub history_query: Option<Seq<u8>>,
    /// Volatile preview.
    pub volatile: Option<VolatileView>,
    /// Whether the caret shows.
    pub volatile_cursor: bool,
    /// Columns of the last layout.
    pub width: u16,
    /// Rows of the last viewport.
    pub page_rows: usize,
    /// The emoji catalog.
    pub emojis: Seq<(Seq<char>, Seq<char>)>,
    /// Every exchange with the completion engine, in order.
    pub talk: Seq<Exchange>,
}

/// A dropdown, where one is open.
pub open spec fn picker_view(picker: Option<Picker>) -> Option<PickerView> {
    match picker {
        Some(open) => Some(open@),
        None => None,
    }
}

/// A query, where there is one.
pub open spec fn query_view(query: Option<Vec<u8>>) -> Option<Seq<u8>> {
    match query {
        Some(bytes) => Some(bytes@),
        None => None,
    }
}

impl<C: EditorCompletion> View for Editor<C> {
    type V = EditorView;

    open spec fn view(&self) -> EditorView {
        EditorView {
            buffer: self.buffer@,
            picker: picker_view(self.picker),
            generation: self.completion_generation,
            options: self.options,
            hint: shown_text(self.hint),
            history: crate::commands::text_views(self.history@),
            history_index: crate::buffer::offset_view(self.history_index),
            history_draft: self.history_draft@,
            history_query: query_view(self.history_query),
            volatile: volatile_view(self.volatile),
            volatile_cursor: self.volatile_cursor,
            width: self.last_layout_width,
            page_rows: self.last_page_rows,
            emojis: entry_views(self.emojis@),
            talk: self.talk@,
        }
    }
}

/// The boundary at or before `at`.
pub open spec fn boundary_before(bytes: Seq<u8>, at: int) -> int
    decreases at,
{
    if at <= 0 || boundary(bytes, at) {
        at
    } else {
        boundary_before(bytes, at - 1)
    }
}

/// The boundary at or behind `at`.
pub open spec fn boundary_behind(bytes: Seq<u8>, at: int) -> int
    decreases bytes.len() - at,
{
    if at >= bytes.len() || boundary(bytes, at) {
        at
    } else {
        boundary_behind(bytes, at + 1)
    }
}

/// A replacement range held around the cursor and inside the text.
pub open spec fn clamped_range(bytes: Seq<u8>, cursor: int, start: int, end: int) -> (int, int) {
    let low = if start < cursor {
        start
    } else {
        cursor
    };
    let wanted = if end > cursor {
        end
    } else {
        cursor
    };
    let high = if wanted < bytes.len() {
        wanted
    } else {
        bytes.len() as int
    };
    (boundary_before(bytes, low), boundary_behind(bytes, high))
}

/// Whether a range touches no atom.
pub open spec fn clear_of_atoms(atoms: Seq<AtomView>, start: int, end: int) -> bool {
    forall|i: int|
        0 <= i < atoms.len() ==> end <= (#[trigger] atoms[i]).start || start >= atoms[i].end
}

impl EditorView {
    /// What every operation keeps.
    pub open spec fn wf(self) -> bool {
        &&& self.buffer.wf()
        &&& self.picker matches Some(open) ==> open.wf()
        &&& self.history.len() <= HISTORY_CAPACITY
        &&& self.history_index matches Some(index) ==> 0 <= index < self.history.len()
        &&& self.width >= 1
    }

    /// A dropdown, unless it would touch an atom.
    pub open spec fn kept_clear(self, picker: Option<PickerView>) -> Option<PickerView> {
        match picker {
            Some(open) => if clear_of_atoms(self.buffer.atoms, open.start, open.end) {
                Some(open)
            } else {
                None
            },
            None => None,
        }
    }

    /// The dropdown of the engine's rows.
    pub open spec fn engine_dropdown(
        self,
        generation: u64,
        suggestions: Option<(int, int, Seq<SuggestionView>)>,
    ) -> Option<PickerView> {
        match suggestions {
            Some((start, end, items)) => if items.len() == 0 {
                None
            } else {
                let (from, to) = clamped_range(self.buffer.bytes, self.buffer.cursor, start, end);
                self.kept_clear(
                    Some(
                        PickerView {
                            start: from,
                            end: to,
                            suggestions: items,
                            selected: 0,
                            source_generation: generation,
                            source_text: self.buffer.bytes,
                            source_cursor: self.buffer.cursor,
                            cursor_offset: 0,
                            provided: true,
                            rows: clamped_rows(self.options.picker_rows) as int,
                        },
                    ),
                )
            },
            None => None,
        }
    }

    /// The identity of the next completion query.
    pub open spec fn next_generation(self) -> u64 {
        if self.generation == u64::MAX {
            0
        } else {
            (self.generation + 1) as u64
        }
    }

    /// The editor after its completion state was asked for anew: the engine's
    /// rows, else the built-in emoji rows.
    pub open spec fn refreshed(self, replies: Replies) -> Self {
        let generation = self.next_generation();
        let engine = self.engine_dropdown(generation, replies.suggestions);
        let picker = if engine is None && self.options.emoji && replies.emoji {
            self.kept_clear(
                emoji_dropdown(
                    self.buffer.bytes,
                    self.buffer.cursor,
                    generation,
                    clamped_rows(self.options.picker_rows) as int,
                    self.emojis,
                ),
            )
        } else {
            engine
        };
        let text = self.buffer.bytes;
        let cursor = self.buffer.cursor;
        let asked = self.talk.push(
            Exchange::Suggest { text, cursor, found: replies.suggestions },
        );
        let talk = if engine is None && self.options.emoji {
            asked.push(Exchange::Emoji { text, cursor, allowed: replies.emoji })
        } else {
            asked
        };
        (EditorView { generation, picker, talk, ..self }).hinted(replies.hint)
    }

    /// The editor after it asked for ghost text.
    pub open spec fn hinted(self, hint: Option<Seq<char>>) -> Self {
        EditorView {
            hint,
            talk: self.talk.push(
                Exchange::Hint { text: self.buffer.bytes, cursor: self.buffer.cursor, hint },
            ),
            ..self
        }
    }

    /// The selected row of the dropdown, where one is open.
    pub open spec fn selected_row(self) -> Option<SuggestionView> {
        match self.picker {
            Some(open) => Some(open.suggestions[open.selected]),
            None => None,
        }
    }

    /// The editor after it told its engine of Tab.
    pub open spec fn tab_told(self, action: TabView) -> Self {
        EditorView {
            talk: self.talk.push(
                Exchange::Tab {
                    text: self.buffer.bytes,
                    cursor: self.buffer.cursor,
                    selected: self.selected_row(),
                    action,
                },
            ),
            ..self
        }
    }

    /// Whether a dropdown was made for the present query, text and cursor, and
    /// touches no atom.
    pub open spec fn current(self, picker: PickerView) -> bool {
        &&& picker.source_generation == self.generation
        &&& picker.source_text == self.buffer.bytes
        &&& picker.source_cursor == self.buffer.cursor
        &&& clear_of_atoms(self.buffer.atoms, picker.start, picker.end)
    }

    /// The edited text with the selected row of a dropdown put in. An engine
    /// is told that a row of its own was accepted.
    pub open spec fn with_row(self, picker: PickerView, installed: bool) -> Self {
        let row = picker.suggestions[picker.selected];
        let replaced = self.buffer.with_replaced(picker.start, picker.end, utf8(row.value));
        if installed && picker.provided {
            EditorView {
                buffer: replaced,
                talk: self.talk.push(
                    Exchange::Accept {
                        replaced: self.buffer.bytes.subrange(picker.start, picker.end),
                        row,
                    },
                ),
                ..self
            }
        } else {
            EditorView { buffer: cursor_restored(replaced, picker.cursor_offset), ..self }
        }
    }

    /// The editor after the selected row is accepted. A row that is already
    /// typed closes the dropdown and nothing else.
    pub open spec fn accepted(self, installed: bool, replies: Replies) -> (Self, OutcomeView) {
        let closed = EditorView { picker: None, ..self };
        match self.picker {
            None => (self, OutcomeView::Ignored),
            Some(open) => if !self.current(open) || self.buffer.bytes.subrange(open.start, open.end)
                == utf8(open.suggestions[open.selected].value) {
                (closed.hinted(replies.hint), OutcomeView::Changed)
            } else {
                (closed.with_row(open, installed).refreshed(replies), OutcomeView::Changed)
            },
        }
    }

    /// The editor after the selected row is put in for a submit.
    pub open spec fn accepted_for_submit(self, installed: bool, replies: Replies) -> Self {
        let closed = EditorView { picker: None, ..self };
        match self.picker {
            None => self,
            Some(open) => if !self.current(open) {
                closed.hinted(replies.hint)
            } else {
                EditorView { hint: None, ..closed.with_row(open, installed) }
            },
        }
    }

    /// Whether Enter with the open dropdown submits.
    pub open spec fn enter_submits(self) -> bool {
        self.picker matches Some(open) && self.current(open) && open.suggestions[open.selected].submits
            && crate::chars::all_whitespace(crate::layout::part(self.buffer.bytes, 0, open.start))
    }

    /// The editor after Tab.
    pub open spec fn tabbed(self, installed: bool, replies: Replies) -> (Self, OutcomeView) {
        if self.picker matches Some(open) && (!self.current(open) || !open.provided) {
            self.accepted(installed, replies)
        } else {
            self.tab_told(replies.tab).tab_followed(installed, replies)
        }
    }

    /// The editor after it did what its engine made of Tab.
    pub open spec fn tab_followed(self, installed: bool, replies: Replies) -> (Self, OutcomeView) {
        match replies.tab {
            TabView::Accept => self.accepted(installed, replies),
            TabView::Edit(start, end, insert) => if self.buffer.cuts(start, end) {
                (
                    (EditorView {
                        buffer: self.buffer.with_replaced(start, end, insert),
                        ..self
                    }).refreshed(replies),
                    OutcomeView::Changed,
                )
            } else {
                (self, OutcomeView::Ignored)
            },
            TabView::Pass => (self, OutcomeView::Ignored),
        }
    }

    /// The editor with another row selected.
    pub open spec fn with_selected(self, selected: int) -> Self {
        match self.picker {
            Some(open) => EditorView { picker: Some(PickerView { selected, ..open }), ..self },
            None => self,
        }
    }

    /// Ghost text after the cursor: the selected row's, else the engine's.
    pub open spec fn ghost_text(self) -> Option<Seq<char>> {
        match self.picker {
            Some(open) => match open.suggestions[open.selected].hint {
                Some(hint) => Some(hint),
                None => self.hint,
            },
            None => self.hint,
        }
    }
}

/// The buffer with the cursor moved on by `offset` bytes, where that is a
/// boundary.
pub open spec fn cursor_restored(buffer: BufferView, offset: int) -> BufferView {
    let at = crate::motion::clamped(buffer.cursor + offset, 0, buffer.bytes.len() as int);
    BufferView {
        cursor: if boundary(buffer.bytes, at) {
            at
        } else {
            buffer.cursor
        },
        ..buffer
    }
}

/// Boundaries are found within reach.
proof fn boundary_before_facts(text: Seq<char>, at: int)
    requires
        0 <= at <= utf8(text).len(),
    ensures
        0 <= boundary_before(utf8(text), at) <= at,
        boundary(utf8(text), boundary_before(utf8(text), at)),
    decreases at,
{
    ends_are_boundaries(text);
    if at > 0 && !boundary(utf8(text), at) {
        boundary_before_facts(text, at - 1);
    }
}

/// Boundaries are found within reach.
proof fn boundary_behind_facts(text: Seq<char>, at: int)
    requires
        0 <= at <= utf8(text).len(),
    ensures
        at <= boundary_behind(utf8(text), at) <= utf8(text).len(),
        boundary(utf8(text), boundary_behind(utf8(text), at)),
    decreases utf8(text).len() - at,
{
    ends_are_boundaries(text);
    if at < utf8(text).len() && !boundary(utf8(text), at) {
        boundary_behind_facts(text, at + 1);
    }
}

/// Clamps an engine-supplied replacement range around its request cursor:
/// both ends are pulled onto char boundaries inside the request text.
/// Picker snapshot validation separately rejects asynchronous drift.
pub fn clamp_completion_range(text: &str, cursor: usize, start: usize, end: usize) -> (range: (
    usize,
    usize,
))
    requires
        boundary(utf8(text@), cursor as int),
    ensures
        (range.0 as int, range.1 as int) == clamped_range(
            utf8(text@),
            cursor as int,
            start as int,
            end as int,
        ),
        range.0 <= cursor <= range.1,
        boundary(utf8(text@), range.0 as int),
        boundary(utf8(text@), range.1 as int),
{
    let length: usize = byte_len(text);
    let mut from: usize = if start < cursor {
        start
    } else {
        cursor
    };
    proof {
        boundary_before_facts(text@, from as int);
    }
    while !at_boundary(text, from)
        invariant
            from <= cursor <= utf8(text@).len(),
            boundary_before(
                utf8(text@),
                if start < cursor {
                    start as int
                } else {
                    cursor as int
                },
            ) == boundary_before(utf8(text@), from as int),
            boundary(utf8(text@), boundary_before(utf8(text@), from as int)),
        decreases from,
    {
        from -= 1;
    }
    let wanted: usize = if end > cursor {
        end
    } else {
        cursor
    };
    let mut to: usize = if wanted < length {
        wanted
    } else {
        length
    };
    let ghost first = to;
    proof {
        boundary_behind_facts(text@, to as int);
    }
    while !at_boundary(text, to)
        invariant
            cursor <= to <= length,
            length == utf8(text@).len(),
            boundary_behind(utf8(text@), first as int) == boundary_behind(utf8(text@), to as int),
            boundary(utf8(text@), boundary_behind(utf8(text@), to as int)),
            boundary(utf8(text@), length as int),
        decreases length - to,
    {
        to += 1;
    }
    (from, to)
}

/// Whether a range touches no atom of the buffer.
pub fn is_clear_of_atoms(buffer: &EditBuffer, start: usize, end: usize) -> (clear: bool)
    ensures
        clear == clear_of_atoms(buffer@.atoms, start as int, end as int),
{
    let ghost views = buffer@.atoms;
    let count: usize = atoms_len(&buffer.atoms);
    let mut at: usize = 0;
    while at < count
        invariant
            at <= count,
            views == atom_views(buffer.atoms),
            count == atom_views(buffer.atoms).len(),
            forall|i: int|
                0 <= i < at ==> end <= (#[trigger] views[i]).start || start >= views[i].end,
        decreases count - at,
    {
        let atom: &Atom = atoms_get(&buffer.atoms, at);
        assert(views[at as int] == atom@);
        if !(end <= atom.start || start >= atom.end) {
            return false;
        }
        at += 1;
    }
    true
}

impl<C: EditorCompletion> Editor<C> {
    /// What every operation keeps.
    pub open spec fn wf(self) -> bool {
        self@.wf()
    }

    /// Creates an empty editor with the given feature switches.
    pub fn new(options: EditorOptions) -> (editor: Self)
        ensures
            editor.wf(),
            editor.completion is None,
            editor@ == fresh_editor(options),
    {
        let mut buffer: EditBuffer = EditBuffer::new("");
        buffer.set_xml(options.xml);
        proof {
            reveal_strlit("");
            assert(utf8(""@) =~= Seq::<u8>::empty());
        }
        let editor = Editor {
            buffer,
            picker: None,
            completion: None,
            completion_generation: 0,
            options,
            hint: None,
            history: Vec::new(),
            history_index: None,
            history_draft: "".to_owned(),
            history_query: None,
            volatile: None,
            volatile_cursor: true,
            last_layout_width: 80,
            last_page_rows: DEFAULT_PAGE_ROWS,
            emojis: Vec::new(),
            talk: Ghost(Seq::empty()),
        };
        assert(editor@.history =~= Seq::empty());
        assert(editor@.emojis =~= Seq::empty());
        assert(editor@ =~= fresh_editor(options));
        editor
    }

    /// The engine's rows, where one is installed.
    fn ask_suggestions(&mut self) -> (found: Option<Suggestions>)
        ensures
            final(self)@ == (EditorView {
                talk: old(self)@.talk.push(
                    Exchange::Suggest {
                        text: old(self)@.buffer.bytes,
                        cursor: old(self)@.buffer.cursor,
                        found: suggestions_view(found),
                    },
                ),
                ..old(self)@
            }),
            final(self).buffer == old(self).buffer,
            exchanged(old(self).completion, final(self)@.talk.last(), final(self).completion),
    {
        let found: Option<Suggestions> = match &mut self.completion {
            Some(engine) => engine.suggest(self.buffer.text.as_str(), self.buffer.cursor),
            None => None,
        };
        self.talk = Ghost(
            self.talk@.push(
                Exchange::Suggest {
                    text: self@.buffer.bytes,
                    cursor: self@.buffer.cursor,
                    found: suggestions_view(found),
                },
            ),
        );
        found
    }

    /// Whether the engine lets the built-in emoji dropdown open.
    fn ask_emoji(&mut self) -> (allowed: bool)
        ensures
            final(self)@ == (EditorView {
                talk: old(self)@.talk.push(
                    Exchange::Emoji {
                        text: old(self)@.buffer.bytes,
                        cursor: old(self)@.buffer.cursor,
                        allowed,
                    },
                ),
                ..old(self)@
            }),
            final(self).buffer == old(self).buffer,
            exchanged(old(self).completion, final(self)@.talk.last(), final(self).completion),
    {
        let allowed: bool = match &mut self.completion {
            Some(engine) => engine.allow_builtin_emoji(
                self.buffer.text.as_str(),
                self.buffer.cursor,
            ),
            None => true,
        };
        self.talk = Ghost(
            self.talk@.push(
                Exchange::Emoji {
                    text: self@.buffer.bytes,
                    cursor: self@.buffer.cursor,
                    allowed,
                },
            ),
        );
        allowed
    }

    /// The engine's ghost text, where one is installed.
    fn ask_hint(&mut self) -> (hint: Option<String>)
        ensures
            final(self)@ == (EditorView {
                hint: old(self)@.hint,
                ..old(self)@.hinted(shown_text(hint))
            }),
            final(self).buffer == old(self).buffer,
            exchanged(old(self).completion, final(self)@.talk.last(), final(self).completion),
    {
        let hint: Option<String> = match &mut self.completion {
            Some(engine) => engine.hint(self.buffer.text.as_str(), self.buffer.cursor),
            None => None,
        };
        self.talk = Ghost(
            self.talk@.push(
                Exchange::Hint {
                    text: self@.buffer.bytes,
                    cursor: self@.buffer.cursor,
                    hint: shown_text(hint),
                },
            ),
        );
        hint
    }

    /// What the engine makes of Tab; without one an open row is accepted.
    fn ask_tab(&mut self) -> (action: TabAction)
        requires
            old(self).wf(),
        ensures
            final(self)@ == old(self)@.tab_told(action@),
            final(self).buffer == old(self).buffer,
            exchanged(old(self).completion, final(self)@.talk.last(), final(self).completion),
    {
        let ghost before = self@;
        let selected: Option<&Suggestion> = match &self.picker {
            Some(open) => {
                assert(open@.suggestions.len() == open.suggestions.len());
                Some(&open.suggestions[open.selected])
            },
            None => None,
        };
        let ghost row = selected_view(selected);
        assert(row == before.selected_row());
        let action: TabAction = match &mut self.completion {
            Some(engine) => engine.tab(self.buffer.text.as_str(), self.buffer.cursor, selected),
            None => tab_plainly(selected.is_some()),
        };
        self.talk = Ghost(
            self.talk@.push(
                Exchange::Tab {
                    text: self@.buffer.bytes,
                    cursor: self@.buffer.cursor,
                    selected: row,
                    action: action@,
                },
            ),
        );
        action
    }

    /// The dropdown of the engine's rows.
    fn open_engine(&self, generation: u64, found: Option<Suggestions>) -> (picker: Option<Picker>)
        requires
            self.wf(),
        ensures
            picker_view(picker) == self@.engine_dropdown(generation, suggestions_view(found)),
            picker matches Some(open) ==> open@.wf(),
    {
        match found {
            None => None,
            Some(list) => {
                assert(suggestion_views(list.items@).len() == list.items.len());
                if list.items.len() == 0 {
                    return None;
                }
                let (start, end): (usize, usize) = clamp_completion_range(
                    self.buffer.text.as_str(),
                    self.buffer.cursor,
                    list.start,
                    list.end,
                );
                if !is_clear_of_atoms(&self.buffer, start, end) {
                    return None;
                }
                Some(
                    Picker {
                        start,
                        end,
                        suggestions: list.items,
                        selected: 0,
                        source_generation: generation,
                        source_text: self.buffer.text.clone(),
                        source_cursor: self.buffer.cursor,
                        cursor_offset: 0,
                        provided: true,
                        rows: self.options.picker_rows(),
                    },
                )
            },
        }
    }

    /// Re-queries the completion engine (dropdown and ghost hint), falling
    /// back to the built-in emoji dropdown when the engine declines.
    pub fn refresh(&mut self)
        requires
            old(self).wf(),
        ensures
            final(self).wf(),
            final(self).completion is None <==> old(self).completion is None,
            talked(old(self).completion, old(self)@.talk, final(self)@.talk, final(self).completion),
            exists|replies: Replies|
                #![trigger old(self)@.refreshed(replies)]
                {
                    &&& final(self)@ == old(self)@.refreshed(replies)
                    &&& answers(old(self).completion is Some, replies)
                },
    {
        let ghost before = self@;
        let generation: u64 = if self.completion_generation == u64::MAX {
            0
        } else {
            self.completion_generation + 1
        };
        let ghost first = self.completion;
        let found: Option<Suggestions> = self.ask_suggestions();
        let ghost suggestions = suggestions_view(found);
        proof {
            exchange_talks(
                first,
                before.talk,
                before.talk,
                first,
                self@.talk.last(),
                self.completion,
            );
        }
        let mut picker: Option<Picker> = self.open_engine(generation, found);
        let ghost mut allowed: bool = true;
        if picker.is_none() && self.options.emoji {
            let ghost so_far = self@.talk;
            let ghost engine = self.completion;
            let answer: bool = self.ask_emoji();
            proof {
                allowed = answer;
                exchange_talks(
                    first,
                    before.talk,
                    so_far,
                    engine,
                    self@.talk.last(),
                    self.completion,
                );
            }
            if answer {
                let built: Option<Picker> = emoji_picker(
                    self.buffer.text.as_str(),
                    self.buffer.cursor,
                    generation,
                    self.options.picker_rows(),
                    &self.emojis,
                );
                if let Some(open) = built {
                    if is_clear_of_atoms(&self.buffer, open.start, open.end) {
                        picker = Some(open);
                    }
                }
            }
        }
        let ghost so_far = self@.talk;
        let ghost engine = self.completion;
        let hint: Option<String> = self.ask_hint();
        proof {
            exchange_talks(first, before.talk, so_far, engine, self@.talk.last(), self.completion);
        }
        let ghost replies = Replies {
            suggestions,
            emoji: allowed,
            hint: shown_text(hint),
            tab: TabView::Pass,
        };
        self.completion_generation = generation;
        self.hint = hint;
        self.picker = picker;
        assert(self@ =~= before.refreshed(replies));
    }

    /// Whether a dropdown was made for the present query, text and cursor, and
    /// touches no atom.
    pub fn picker_is_current(&self, picker: &Picker) -> (current: bool)
        ensures
            current == self@.current(picker@),
    {
        let same: bool = same_text(picker.source_text.as_str(), self.buffer.text.as_str());
        proof {
            if !same && utf8(picker.source_text@) == utf8(self.buffer.text@) {
                crate::strings::utf8_is_injective(picker.source_text@, self.buffer.text@);
            }
        }
        picker.source_generation == self.completion_generation && same && picker.source_cursor
            == self.buffer.cursor && is_clear_of_atoms(&self.buffer, picker.start, picker.end)
    }

    /// Replaces the picker's range with the row's value and, for
    /// engine-provided rows, reports the acceptance to the engine.
    fn apply_suggestion(&mut self, picker: &Picker)
        requires
            old(self).wf(),
            old(self)@.current(picker@),
            picker@.wf(),
        ensures
            final(self).wf(),
            final(self).completion is None <==> old(self).completion is None,
            final(self)@ == old(self)@.with_row(picker@, old(self).completion is Some),
            talked(old(self).completion, old(self)@.talk, final(self)@.talk, final(self).completion),
    {
        let ghost before = self@;
        let ghost installed = self.completion is Some;
        assert(picker@.suggestions.len() == picker.suggestions.len());
        let suggestion: &Suggestion = &picker.suggestions[picker.selected];
        assert(picker@.suggestions[picker@.selected] == suggestion@);
        if self.completion.is_some() && picker.provided {
            let replaced: String = slice_text(
                self.buffer.text.as_str(),
                picker.start,
                picker.end,
            ).to_owned();
            self.buffer.replace_range(picker.start, picker.end, suggestion.value.as_str());
            let ghost first = self.completion;
            match &mut self.completion {
                Some(engine) => {
                    engine.accepted(replaced.as_str(), suggestion);
                },
                None => {},
            }
            let ghost told = Exchange::Accept { replaced: utf8(replaced@), row: suggestion@ };
            self.talk = Ghost(self.talk@.push(told));
            proof {
                exchange_talks(first, before.talk, before.talk, first, told, self.completion);
            }
            assert(self@ =~= before.with_row(picker@, installed));
        } else {
            self.buffer.replace_range(picker.start, picker.end, suggestion.value.as_str());
            self.buffer.restore_cursor_offset(picker.cursor_offset);
            assert(self@ =~= before.with_row(picker@, installed));
        }
    }

    /// Accepts the selected row.
    pub fn accept_picker(&mut self) -> (outcome: EditOutcome)
        requires
            old(self).wf(),
        ensures
            final(self).wf(),
            final(self).completion is None <==> old(self).completion is None,
            talked(old(self).completion, old(self)@.talk, final(self)@.talk, final(self).completion),
            exists|replies: Replies|
                #![trigger old(self)@.accepted(old(self).completion is Some, replies)]
                {
                    &&& (final(self)@, outcome@) == old(self)@.accepted(
                        old(self).completion is Some,
                        replies,
                    )
                    &&& answers(old(self).completion is Some, replies)
                },
    {
        let ghost before = self@;
        let ghost installed = self.completion is Some;
        let ghost silent = Replies {
            suggestions: None,
            emoji: true,
            hint: None,
            tab: TabView::Pass,
        };
        match self.picker.take() {
            None => {
                assert((before, OutcomeView::Ignored) == before.accepted(installed, silent));
                assert(self@ =~= before);
                EditOutcome::Ignored
            },
            Some(picker) => {
                let ghost closed = EditorView { picker: None, ..before };
                assert(self@ =~= closed);
                assert(before.picker == Some(picker@));
                let current: bool = self.picker_is_current(&picker);
                assert(current == before.current(picker@));
                assert(picker@.suggestions.len() == picker.suggestions.len());
                let done: bool = if current {
                    let typed: &str = slice_text(
                        self.buffer.text.as_str(),
                        picker.start,
                        picker.end,
                    );
                    let suggestion: &Suggestion = &picker.suggestions[picker.selected];
                    assert(picker@.suggestions[picker@.selected] == suggestion@);
                    let same: bool = same_text(typed, suggestion.value.as_str());
                    proof {
                        if !same && utf8(typed@) == utf8(suggestion.value@) {
                            crate::strings::utf8_is_injective(typed@, suggestion.value@);
                        }
                    }
                    same
                } else {
                    true
                };
                if done {
                    // Accepting an already-typed value is a no-op; re-querying would
                    // reopen the identical dropdown and trap Enter forever. Close the
                    // dropdown and let the next keypress act on the finished text.
                    let ghost first = self.completion;
                    let hint: Option<String> = self.ask_hint();
                    let ghost replies = Replies { hint: shown_text(hint), ..silent };
                    proof {
                        exchange_talks(
                            first,
                            before.talk,
                            before.talk,
                            first,
                            self@.talk.last(),
                            self.completion,
                        );
                    }
                    self.hint = hint;
                    assert(self@ =~= before.accepted(installed, replies).0);
                    return EditOutcome::Changed;
                }
                let ghost first = self.completion;
                self.apply_suggestion(&picker);
                let ghost applied = self@;
                let ghost told = self.completion;
                self.refresh();
                proof {
                    talks_join(first, before.talk, applied.talk, told, self@.talk, self.completion);
                    let replies = choose|replies: Replies|
                        #![trigger applied.refreshed(replies)]
                        self@ == applied.refreshed(replies) && answers(installed, replies);
                    assert((self@, OutcomeView::Changed) == before.accepted(installed, replies));
                }
                EditOutcome::Changed
            },
        }
    }

    /// Applies the selected dropdown row and closes the dropdown without
    /// re-querying, leaving the completed text in place for the host's
    /// submit path. Enter on a submitted slash command applies, then submits.
    pub fn accept_for_submit(&mut self)
        requires
            old(self).wf(),
        ensures
            final(self).wf(),
            final(self).completion is None <==> old(self).completion is None,
            talked(old(self).completion, old(self)@.talk, final(self)@.talk, final(self).completion),
            exists|replies: Replies|
                #![trigger old(self)@.accepted_for_submit(old(self).completion is Some, replies)]
                {
                    &&& final(self)@ == old(self)@.accepted_for_submit(
                        old(self).completion is Some,
                        replies,
                    )
                    &&& answers(old(self).completion is Some, replies)
                },
    {
        let ghost before = self@;
        let ghost installed = self.completion is Some;
        let ghost silent = Replies {
            suggestions: None,
            emoji: true,
            hint: None,
            tab: TabView::Pass,
        };
        match self.picker.take() {
            None => {
                assert(self@ =~= before);
                assert(before == before.accepted_for_submit(installed, silent));
            },
            Some(picker) => {
                assert(self@ =~= (EditorView { picker: None, ..before }));
                assert(before.picker == Some(picker@));
                if !self.picker_is_current(&picker) {
                    let ghost first = self.completion;
                    let hint: Option<String> = self.ask_hint();
                    let ghost replies = Replies { hint: shown_text(hint), ..silent };
                    proof {
                        exchange_talks(
                            first,
                            before.talk,
                            before.talk,
                            first,
                            self@.talk.last(),
                            self.completion,
                        );
                    }
                    self.hint = hint;
                    assert(self@ =~= before.accepted_for_submit(installed, replies));
                    return;
                }
                self.apply_suggestion(&picker);
                self.hint = None;
                assert(self@ =~= before.accepted_for_submit(installed, silent));
            },
        }
    }

    /// Whether Enter with the open dropdown should submit: the selected row
    /// is a command completion (see [`Suggestion::with_submit`]) and only
    /// whitespace precedes its token.
    pub fn picker_enter_submits(&self) -> (yes: bool)
        requires
            self.wf(),
        ensures
            yes == self@.enter_submits(),
    {
        match &self.picker {
            None => false,
            Some(picker) => {
                assert(picker@.suggestions.len() == picker.suggestions.len());
                assert(picker@.suggestions[picker@.selected]
                    == picker.suggestions@[picker@.selected]@);
                if !self.picker_is_current(picker) || !picker.suggestions[picker.selected].submits {
                    return false;
                }
                proof {
                    ends_are_boundaries(self.buffer.text@);
                }
                crate::layout::is_all_whitespace(
                    crate::layout::cut_part(self.buffer.text.as_str(), 0, picker.start),
                )
            },
        }
    }

    /// Does what the engine made of Tab.
    fn follow_tab(&mut self, action: TabAction) -> (outcome: EditOutcome)
        requires
            old(self).wf(),
        ensures
            final(self).wf(),
            final(self).completion is None <==> old(self).completion is None,
            talked(old(self).completion, old(self)@.talk, final(self)@.talk, final(self).completion),
            exists|replies: Replies|
                #![trigger old(self)@.tab_followed(old(self).completion is Some, replies)]
                {
                    &&& (final(self)@, outcome@) == old(self)@.tab_followed(
                        old(self).completion is Some,
                        replies,
                    )
                    &&& answers(old(self).completion is Some, replies)
                    &&& replies.tab == action@
                },
    {
        let ghost before = self@;
        let ghost installed = self.completion is Some;
        let ghost tab = action@;
        let ghost silent = Replies { suggestions: None, emoji: true, hint: None, tab };
        match action {
            TabAction::Accept => {
                let outcome: EditOutcome = self.accept_picker();
                proof {
                    let replies = choose|replies: Replies|
                        #![trigger before.accepted(installed, replies)]
                        (self@, outcome@) == before.accepted(installed, replies) && answers(
                            installed,
                            replies,
                        );
                    let told = Replies { tab, ..replies };
                    assert(before.accepted(installed, told) == before.accepted(
                        installed,
                        replies,
                    ));
                    assert((self@, outcome@) == before.tab_followed(installed, told));
                }
                outcome
            },
            TabAction::Edit(edit) => {
                let valid: bool = edit.start <= edit.end && at_boundary(
                    self.buffer.text.as_str(),
                    edit.start,
                ) && at_boundary(self.buffer.text.as_str(), edit.end);
                if !valid {
                    assert((self@, OutcomeView::Ignored) == before.tab_followed(installed, silent));
                    return EditOutcome::Ignored;
                }
                self.buffer.replace_range(edit.start, edit.end, edit.insert.as_str());
                let ghost edited = self@;
                self.refresh();
                proof {
                    let replies = choose|replies: Replies|
                        #![trigger edited.refreshed(replies)]
                        self@ == edited.refreshed(replies) && answers(installed, replies);
                    let told = Replies { tab, ..replies };
                    assert(edited.refreshed(told) == edited.refreshed(replies));
                    assert((self@, OutcomeView::Changed) == before.tab_followed(installed, told));
                }
                EditOutcome::Changed
            },
            TabAction::Pass => {
                assert((self@, OutcomeView::Ignored) == before.tab_followed(installed, silent));
                EditOutcome::Ignored
            },
        }
    }

    /// Applies Tab.
    pub fn tab_complete(&mut self) -> (outcome: EditOutcome)
        requires
            old(self).wf(),
        ensures
            final(self).wf(),
            final(self).completion is None <==> old(self).completion is None,
            talked(old(self).completion, old(self)@.talk, final(self)@.talk, final(self).completion),
            exists|replies: Replies|
                #![trigger old(self)@.tabbed(old(self).completion is Some, replies)]
                {
                    &&& (final(self)@, outcome@) == old(self)@.tabbed(
                        old(self).completion is Some,
                        replies,
                    )
                    &&& answers(old(self).completion is Some, replies)
                    &&& tab_answers(
                        old(self).completion is Some,
                        old(self)@.picker is Some,
                        replies,
                    )
                },
    {
        let ghost before = self@;
        let ghost installed = self.completion is Some;
        let ghost plain = plain_tab(before.picker is Some);
        // Fence a delayed provider result before asking that provider to act
        // on its selected row. The built-in emoji dropdown accepts without
        // consulting the engine.
        let direct: bool = match &self.picker {
            Some(open) => !self.picker_is_current(open) || !open.provided,
            None => false,
        };
        if direct {
            let outcome: EditOutcome = self.accept_picker();
            proof {
                let replies = choose|replies: Replies|
                    #![trigger before.accepted(installed, replies)]
                    (self@, outcome@) == before.accepted(installed, replies) && answers(
                        installed,
                        replies,
                    );
                let told = Replies { tab: plain, ..replies };
                assert(before.accepted(installed, told) == before.accepted(installed, replies));
                assert((self@, outcome@) == before.tabbed(installed, told));
            }
            return outcome;
        }
        let ghost first = self.completion;
        let action: TabAction = self.ask_tab();
        let ghost tab = action@;
        let ghost asked = self@;
        let ghost engine = self.completion;
        let outcome: EditOutcome = self.follow_tab(action);
        proof {
            exchange_talks(first, before.talk, before.talk, first, asked.talk.last(), engine);
            talks_join(first, before.talk, asked.talk, engine, self@.talk, self.completion);
            let replies = choose|replies: Replies|
                #![trigger asked.tab_followed(installed, replies)]
                (self@, outcome@) == asked.tab_followed(installed, replies) && answers(
                    installed,
                    replies,
                ) && replies.tab == tab;
            assert((self@, outcome@) == before.tabbed(installed, replies));
        }
        outcome
    }

    /// Dim ghost text rendered after the cursor: the selected suggestion's
    /// hint while the dropdown is open, otherwise the completion engine's
    /// latest [`EditorCompletion::hint`].
    pub fn inline_hint(&self) -> (hint: Option<String>)
        requires
            self.wf(),
        ensures
            shown_text(hint) == self@.ghost_text(),
    {
        if let Some(picker) = &self.picker {
            assert(picker@.suggestions.len() == picker.suggestions.len());
            assert(picker@.suggestions[picker@.selected]
                == picker.suggestions@[picker@.selected]@);
            if let Some(hint) = &picker.suggestions[picker.selected].hint {
                return Some(hint.clone());
            }
        }
        copy_text(&self.hint)
    }
}

/// An editor that holds nothing.
pub open spec fn fresh_editor(options: EditorOptions) -> EditorView {
    EditorView {
        buffer: BufferView {
            xml: options.xml,
            ..crate::buffer::fresh_buffer(Seq::empty())
        },
        picker: None,
        generation: 0,
        options,
        hint: None,
        history: Seq::empty(),
        history_index: None,
        history_draft: ""@,
        history_query: None,
        volatile: None,
        volatile_cursor: true,
        width: 80,
        page_rows: DEFAULT_PAGE_ROWS,
        emojis: Seq::empty(),
        talk: Seq::empty(),
    }
}

} // verus!
