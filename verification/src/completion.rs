//! Completion: suggestion rows, the dropdown that shows them, and the engine
//! that supplies them.

use vstd::prelude::*;
use vstd::slice::*;

use crate::strings::{boundary, same_text, utf8};

verus! {

/// Default dropdown window.
pub const PICKER_ROWS: usize = 10;

/// Smallest dropdown window.
pub const PICKER_ROWS_MIN: usize = 3;

/// Largest dropdown window.
pub const PICKER_ROWS_MAX: usize = 20;

/// A semantic type-indicator icon, by its catalog number.
#[derive(Clone, Copy, Debug, PartialEq, Eq, Structural)]
pub struct Icon(pub u16);

/// The characters of a text, where there is one.
pub open spec fn shown_text(text: Option<String>) -> Option<Seq<char>> {
    match text {
        Some(string) => Some(string@),
        None => None,
    }
}

/// A copy of a text, where there is one.
pub fn copy_text(text: &Option<String>) -> (copy: Option<String>)
    ensures
        copy == *text,
{
    match text {
        Some(string) => Some(string.clone()),
        None => None,
    }
}

/// Whether two optional texts are the same.
pub fn same_optional(a: &Option<String>, b: &Option<String>) -> (same: bool)
    ensures
        same == (shown_text(*a) == shown_text(*b)),
{
    match (a, b) {
        (Some(left), Some(right)) => same_text(left.as_str(), right.as_str()),
        (None, None) => true,
        _ => false,
    }
}

/// Feature switches of an editor; everything defaults on.
#[derive(Clone, Copy, Debug, PartialEq, Eq, Structural)]
pub struct EditorOptions {
    /// `:emoji` shortcode dropdown plus inline `:shortcode:` and
    /// emoticon (`:-)`) expansion while typing.
    pub emoji: bool,
    /// Up/Down prompt history with draft restore below the newest entry.
    pub history: bool,
    /// XML affordances: `</` completes the innermost open tag, and
    /// renderers should apply structural markup highlighting.
    pub xml: bool,
    /// Rows the completion dropdown shows at once, clamped to `[3, 20]` on
    /// use.
    pub picker_rows: usize,
}

impl Default for EditorOptions {
    fn default() -> (options: Self)
        ensures
            options == (EditorOptions {
                emoji: true,
                history: true,
                xml: true,
                picker_rows: PICKER_ROWS,
            }),
    {
        EditorOptions { emoji: true, history: true, xml: true, picker_rows: PICKER_ROWS }
    }
}

/// A dropdown window within its bounds.
pub open spec fn clamped_rows(rows: usize) -> usize {
    if rows < PICKER_ROWS_MIN {
        PICKER_ROWS_MIN
    } else if rows > PICKER_ROWS_MAX {
        PICKER_ROWS_MAX
    } else {
        rows
    }
}

impl EditorOptions {
    /// The dropdown window after the `[3, 20]` clamp.
    #[must_use]
    pub fn picker_rows(&self) -> (rows: usize)
        ensures
            rows == clamped_rows(self.picker_rows),
            3 <= rows <= 20,
    {
        if self.picker_rows < PICKER_ROWS_MIN {
            PICKER_ROWS_MIN
        } else if self.picker_rows > PICKER_ROWS_MAX {
            PICKER_ROWS_MAX
        } else {
            self.picker_rows
        }
    }
}

/// Display content for one completion row.
#[derive(Debug)]
pub enum SuggestionDisplay {
    /// A plain text label (command name, file path, mention, …).
    Text(String),
    /// An emoji paired with its shortcode or emoticon.
    Emoji {
        /// The emoji inserted on acceptance.
        emoji: String,
        /// The `:shortcode:` name or emoticon spelling that matched.
        shortcode: String,
    },
}

/// Display content for one completion row.
pub enum DisplayView {
    /// A plain text label.
    Text(Seq<char>),
    /// An emoji paired with its shortcode or emoticon.
    Emoji {
        /// The emoji inserted on acceptance.
        emoji: Seq<char>,
        /// The spelling that matched.
        shortcode: Seq<char>,
    },
}

impl View for SuggestionDisplay {
    type V = DisplayView;

    open spec fn view(&self) -> DisplayView {
        match *self {
            SuggestionDisplay::Text(label) => DisplayView::Text(label@),
            SuggestionDisplay::Emoji { emoji, shortcode } => DisplayView::Emoji {
                emoji: emoji@,
                shortcode: shortcode@,
            },
        }
    }
}

/// One selectable completion row.
#[derive(Debug)]
pub struct Suggestion {
    /// What replaces the completed range.
    pub value: String,
    /// What the dropdown shows.
    pub display: SuggestionDisplay,
    /// Explanatory text shown beside the label.
    pub description: Option<String>,
    /// Type-indicator icon.
    pub icon: Option<Icon>,
    /// Ghost text shown while the row is selected.
    pub hint: Option<String>,
    /// Category header the row belongs under.
    pub category: Option<String>,
    /// Byte spans to emphasize in the label.
    pub match_spans: Vec<(u16, u16)>,
    /// Whether Enter may submit the completed input.
    pub submits: bool,
}

/// One selectable completion row.
#[verifier::ext_equal]
pub struct SuggestionView {
    /// What replaces the completed range.
    pub value: Seq<char>,
    /// What the dropdown shows.
    pub display: DisplayView,
    /// Explanatory text shown beside the label.
    pub description: Option<Seq<char>>,
    /// Type-indicator icon.
    pub icon: Option<Icon>,
    /// Ghost text shown while the row is selected.
    pub hint: Option<Seq<char>>,
    /// Category header the row belongs under.
    pub category: Option<Seq<char>>,
    /// Byte spans to emphasize in the label.
    pub match_spans: Seq<(u16, u16)>,
    /// Whether Enter may submit the completed input.
    pub submits: bool,
}

impl View for Suggestion {
    type V = SuggestionView;

    open spec fn view(&self) -> SuggestionView {
        SuggestionView {
            value: self.value@,
            display: self.display@,
            description: shown_text(self.description),
            icon: self.icon,
            hint: shown_text(self.hint),
            category: shown_text(self.category),
            match_spans: self.match_spans@,
            submits: self.submits,
        }
    }
}

/// The views of suggestion rows.
pub open spec fn suggestion_views(items: Seq<Suggestion>) -> Seq<SuggestionView> {
    items.map_values(|item: Suggestion| item@)
}

/// A row that inserts `value` and shows `label`.
pub open spec fn plain_suggestion(value: Seq<char>, label: Seq<char>) -> SuggestionView {
    SuggestionView {
        value,
        display: DisplayView::Text(label),
        description: None,
        icon: None,
        hint: None,
        category: None,
        match_spans: Seq::empty(),
        submits: false,
    }
}

/// Whether a span covers anything.
pub open spec fn covers_bytes(span: (u16, u16)) -> bool {
    span.0 < span.1
}

impl Suggestion {
    /// Builds a row: on acceptance `insert` replaces the completion's
    /// replacement range verbatim; `label` is shown in the dropdown.
    pub fn new(insert: &str, label: &str) -> (row: Self)
        ensures
            row@ == plain_suggestion(insert@, label@),
    {
        let row = Suggestion {
            value: insert.to_owned(),
            display: SuggestionDisplay::Text(label.to_owned()),
            description: None,
            icon: None,
            hint: None,
            category: None,
            match_spans: Vec::new(),
            submits: false,
        };
        assert(row@ =~= plain_suggestion(insert@, label@));
        row
    }

    /// Explanatory text shown beside the label.
    pub fn with_description(self, description: &str) -> (row: Self)
        ensures
            row@ == (SuggestionView { description: Some(description@), ..self@ }),
    {
        let mut row = self;
        row.description = Some(description.to_owned());
        row
    }

    /// Assigns a semantic type-indicator icon.
    pub fn with_icon(self, icon: Icon) -> (row: Self)
        ensures
            row@ == (SuggestionView { icon: Some(icon), ..self@ }),
    {
        let mut row = self;
        row.icon = Some(icon);
        row
    }

    /// Returns the semantic type-indicator icon.
    pub fn icon(&self) -> (icon: Option<Icon>)
        ensures
            icon == self@.icon,
    {
        self.icon
    }

    /// Ghost text shown after the cursor while this row is selected.
    pub fn with_hint(self, hint: &str) -> (row: Self)
        ensures
            row@ == (SuggestionView { hint: Some(hint@), ..self@ }),
    {
        let mut row = self;
        row.hint = Some(hint.to_owned());
        row
    }

    /// Assigns a category. The picker retains one non-selectable header at
    /// each category boundary inside the visible window.
    pub fn with_category(self, category: &str) -> (row: Self)
        ensures
            row@ == (SuggestionView { category: Some(category@), ..self@ }),
    {
        let mut row = self;
        row.category = Some(category.to_owned());
        row
    }

    /// Assigns UTF-8 byte spans to emphasize within the dropdown label; empty
    /// spans are left out.
    pub fn with_match_spans(self, spans: &Vec<(u16, u16)>) -> (row: Self)
        ensures
            row@ == (SuggestionView {
                match_spans: spans@.filter(|span: (u16, u16)| covers_bytes(span)),
                ..self@
            }),
    {
        let ghost keep = |span: (u16, u16)| covers_bytes(span);
        let mut kept: Vec<(u16, u16)> = Vec::new();
        let mut at: usize = 0;
        assert(spans@.take(0).filter(keep) =~= Seq::<(u16, u16)>::empty()) by {
            reveal(Seq::filter);
        }
        while at < spans.len()
            invariant
                at <= spans.len(),
                keep == |span: (u16, u16)| covers_bytes(span),
                kept@ == spans@.take(at as int).filter(keep),
            decreases spans.len() - at,
        {
            proof {
                crate::atoms::filter_grows(spans@, keep, at as int);
            }
            let span: (u16, u16) = spans[at];
            if span.0 < span.1 {
                kept.push(span);
            }
            at += 1;
        }
        assert(spans@.take(at as int) =~= spans@);
        let mut row = self;
        row.match_spans = kept;
        row
    }

    /// Marks this row as a complete command: Enter both applies the
    /// completion and submits the input when only whitespace precedes the
    /// command token (submitted-slash-command rule).
    pub fn with_submit(self) -> (row: Self)
        ensures
            row@ == (SuggestionView { submits: true, ..self@ }),
    {
        let mut row = self;
        row.submits = true;
        row
    }

    /// Whether Enter-acceptance may also submit the completed input.
    pub fn submits(&self) -> (submits: bool)
        ensures
            submits == self@.submits,
    {
        self.submits
    }

    /// Returns the row category, when present.
    pub fn category(&self) -> (category: Option<&str>)
        ensures
            match category {
                Some(text) => self@.category == Some(text@),
                None => self@.category is None,
            },
    {
        match &self.category {
            Some(text) => Some(text.as_str()),
            None => None,
        }
    }

    /// Returns UTF-8 byte match spans in the dropdown label.
    pub fn match_spans(&self) -> (spans: &Vec<(u16, u16)>)
        ensures
            spans@ == self@.match_spans,
    {
        &self.match_spans
    }

    /// Returns the row's dropdown label.
    pub fn display(&self) -> (display: &SuggestionDisplay)
        ensures
            display@ == self@.display,
    {
        &self.display
    }

    /// Returns optional explanatory text shown beside the label.
    pub fn description(&self) -> (description: Option<&str>)
        ensures
            match description {
                Some(text) => self@.description == Some(text@),
                None => self@.description is None,
            },
    {
        match &self.description {
            Some(text) => Some(text.as_str()),
            None => None,
        }
    }

    /// Returns the text inserted when this row is accepted.
    pub fn value(&self) -> (value: &String)
        ensures
            value@ == self@.value,
    {
        &self.value
    }
}

/// Ranked dropdown suggestions returned by [`EditorCompletion::suggest`].
pub struct Suggestions {
    /// First byte replaced by the selected row. The editor clamps the range
    /// around the request cursor and inside the request text; acceptance
    /// separately rejects a result whose text or caret snapshot went stale.
    pub start: usize,
    /// Byte behind the last one replaced.
    pub end: usize,
    /// Rows in display order; empty closes the dropdown.
    pub items: Vec<Suggestion>,
}

/// Buffer edit returned by [`EditorCompletion::tab`]: replaces a range with
/// `insert` and leaves the cursor after it.
pub struct CompletionEdit {
    /// First byte to replace.
    pub start: usize,
    /// Byte behind the last one to replace.
    pub end: usize,
    /// Replacement text.
    pub insert: String,
}

/// Provider verdict for a Tab press, from [`EditorCompletion::tab`].
pub enum TabAction {
    /// Accept the selected dropdown row (no-op when none is open).
    Accept,
    /// Apply a buffer edit, e.g. materializing the current ghost hint.
    Edit(CompletionEdit),
    /// Pass Tab through to the embedding app.
    Pass,
}

/// What a completion engine makes of Tab.
pub enum TabView {
    /// Accept the selected row.
    Accept,
    /// Replace a range.
    Edit(int, int, Seq<u8>),
    /// Pass Tab through.
    Pass,
}

impl View for TabAction {
    type V = TabView;

    open spec fn view(&self) -> TabView {
        match *self {
            TabAction::Accept => TabView::Accept,
            TabAction::Edit(edit) => TabView::Edit(
                edit.start as int,
                edit.end as int,
                utf8(edit.insert@),
            ),
            TabAction::Pass => TabView::Pass,
        }
    }
}

/// Suggested rows with the range they replace, where there are any.
pub open spec fn suggestions_view(found: Option<Suggestions>) -> Option<
    (int, int, Seq<SuggestionView>),
> {
    match found {
        Some(list) => Some((list.start as int, list.end as int, suggestion_views(list.items@))),
        None => None,
    }
}

/// A row, where there is one.
pub open spec fn selected_view(selected: Option<&Suggestion>) -> Option<SuggestionView> {
    match selected {
        Some(row) => Some(row@),
        None => None,
    }
}

/// What Tab means to an engine with no say of its own: the open row is
/// accepted, else Tab passes.
pub open spec fn plain_tab(row_open: bool) -> TabView {
    if row_open {
        TabView::Accept
    } else {
        TabView::Pass
    }
}

/// Pluggable completion engine of an editor.
///
/// The editor consults it after every edit, so an implementation chooses
/// its own trigger convention (`/`, `@`, `#`, or none at all) by inspecting
/// the text before the cursor. Each request comes with a relation that says
/// what an engine in a given state may answer, and what state that leaves it
/// in; an engine that says nothing of itself may answer anything.
pub trait EditorCompletion {
    /// Whether the engine may answer `found` when asked for rows, and be
    /// `after` then.
    open spec fn may_suggest(
        &self,
        text: Seq<u8>,
        cursor: int,
        found: Option<(int, int, Seq<SuggestionView>)>,
        after: &Self,
    ) -> bool {
        true
    }

    /// Whether the engine may answer `hint` when asked for ghost text, and be
    /// `after` then.
    open spec fn may_hint(&self, text: Seq<u8>, cursor: int, hint: Option<Seq<char>>, after: &Self) -> bool {
        true
    }

    /// Whether the engine may answer `action` when told of Tab, and be `after`
    /// then.
    open spec fn may_tab(
        &self,
        text: Seq<u8>,
        cursor: int,
        selected: Option<SuggestionView>,
        action: TabView,
        after: &Self,
    ) -> bool {
        true
    }

    /// Whether the engine may answer `allowed` when asked about the built-in
    /// emoji, and be `after` then.
    open spec fn may_allow_emoji(&self, text: Seq<u8>, cursor: int, allowed: bool, after: &Self) -> bool {
        true
    }

    /// Whether the engine may be `after` once told that one of its rows was
    /// accepted.
    open spec fn may_accept(&self, replaced: Seq<u8>, row: SuggestionView, after: &Self) -> bool {
        true
    }

    /// Dropdown suggestions for the current text and byte cursor, or
    /// `None` to close the dropdown.
    fn suggest(&mut self, text: &str, cursor: usize) -> (found: Option<Suggestions>)
        ensures
            old(self).may_suggest(
                utf8(text@),
                cursor as int,
                suggestions_view(found),
                &*final(self),
            ),
    ;

    /// Dim ghost text rendered after the cursor (usage hints, AI
    /// completion). Re-queried after every edit. An engine without ghost text
    /// answers `None`.
    fn hint(&mut self, text: &str, cursor: usize) -> (hint: Option<String>)
        ensures
            old(self).may_hint(utf8(text@), cursor as int, shown_text(hint), &*final(self)),
    ;

    /// Tab pressed. `selected` is the highlighted row while this engine's
    /// dropdown is open. An engine with no say of its own answers as
    /// [`tab_plainly`] does: accepts the open row, otherwise passes Tab through
    /// to the embedding app. The built-in emoji dropdown always accepts
    /// without consulting the engine.
    fn tab(&mut self, text: &str, cursor: usize, selected: Option<&Suggestion>) -> (action:
        TabAction)
        ensures
            old(self).may_tab(
                utf8(text@),
                cursor as int,
                selected_view(selected),
                action@,
                &*final(self),
            ),
    ;

    /// Whether the editor may consult its built-in emoji provider after this
    /// engine declines. Slash-command argument contexts use this to keep
    /// `#action`/`:emoji` text literal while still allowing their own
    /// argument, GitHub-ref, URL, and file providers. Most engines answer
    /// `true`.
    fn allow_builtin_emoji(&mut self, text: &str, cursor: usize) -> (allowed: bool)
        ensures
            old(self).may_allow_emoji(utf8(text@), cursor as int, allowed, &*final(self)),
    ;

    /// One of this engine's rows was accepted: `replaced` is the buffer text
    /// the row's value overwrote (the typed trigger and query). Action rows
    /// record their side effect here for the host to apply.
    fn accepted(&mut self, replaced: &str, suggestion: &Suggestion)
        ensures
            old(self).may_accept(utf8(replaced@), suggestion@, &*final(self)),
    ;
}

/// What Tab means to an engine with no say of its own.
pub fn tab_plainly(row_open: bool) -> (action: TabAction)
    ensures
        action@ == plain_tab(row_open),
{
    if row_open {
        TabAction::Accept
    } else {
        TabAction::Pass
    }
}

/// One exchange between an editor and its completion engine.
pub enum Exchange {
    /// The engine was asked for rows.
    Suggest {
        /// The text asked about.
        text: Seq<u8>,
        /// The cursor asked about.
        cursor: int,
        /// The answer.
        found: Option<(int, int, Seq<SuggestionView>)>,
    },
    /// The engine was asked whether the built-in emoji may open.
    Emoji {
        /// The text asked about.
        text: Seq<u8>,
        /// The cursor asked about.
        cursor: int,
        /// The answer.
        allowed: bool,
    },
    /// The engine was asked for ghost text.
    Hint {
        /// The text asked about.
        text: Seq<u8>,
        /// The cursor asked about.
        cursor: int,
        /// The answer.
        hint: Option<Seq<char>>,
    },
    /// The engine was told of Tab.
    Tab {
        /// The text asked about.
        text: Seq<u8>,
        /// The cursor asked about.
        cursor: int,
        /// The selected row.
        selected: Option<SuggestionView>,
        /// The answer.
        action: TabView,
    },
    /// The engine was told that one of its rows was accepted.
    Accept {
        /// The text that the row overwrote.
        replaced: Seq<u8>,
        /// The row.
        row: SuggestionView,
    },
}

/// Whether an exchange takes the engine from `before` to `after`. Without an
/// engine there are no rows and no ghost text, emoji are allowed, and Tab
/// means what it plainly means.
pub open spec fn exchanged<C: EditorCompletion>(
    before: Option<C>,
    exchange: Exchange,
    after: Option<C>,
) -> bool {
    match before {
        None => after is None && match exchange {
            Exchange::Suggest { found, .. } => found is None,
            Exchange::Emoji { allowed, .. } => allowed,
            Exchange::Hint { hint, .. } => hint is None,
            Exchange::Tab { selected, action, .. } => action == plain_tab(selected is Some),
            Exchange::Accept { .. } => false,
        },
        Some(engine) => after is Some && match exchange {
            Exchange::Suggest { text, cursor, found } => engine.may_suggest(
                text,
                cursor,
                found,
                &after->0,
            ),
            Exchange::Emoji { text, cursor, allowed } => engine.may_allow_emoji(
                text,
                cursor,
                allowed,
                &after->0,
            ),
            Exchange::Hint { text, cursor, hint } => engine.may_hint(text, cursor, hint, &after->0),
            Exchange::Tab { text, cursor, selected, action } => engine.may_tab(
                text,
                cursor,
                selected,
                action,
                &after->0,
            ),
            Exchange::Accept { replaced, row } => engine.may_accept(replaced, row, &after->0),
        },
    }
}

/// Whether the exchanges that `to` has beyond `from` take the engine from
/// `before` to `after`, one by one.
pub open spec fn talked<C: EditorCompletion>(
    before: Option<C>,
    from: Seq<Exchange>,
    to: Seq<Exchange>,
    after: Option<C>,
) -> bool
    decreases to.len(),
{
    if to == from {
        after == before
    } else {
        to.len() > from.len() && exists|between: Option<C>|
            talked(before, from, to.drop_last(), between) && #[trigger] exchanged(
                between,
                to.last(),
                after,
            )
    }
}

/// One exchange more.
pub proof fn exchange_talks<C: EditorCompletion>(
    before: Option<C>,
    from: Seq<Exchange>,
    to: Seq<Exchange>,
    between: Option<C>,
    exchange: Exchange,
    after: Option<C>,
)
    requires
        talked(before, from, to, between),
        exchanged(between, exchange, after),
    ensures
        talked(before, from, to.push(exchange), after),
{
    talk_grows(before, from, to, between);
    assert(to.push(exchange).drop_last() =~= to);
    assert(to.push(exchange).last() == exchange);
    assert(to.push(exchange).len() > from.len());
}

/// A talk keeps what was said.
pub proof fn talk_grows<C: EditorCompletion>(
    before: Option<C>,
    from: Seq<Exchange>,
    to: Seq<Exchange>,
    after: Option<C>,
)
    requires
        talked(before, from, to, after),
    ensures
        from.len() <= to.len(),
        to.take(from.len() as int) == from,
    decreases to.len(),
{
    if to == from {
        assert(to.take(from.len() as int) =~= from);
    } else {
        let between = choose|between: Option<C>|
            talked(before, from, to.drop_last(), between) && #[trigger] exchanged(
                between,
                to.last(),
                after,
            );
        talk_grows(before, from, to.drop_last(), between);
        assert(to.take(from.len() as int) =~= to.drop_last().take(from.len() as int));
    }
}

/// Talks follow on one another.
pub proof fn talks_join<C: EditorCompletion>(
    first: Option<C>,
    from: Seq<Exchange>,
    middle: Seq<Exchange>,
    second: Option<C>,
    to: Seq<Exchange>,
    third: Option<C>,
)
    requires
        talked(first, from, middle, second),
        talked(second, middle, to, third),
    ensures
        talked(first, from, to, third),
    decreases to.len(),
{
    if to != middle {
        let between = choose|between: Option<C>|
            talked(second, middle, to.drop_last(), between) && #[trigger] exchanged(
                between,
                to.last(),
                third,
            );
        talks_join(first, from, middle, second, to.drop_last(), between);
        exchange_talks(first, from, to.drop_last(), between, to.last(), third);
        assert(to.drop_last().push(to.last()) =~= to);
    }
}

/// One retained row in a visible picker window.
pub enum PickerRow {
    /// Non-selectable category header.
    Header(String),
    /// Selectable suggestion, by its absolute picker index.
    Suggestion(usize),
}

/// One retained row in a visible picker window.
pub enum PickerRowView {
    /// Non-selectable category header.
    Header(Seq<char>),
    /// Selectable suggestion, by its absolute picker index.
    Suggestion(int),
}

impl View for PickerRow {
    type V = PickerRowView;

    open spec fn view(&self) -> PickerRowView {
        match *self {
            PickerRow::Header(label) => PickerRowView::Header(label@),
            PickerRow::Suggestion(index) => PickerRowView::Suggestion(index as int),
        }
    }
}

/// Active completion dropdown state.
pub struct Picker {
    /// First byte replaced on acceptance.
    pub start: usize,
    /// Byte behind the last one replaced.
    pub end: usize,
    /// The rows.
    pub suggestions: Vec<Suggestion>,
    /// The selected row.
    pub selected: usize,
    /// Exact request snapshot. Async producers may finish after another edit;
    /// acceptance is allowed only while generation, text, and caret still
    /// match.
    pub source_generation: u64,
    /// The text the rows were made for.
    pub source_text: String,
    /// The cursor the rows were made for.
    pub source_cursor: usize,
    /// Bytes between an assistance replacement and the request caret. These
    /// bytes remain in the buffer and the caret is restored after them.
    pub cursor_offset: usize,
    /// Produced by the registered engine (vs the built-in emoji dropdown).
    pub provided: bool,
    /// Window height at open time.
    pub rows: usize,
}

/// Completion dropdown state.
#[verifier::ext_equal]
pub struct PickerView {
    /// First byte replaced on acceptance.
    pub start: int,
    /// Byte behind the last one replaced.
    pub end: int,
    /// The rows.
    pub suggestions: Seq<SuggestionView>,
    /// The selected row.
    pub selected: int,
    /// Generation the rows were made in.
    pub source_generation: u64,
    /// The bytes of the text the rows were made for.
    pub source_text: Seq<u8>,
    /// The cursor the rows were made for.
    pub source_cursor: int,
    /// Bytes between the replaced range and the caret.
    pub cursor_offset: int,
    /// Produced by the registered engine.
    pub provided: bool,
    /// Window height.
    pub rows: int,
}

impl View for Picker {
    type V = PickerView;

    open spec fn view(&self) -> PickerView {
        PickerView {
            start: self.start as int,
            end: self.end as int,
            suggestions: suggestion_views(self.suggestions@),
            selected: self.selected as int,
            source_generation: self.source_generation,
            source_text: utf8(self.source_text@),
            source_cursor: self.source_cursor as int,
            cursor_offset: self.cursor_offset as int,
            provided: self.provided,
            rows: self.rows as int,
        }
    }
}

impl PickerView {
    /// A live picker has rows, a selected one, and a range of its text.
    pub open spec fn wf(self) -> bool {
        &&& 0 <= self.selected < self.suggestions.len()
        &&& 3 <= self.rows <= 20
        &&& self.start <= self.end
        &&& boundary(self.source_text, self.start)
        &&& boundary(self.source_text, self.end)
    }

    /// Rows in the window.
    pub open spec fn visible(self) -> int {
        if self.suggestions.len() < self.rows {
            self.suggestions.len() as int
        } else {
            self.rows
        }
    }

    /// First row of the window, which is centered on the selected row.
    pub open spec fn window_start(self) -> int {
        let wanted = self.selected - self.rows / 2;
        let last = self.suggestions.len() - self.visible();
        if wanted < 0 {
            0
        } else if wanted > last {
            last
        } else {
            wanted
        }
    }

    /// Whether all rows share one category.
    pub open spec fn uniform(self) -> bool {
        forall|i: int|
            0 <= i < self.suggestions.len() ==> (#[trigger] self.suggestions[i]).category
                == self.suggestions[0].category
    }

    /// The window's rows from position `at` on, a header at each change of
    /// category.
    pub open spec fn rows_from(self, at: int, category: Option<Seq<char>>) -> Seq<PickerRowView>
        decreases self.visible() - at,
    {
        if at >= self.visible() {
            Seq::empty()
        } else {
            let index = self.window_start() + at;
            let next = self.suggestions[index].category;
            let row = seq![PickerRowView::Suggestion(index)];
            if self.uniform() || next == category {
                row + self.rows_from(at + 1, category)
            } else {
                match next {
                    Some(header) => seq![PickerRowView::Header(header)] + row + self.rows_from(
                        at + 1,
                        next,
                    ),
                    None => row + self.rows_from(at + 1, next),
                }
            }
        }
    }
}

/// The views of picker rows.
pub open spec fn picker_row_views(rows: Seq<PickerRow>) -> Seq<PickerRowView> {
    rows.map_values(|row: PickerRow| row@)
}

impl Picker {
    /// The dropdown window height this picker opened with.
    #[must_use]
    pub fn rows(&self) -> (rows: usize)
        ensures
            rows == self@.rows,
    {
        self.rows
    }

    /// The first row of the window and the number of rows in it.
    pub fn window(&self) -> (window: (usize, usize))
        requires
            self@.wf(),
        ensures
            window.0 == self@.window_start(),
            window.1 == self@.visible(),
            window.0 + window.1 <= self.suggestions.len(),
    {
        let total: usize = self.suggestions.len();
        assert(self@.suggestions.len() == total);
        let visible: usize = if total < self.rows {
            total
        } else {
            self.rows
        };
        let half: usize = self.rows / 2;
        let wanted: usize = if self.selected >= half {
            self.selected - half
        } else {
            0
        };
        let start: usize = if wanted > total - visible {
            total - visible
        } else {
            wanted
        };
        (start, visible)
    }

    /// Returns the centered suggestion window (`rows` tall) and its first
    /// index.
    pub fn visible_suggestions(&self) -> (window: (usize, &[Suggestion]))
        requires
            self@.wf(),
        ensures
            window.0 == self@.window_start(),
            window.1@ == self.suggestions@.subrange(
                self@.window_start(),
                self@.window_start() + self@.visible(),
            ),
    {
        let (start, visible): (usize, usize) = self.window();
        (start, slice_subrange(self.suggestions.as_slice(), start, start + visible))
    }

    /// Whether all rows share one category.
    fn is_uniform(&self) -> (uniform: bool)
        requires
            self@.wf(),
        ensures
            uniform == self@.uniform(),
    {
        let ghost views = self@.suggestions;
        let mut at: usize = 0;
        assert(views.len() == self.suggestions.len());
        while at < self.suggestions.len()
            invariant
                at <= self.suggestions.len(),
                self.suggestions.len() > 0,
                views == self@.suggestions,
                views.len() == self.suggestions.len(),
                forall|i: int|
                    0 <= i < at ==> (#[trigger] views[i]).category == views[0].category,
            decreases self.suggestions.len() - at,
        {
            assert(views[at as int] == self.suggestions@[at as int]@);
            assert(views[0] == self.suggestions@[0]@);
            if !same_optional(&self.suggestions[at].category, &self.suggestions[0].category) {
                return false;
            }
            at += 1;
        }
        true
    }

    /// Returns visible rows including category headers. Headers only
    /// separate mixed categories: a dropdown whose rows all share one
    /// category is a plain list without a heading.
    pub fn visible_rows(&self) -> (rows: Vec<PickerRow>)
        requires
            self@.wf(),
        ensures
            picker_row_views(rows@) == self@.rows_from(0, None),
    {
        let (start, visible): (usize, usize) = self.window();
        let uniform: bool = self.is_uniform();
        let ghost picker = self@;
        let ghost goal = picker.rows_from(0, None);
        let mut rows: Vec<PickerRow> = Vec::new();
        let mut category: Option<String> = None;
        let mut at: usize = 0;
        assert(picker_row_views(rows@) + goal =~= goal);
        while at < visible
            invariant
                at <= visible,
                picker == self@,
                visible == picker.visible(),
                start == picker.window_start(),
                start + visible <= self.suggestions.len(),
                uniform == picker.uniform(),
                picker_row_views(rows@) + picker.rows_from(at as int, shown_text(category))
                    == goal,
            decreases visible - at,
        {
            let index: usize = start + at;
            let suggestion: &Suggestion = &self.suggestions[index];
            assert(picker.suggestions[index as int] == suggestion@);
            let ghost earlier = picker_row_views(rows@);
            let ghost rest = picker.rows_from(at as int, shown_text(category));
            if !uniform && !same_optional(&suggestion.category, &category) {
                category = copy_text(&suggestion.category);
                if let Some(header) = &suggestion.category {
                    rows.push(PickerRow::Header(header.clone()));
                    assert(picker_row_views(rows@) =~= earlier.push(PickerRowView::Header(header@)));
                }
            }
            let ghost headed = picker_row_views(rows@);
            rows.push(PickerRow::Suggestion(index));
            assert(picker_row_views(rows@) =~= headed.push(PickerRowView::Suggestion(index as int)));
            assert(picker_row_views(rows@) + picker.rows_from(at + 1, shown_text(category))
                =~= earlier + rest);
            at += 1;
        }
        assert(picker_row_views(rows@) =~= goal);
        rows
    }

    /// Returns the selected suggestion's absolute index.
    pub fn selected(&self) -> (index: usize)
        ensures
            index == self@.selected,
    {
        self.selected
    }

    /// Returns the total number of matching suggestions.
    pub fn len(&self) -> (count: usize)
        ensures
            count == self@.suggestions.len(),
    {
        self.suggestions.len()
    }

    /// Reports whether no suggestions matched (never true for a live picker).
    pub fn is_empty(&self) -> (empty: bool)
        ensures
            empty == (self@.suggestions.len() == 0),
    {
        self.suggestions.len() == 0
    }
}

/// The window shows the selected row.
pub proof fn window_shows_the_selected_row(picker: PickerView)
    requires
        picker.wf(),
    ensures
        picker.window_start() <= picker.selected < picker.window_start() + picker.visible(),
{
}

} // verus!
