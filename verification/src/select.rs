//! A filterable choice list: its options, its cursor and what keys do to it.
//!
//! The host scores options against the query; the library ranks, navigates and
//! commits.

use smol_bitmap::SmolBitmap;
use vstd::prelude::*;
use vstd::string::*;

use crate::bits::{ascending_listing, bits_get, bits_indices, bits_new, bits_set, set_bits};
use crate::commands::build_text;
use crate::events::{text_option, EventView, Flow, FlowView, HitTag, UiEvent};
use crate::input::{Key, Mouse};
use crate::strings::chars_of;
use crate::text::{ascii_clusters, content, push_char, ClusterView, Text};

verus! {

/// Content shown below an option: its natural width, and its height at the
/// width it is given.
#[derive(Clone, Copy, Debug, PartialEq, Eq, Structural)]
pub struct Preview {
    /// Natural width.
    pub natural: u16,
    /// Height.
    pub height: u16,
}

/// Declarative option data.
pub struct SelectOption {
    /// Label text.
    pub label: Text,
    /// Label of an option without text of its own.
    pub fallback: Option<Text>,
    /// Value; the label stands in for it.
    pub value: Option<String>,
    /// Description.
    pub desc: Option<Text>,
    /// Whether the option is recommended.
    pub recommended: bool,
    /// Whether it starts chosen.
    pub selected: bool,
    /// Whether the cursor rests on it.
    pub active: bool,
    /// Rows of its grid cells, for an option that shows cells and no label.
    pub rows: Option<u16>,
    /// Content shown below it.
    pub previews: Vec<Preview>,
}

impl SelectOption {
    /// Creates an empty option.
    pub fn new() -> (option: Self)
        ensures
            option.label@ == Seq::<ClusterView>::empty(),
            option.fallback is None,
            option.value is None,
            option.desc is None,
            !option.recommended && !option.selected && !option.active,
            option.rows is None,
            option.previews@ == Seq::<Preview>::empty(),
    {
        SelectOption {
            label: Text::empty(),
            fallback: None,
            value: None,
            desc: None,
            recommended: false,
            selected: false,
            active: false,
            rows: None,
            previews: Vec::new(),
        }
    }

    /// Appends label text. `joined` is the whole label, measured anew: a
    /// cluster may reach across the seam.
    pub fn label(self, label: &str, joined: Text) -> (option: Self)
        requires
            content(joined@) == content(self.label@) + label@,
        ensures
            option == (SelectOption { label: joined, ..self }),
    {
        let mut option: SelectOption = self;
        option.label = joined;
        option
    }

    /// The label to show: the option's text, or its fallback.
    pub fn shown_label(&self) -> (label: Text)
        ensures
            label@ == shown_label(*self),
    {
        if !self.label.is_empty() {
            return self.label.copy();
        }
        match &self.fallback {
            Some(label) => label.copy(),
            None => Text::empty(),
        }
    }
}

/// The label of an option: its text, or its fallback.
pub open spec fn shown_label(option: SelectOption) -> Seq<ClusterView> {
    if content(option.label@).len() > 0 {
        option.label@
    } else {
        match option.fallback {
            Some(label) => label@,
            None => Seq::empty(),
        }
    }
}

/// One option of a select.
pub struct OptionData {
    /// Label.
    pub label: Text,
    /// Value.
    pub value: String,
    /// Description.
    pub desc: Option<Text>,
    /// Whether it is recommended.
    pub recommended: bool,
    /// Whether it starts chosen.
    pub selected: bool,
    /// Whether the cursor rests on it.
    pub active: bool,
    /// Whether it takes a typed value.
    pub custom: bool,
    /// Rows of its grid cells.
    pub rows: Option<u16>,
    /// Content shown below it.
    pub previews: Vec<Preview>,
}

/// One option of a select.
pub struct OptionView {
    /// Label.
    pub label: Seq<ClusterView>,
    /// Value.
    pub value: Seq<char>,
    /// Description.
    pub desc: Option<Seq<ClusterView>>,
    /// Whether it is recommended.
    pub recommended: bool,
    /// Whether it starts chosen.
    pub selected: bool,
    /// Whether the cursor rests on it.
    pub active: bool,
    /// Whether it takes a typed value.
    pub custom: bool,
    /// Rows of its grid cells.
    pub rows: Option<u16>,
    /// Content shown below it.
    pub previews: Seq<Preview>,
}

/// A measured text, where there is one.
pub open spec fn measured_option(text: Option<Text>) -> Option<Seq<ClusterView>> {
    match text {
        Some(shown) => Some(shown@),
        None => None,
    }
}

impl View for OptionData {
    type V = OptionView;

    open spec fn view(&self) -> OptionView {
        OptionView {
            label: self.label@,
            value: self.value@,
            desc: measured_option(self.desc),
            recommended: self.recommended,
            selected: self.selected,
            active: self.active,
            custom: self.custom,
            rows: self.rows,
            previews: self.previews@,
        }
    }
}

/// The views of options.
pub open spec fn option_views(options: Seq<OptionData>) -> Seq<OptionView> {
    options.map_values(|option: OptionData| option@)
}

/// Rows an option takes on screen; none while it is out of the window.
#[derive(Clone, Copy, Debug, PartialEq, Eq, Structural)]
pub struct OptionLayout {
    /// First row.
    pub top: u16,
    /// Rows.
    pub height: u16,
}

/// An option without a place.
pub open spec fn unplaced() -> OptionLayout {
    OptionLayout { top: 0, height: 0 }
}

/// A filterable choice list.
pub struct Select {
    /// Name the select reports events under.
    pub id: Option<String>,
    /// Title.
    pub label: Option<Text>,
    /// The options in declaration order.
    pub options: Vec<OptionData>,
    /// Where each option stands.
    pub layouts: Vec<OptionLayout>,
    /// Whether several options can be chosen.
    pub multi: bool,
    /// Whether the options can be filtered.
    pub filter: bool,
    /// Row under the cursor, among the visible ones.
    pub cursor: u16,
    /// Chosen options.
    pub chosen: SmolBitmap,
    /// Value typed for the custom option.
    pub custom_text: String,
    /// Whether that value is being typed.
    pub editing: bool,
    /// Filter query.
    pub filter_q: String,
    /// Whether the query is being typed.
    pub searching: bool,
    /// First row of the window, among the visible ones.
    pub scroll: u16,
    /// Rows of title and query.
    pub header_rows: u16,
    /// Options that fit the last placed window; page-jump stride.
    pub page: u16,
    /// Options that match the query, in display order.
    pub visible: Vec<u16>,
}

/// A filterable choice list.
#[verifier::ext_equal]
pub struct SelectView {
    /// Name the select reports events under.
    pub id: Option<Seq<char>>,
    /// Title.
    pub label: Option<Seq<ClusterView>>,
    /// The options in declaration order.
    pub options: Seq<OptionView>,
    /// Where each option stands.
    pub layouts: Seq<OptionLayout>,
    /// Whether several options can be chosen.
    pub multi: bool,
    /// Whether the options can be filtered.
    pub filter: bool,
    /// Row under the cursor.
    pub cursor: u16,
    /// Chosen options.
    pub chosen: Set<usize>,
    /// Value typed for the custom option.
    pub custom_text: Seq<char>,
    /// Whether that value is being typed.
    pub editing: bool,
    /// Filter query.
    pub filter_q: Seq<char>,
    /// Whether the query is being typed.
    pub searching: bool,
    /// First row of the window.
    pub scroll: u16,
    /// Rows of title and query.
    pub header_rows: u16,
    /// Page-jump stride.
    pub page: u16,
    /// Options that match the query, in display order.
    pub visible: Seq<u16>,
}

impl View for Select {
    type V = SelectView;

    open spec fn view(&self) -> SelectView {
        SelectView {
            id: text_option(self.id),
            label: measured_option(self.label),
            options: option_views(self.options@),
            layouts: self.layouts@,
            multi: self.multi,
            filter: self.filter,
            cursor: self.cursor,
            chosen: set_bits(self.chosen),
            custom_text: self.custom_text@,
            editing: self.editing,
            filter_q: self.filter_q@,
            searching: self.searching,
            scroll: self.scroll,
            header_rows: self.header_rows,
            page: self.page,
            visible: self.visible@,
        }
    }
}

/// Score of an option; lower is better, nothing where it does not match.
pub open spec fn score_of(scores: Seq<Option<i32>>, index: int) -> Option<i32> {
    if 0 <= index < scores.len() {
        scores[index]
    } else {
        None
    }
}

/// Scores count in steps of a thousand, so that near ties go by other merits.
pub open spec fn bucket(score: i32) -> int {
    (score + 500) / 1000
}

/// Whether option `a` ranks ahead of option `b`: by score, then recommended
/// ones first, then in declaration order.
pub open spec fn ranks_ahead(
    options: Seq<OptionView>,
    scores: Seq<Option<i32>>,
    a: int,
    b: int,
) -> bool {
    let first = bucket(score_of(scores, a)->0);
    let second = bucket(score_of(scores, b)->0);
    ||| first < second
    ||| first == second && options[a].recommended && !options[b].recommended
    ||| first == second && options[a].recommended == options[b].recommended && a < b
}

/// An order with one more option at its rank.
pub open spec fn with_rank(
    options: Seq<OptionView>,
    scores: Seq<Option<i32>>,
    order: Seq<u16>,
    index: u16,
) -> Seq<u16>
    decreases order.len(),
{
    if order.len() > 0 && ranks_ahead(options, scores, index as int, order.last() as int) {
        with_rank(options, scores, order.drop_last(), index).push(order.last())
    } else {
        order.push(index)
    }
}

/// The matching ones of the first `count` options, best first.
pub open spec fn ranked(options: Seq<OptionView>, scores: Seq<Option<i32>>, count: int) -> Seq<u16>
    decreases count,
{
    if count <= 0 {
        Seq::empty()
    } else if score_of(scores, count - 1) is Some {
        with_rank(options, scores, ranked(options, scores, count - 1), (count - 1) as u16)
    } else {
        ranked(options, scores, count - 1)
    }
}

/// All options in declaration order.
pub open spec fn in_order(count: int) -> Seq<u16> {
    Seq::new(
        (if count < 0 {
            0
        } else {
            count as nat
        }),
        |i: int| i as u16,
    )
}

/// Scores, where there is a query to score against.
pub open spec fn scores_view(scores: Option<Vec<Option<i32>>>) -> Option<Seq<Option<i32>>> {
    match scores {
        Some(list) => Some(list@),
        None => None,
    }
}

/// What a key comes to before the options are filtered again.
pub enum Step {
    /// The key is dealt with.
    Done(Flow),
    /// The query changed: the options are to be scored and filtered.
    Refilter,
}

/// What a key comes to.
pub struct StepView {
    /// The select after the key.
    pub state: SelectView,
    /// What became of the key; nothing while the options are to be filtered.
    pub flow: Option<FlowView>,
}

/// What a step says.
pub open spec fn step_flow(step: Step) -> Option<FlowView> {
    match step {
        Step::Done(flow) => Some(flow@),
        Step::Refilter => None,
    }
}

/// The first `kept` characters, or all of a shorter text.
pub open spec fn kept_front(text: Seq<char>, kept: usize) -> Seq<char> {
    if kept <= text.len() {
        text.take(kept as int)
    } else {
        text
    }
}

/// The text without its last character.
pub open spec fn without_last(text: Seq<char>) -> Seq<char> {
    if text.len() > 0 {
        text.drop_last()
    } else {
        text
    }
}

/// The first option from `at` on that takes a typed value.
pub open spec fn custom_from(options: Seq<OptionView>, at: int) -> Option<int>
    decreases options.len() - at,
{
    if at < 0 || at >= options.len() {
        None
    } else if options[at].custom {
        Some(at)
    } else {
        custom_from(options, at + 1)
    }
}

/// The first option from `at` on that is recommended.
pub open spec fn recommended_from(options: Seq<OptionView>, at: int) -> Option<int>
    decreases options.len() - at,
{
    if at < 0 || at >= options.len() {
        None
    } else if options[at].recommended {
        Some(at)
    } else {
        recommended_from(options, at + 1)
    }
}

/// The first option from `at` on that the cursor rests on.
pub open spec fn active_from(options: Seq<OptionView>, at: int) -> Option<int>
    decreases options.len() - at,
{
    if at < 0 || at >= options.len() {
        None
    } else if options[at].active {
        Some(at)
    } else {
        active_from(options, at + 1)
    }
}

/// Whether a label starts with a digit, a dot and a space.
pub open spec fn numbered(label: Seq<char>, digit: char) -> bool {
    label.len() >= 3 && label[0] == digit && label[1] == '.' && label[2] == ' '
}

/// The first option from `at` on whose label is numbered with `digit`.
pub open spec fn numbered_from(options: Seq<OptionView>, digit: char, at: int) -> Option<int>
    decreases options.len() - at,
{
    if at < 0 || at >= options.len() {
        None
    } else if numbered(content(options[at].label), digit) {
        Some(at)
    } else {
        numbered_from(options, digit, at + 1)
    }
}

/// The row among `visible`, from `at` on, that shows option `index`.
pub open spec fn row_of(visible: Seq<u16>, index: int, at: int) -> Option<int>
    decreases visible.len() - at,
{
    if at < 0 || at >= visible.len() {
        None
    } else if visible[at] == index {
        Some(at)
    } else {
        row_of(visible, index, at + 1)
    }
}

/// Chosen options once another option stands at `at`.
pub open spec fn shifted_up(chosen: Set<usize>, at: int) -> Set<usize> {
    Set::new(
        |index: usize|
            index < at && chosen.contains(index) || index > at && chosen.contains(
                (index - 1) as usize,
            ),
    )
}

/// Chosen options once the option at `at` is gone.
pub open spec fn shifted_down(chosen: Set<usize>, at: int) -> Set<usize> {
    Set::new(
        |index: usize|
            index < at && chosen.contains(index) || index >= at && index < 65536 && chosen.contains(
                (index + 1) as usize,
            ),
    )
}

/// Whether `index` is the smallest chosen option.
pub open spec fn is_first(chosen: Set<usize>, index: usize) -> bool {
    chosen.contains(index) && forall|other: usize| #[trigger]
        chosen.contains(other) ==> index <= other
}

/// The smallest chosen option.
pub open spec fn first_choice(chosen: Set<usize>) -> Option<usize> {
    if exists|index: usize| is_first(chosen, index) {
        Some(choose|index: usize| is_first(chosen, index))
    } else {
        None
    }
}

impl SelectView {
    /// Every list is as long as it should be, and only options are shown and
    /// chosen.
    pub open spec fn wf(self) -> bool {
        &&& self.options.len() < 65536
        &&& self.layouts.len() == self.options.len()
        &&& self.visible.len() <= self.options.len()
        &&& forall|i: int|
            0 <= i < self.visible.len() ==> (#[trigger] self.visible[i]) < self.options.len()
        &&& forall|index: usize| #[trigger]
            self.chosen.contains(index) ==> index < self.options.len()
    }

    /// Whether typing edits the query directly: a filterable single select needs
    /// no search mode, while multi selects keep Space for toggling.
    pub open spec fn types_to_filter(self) -> bool {
        self.filter && !self.multi
    }

    /// The select with its options filtered.
    pub open spec fn refiltered(self, scores: Option<Seq<Option<i32>>>) -> Self {
        SelectView {
            visible: match scores {
                Some(list) => ranked(self.options, list, self.options.len() as int),
                None => in_order(self.options.len() as int),
            },
            ..self
        }
    }

    /// Value of an option: what was typed for the custom one.
    pub open spec fn option_value(self, index: int) -> Seq<char> {
        if self.options[index].custom {
            self.custom_text
        } else {
            self.options[index].value
        }
    }

    /// Value of the option under the cursor.
    pub open spec fn cursor_value(self) -> Option<Seq<char>> {
        if self.cursor < self.visible.len() {
            Some(self.option_value(self.visible[self.cursor as int] as int))
        } else {
            None
        }
    }

    /// What a cursor move reports.
    pub open spec fn highlight(self) -> FlowView {
        match (self.id, self.cursor_value()) {
            (Some(id), Some(value)) => FlowView::Event(EventView::Highlighted { id, value }),
            _ => FlowView::Consumed,
        }
    }

    /// Whether the rows up to the cursor are the same in `next`.
    pub open spec fn stable(self, next: Self) -> bool {
        self.cursor < self.visible.len() && self.cursor < next.visible.len()
            && next.visible.take(self.cursor + 1) == self.visible.take(self.cursor + 1)
    }

    /// The select after its query changed. The cursor stays on its row only
    /// while every visible row up to it survives unchanged; otherwise it
    /// returns to the best match.
    pub open spec fn filtered(self, scores: Option<Seq<Option<i32>>>) -> Self {
        let next = self.refiltered(scores);
        SelectView {
            cursor: if self.stable(next) {
                self.cursor
            } else {
                0
            },
            ..next
        }
    }

    /// What a query change reports.
    pub open spec fn filter_report(self) -> FlowView {
        match self.id {
            Some(id) => FlowView::Event(
                EventView::Filtered { id, query: self.filter_q, value: self.cursor_value() },
            ),
            None => FlowView::Consumed,
        }
    }

    /// Where the cursor goes by `delta`: wrapping, or held at the ends.
    pub open spec fn target(self, delta: int, wrap: bool) -> int {
        let count = self.visible.len() as int;
        if count == 0 {
            self.cursor as int
        } else if wrap {
            (self.cursor + delta) % count
        } else if self.cursor + delta < 0 {
            0
        } else if self.cursor + delta >= count {
            count - 1
        } else {
            self.cursor + delta
        }
    }

    /// The select after a cursor move; `edge` is what becomes of a move that
    /// goes nowhere.
    pub open spec fn moved(self, delta: int, wrap: bool, edge: FlowView) -> StepView {
        let next = SelectView { cursor: self.target(delta, wrap) as u16, ..self };
        StepView {
            state: next,
            flow: Some(
                if next.cursor == self.cursor {
                    edge
                } else {
                    next.highlight()
                },
            ),
        }
    }

    /// The select with an option chosen, or toggled among several. Choosing the
    /// custom option starts the typing of its value.
    pub open spec fn activated(self, index: usize) -> Self {
        let chosen = if self.multi && self.chosen.contains(index) {
            self.chosen.remove(index)
        } else if self.multi {
            self.chosen.insert(index)
        } else {
            Set::empty().insert(index)
        };
        SelectView {
            chosen,
            editing: self.editing || self.options[index as int].custom && chosen.contains(index),
            ..self
        }
    }

    /// The select after a commit, with its report. The report of a custom option
    /// waits for the typed value.
    pub open spec fn committed(self, index: usize) -> StepView {
        let next = self.activated(index);
        StepView {
            state: next,
            flow: Some(
                match self.id {
                    Some(id) if !next.editing => FlowView::Event(
                        EventView::Changed { id, value: next.option_value(index as int) },
                    ),
                    _ => FlowView::Consumed,
                },
            ),
        }
    }

    /// What a key does while the custom value is typed.
    pub open spec fn custom_typed(self, key: Key, kept: usize) -> StepView {
        let consumed = |state: SelectView| StepView { state, flow: Some(FlowView::Consumed) };
        match key {
            Key::Enter => StepView {
                state: SelectView { editing: false, ..self },
                flow: Some(
                    match self.id {
                        Some(id) => FlowView::Event(
                            EventView::Changed { id, value: self.custom_text },
                        ),
                        None => FlowView::Consumed,
                    },
                ),
            },
            Key::Esc => consumed(
                SelectView { editing: false, custom_text: Seq::empty(), ..self },
            ),
            Key::Backspace => consumed(
                SelectView { custom_text: without_last(self.custom_text), ..self },
            ),
            Key::Space => consumed(SelectView { custom_text: self.custom_text.push(' '), ..self }),
            Key::Char(c) => consumed(SelectView { custom_text: self.custom_text.push(c), ..self }),
            Key::Ctrl(c) if c == 'u' => consumed(SelectView { custom_text: Seq::empty(), ..self }),
            Key::Ctrl(c) if c == 'w' => consumed(
                SelectView { custom_text: kept_front(self.custom_text, kept), ..self },
            ),
            _ => consumed(self),
        }
    }

    /// The option a digit jumps to while the query is empty.
    ///
    /// Numbered rows may follow unnumbered context rows, so the digit matches
    /// the label's prefix rather than its list position.
    pub open spec fn quick_target(self, key: Key) -> Option<int> {
        match key {
            Key::Char(digit) if self.filter_q.len() == 0 && '1' <= digit && digit <= '9' =>
                numbered_from(self.options, digit, 0),
            _ => None,
        }
    }

    /// The select after a digit. Multi-selects only move the cursor;
    /// single-selects commit immediately.
    pub open spec fn quick_selected(self, index: int) -> StepView {
        let next = SelectView { cursor: index as u16, ..self };
        if self.multi {
            StepView { state: next, flow: Some(next.highlight()) }
        } else {
            next.committed(index as usize)
        }
    }

    /// What a key does to the query, for keys that edit it.
    pub open spec fn query_typed(self, key: Key, kept: usize) -> Option<StepView> {
        let edited = |query: Seq<char>, searching: bool|
            Some(StepView { state: SelectView { filter_q: query, searching, ..self }, flow: None });
        let stopped = Some(
            StepView {
                state: SelectView { searching: false, ..self },
                flow: Some(FlowView::Consumed),
            },
        );
        match key {
            Key::Char(c) => edited(self.filter_q.push(c), self.searching),
            Key::Space => if self.types_to_filter() {
                edited(self.filter_q.push(' '), self.searching)
            } else {
                None
            },
            Key::Backspace => if self.filter_q.len() == 0 {
                stopped
            } else {
                edited(self.filter_q.drop_last(), self.searching)
            },
            Key::Ctrl(c) => if c == 'u' && self.filter_q.len() > 0 {
                edited(Seq::empty(), self.searching)
            } else if c == 'w' && self.filter_q.len() > 0 {
                edited(kept_front(self.filter_q, kept), self.searching)
            } else {
                None
            },
            Key::Esc => if self.filter_q.len() > 0 {
                edited(Seq::empty(), false)
            } else if self.searching {
                stopped
            } else {
                None
            },
            Key::Enter => if self.searching {
                stopped
            } else {
                None
            },
            _ => None,
        }
    }

    /// Row the cursor stands on, held at the last.
    pub open spec fn cursor_row(self) -> int {
        if self.cursor < self.visible.len() {
            self.cursor as int
        } else {
            self.visible.len() - 1
        }
    }

    /// What a key does to the list.
    pub open spec fn navigated(self, key: Key) -> StepView {
        let rows = self.visible.len() > 0;
        let skipped = StepView { state: self, flow: Some(FlowView::Skip) };
        let stride = if self.page > 1 {
            self.page as int
        } else {
            1
        };
        match key {
            Key::Up => if rows {
                self.moved(-1, self.filter, FlowView::Skip)
            } else {
                skipped
            },
            Key::Down => if rows {
                self.moved(1, self.filter, FlowView::Skip)
            } else {
                skipped
            },
            Key::PageUp => if rows {
                self.moved(-stride, false, FlowView::Consumed)
            } else {
                skipped
            },
            Key::PageDown => if rows {
                self.moved(stride, false, FlowView::Consumed)
            } else {
                skipped
            },
            Key::Home => if rows {
                self.moved(-65535, false, FlowView::Consumed)
            } else {
                skipped
            },
            Key::End => if rows {
                self.moved(65535, false, FlowView::Consumed)
            } else {
                skipped
            },
            Key::Enter => if self.multi {
                StepView { state: self, flow: Some(FlowView::Event(EventView::Submit)) }
            } else if rows {
                self.committed(self.visible[self.cursor_row()] as usize)
            } else {
                skipped
            },
            Key::Space => if rows && !self.types_to_filter() {
                self.committed(self.visible[self.cursor_row()] as usize)
            } else {
                skipped
            },
            Key::Char(c) => if c == '/' && self.filter && !self.types_to_filter() {
                StepView {
                    state: SelectView { searching: true, ..self },
                    flow: Some(FlowView::Consumed),
                }
            } else {
                skipped
            },
            Key::Esc => if self.filter_q.len() > 0 {
                StepView { state: SelectView { filter_q: Seq::empty(), ..self }, flow: None }
            } else {
                skipped
            },
            _ => skipped,
        }
    }

    /// What a key does: typing of the custom value first, then a digit's jump,
    /// then query editing (always on for filterable single selects, armed
    /// otherwise), then list navigation.
    pub open spec fn dispatched(self, key: Key, kept: usize) -> StepView {
        let typing = (self.types_to_filter() || self.searching) && !(key is Up || key is Down);
        if self.editing {
            self.custom_typed(key, kept)
        } else if self.quick_target(key) is Some {
            self.quick_selected(self.quick_target(key)->0)
        } else if typing && self.query_typed(key, kept) is Some {
            self.query_typed(key, kept)->0
        } else {
            self.navigated(key)
        }
    }

    /// The select with one more option at `at`.
    pub open spec fn with_option(
        self,
        at: int,
        option: OptionView,
        scores: Option<Seq<Option<i32>>>,
    ) -> Self {
        let grown = SelectView {
            options: self.options.insert(at, option),
            layouts: self.layouts.insert(at, unplaced()),
            ..self
        };
        let shown = if self.filter_q.len() == 0 && at == self.options.len() {
            SelectView { visible: self.visible.push(at as u16), ..grown }
        } else {
            grown.refiltered(scores)
        };
        let kept = shifted_up(self.chosen, at);
        let settled = if option.recommended && !self.multi && kept == Set::<usize>::empty() {
            kept.insert(at as usize)
        } else {
            kept
        };
        SelectView {
            chosen: if option.selected && self.multi {
                settled.insert(at as usize)
            } else if option.selected {
                Set::empty().insert(at as usize)
            } else {
                settled
            },
            ..shown
        }
    }

    /// The select without the option at `at`.
    pub open spec fn without_option(self, at: int, scores: Option<Seq<Option<i32>>>) -> Self {
        let last = if self.options.len() >= 2 {
            self.options.len() - 2
        } else {
            0
        };
        SelectView {
            chosen: shifted_down(self.chosen, at),
            cursor: if self.cursor <= last {
                self.cursor
            } else {
                last as u16
            },
            ..(SelectView {
                options: self.options.remove(at),
                layouts: self.layouts.remove(at),
                ..self
            }).refiltered(scores)
        }
    }

    /// The select with its recommended option chosen, where none is.
    pub open spec fn with_recommended(self) -> Self {
        if self.chosen == Set::<usize>::empty() && recommended_from(self.options, 0) is Some {
            SelectView {
                chosen: Set::empty().insert(recommended_from(self.options, 0)->0 as usize),
                ..self
            }
        } else {
            self
        }
    }

    /// Where the cursor rests when focus comes in: on the active option, on the
    /// choice of a single select, or at the edge that was crossed.
    pub open spec fn entry(self, forward: bool) -> u16 {
        let active = match active_from(self.options, 0) {
            Some(index) => row_of(self.visible, index, 0),
            None => None,
        };
        let choice = match first_choice(self.chosen) {
            Some(index) if !self.multi => row_of(self.visible, index as int, 0),
            _ => None,
        };
        if self.visible.len() == 0 {
            self.cursor
        } else if active is Some {
            active->0 as u16
        } else if choice is Some {
            choice->0 as u16
        } else if forward {
            0
        } else {
            (self.visible.len() - 1) as u16
        }
    }
}

/// Scores count in steps of a thousand.
fn bucket_of(score: i32) -> (step: i64)
    ensures
        step == bucket(score),
{
    let shifted: u64 = (score as i64 + 500 + 3_000_000_000) as u64;
    (shifted / 1000) as i64 - 3_000_000
}

/// A text without its last character; whether there was one.
fn pop_last(text: &mut String) -> (popped: bool)
    ensures
        final(text)@ == without_last(old(text)@),
        popped == (old(text)@.len() > 0),
{
    let chars: Vec<char> = chars_of(text.as_str());
    if chars.len() == 0 {
        return false;
    }
    let shorter: String = build_text(&chars, 0, chars.len() - 1);
    assert(chars@.subrange(0, chars@.len() - 1) =~= chars@.drop_last());
    *text = shorter;
    true
}

/// Keeps the first characters of a text.
fn keep_front(text: &mut String, kept: usize)
    ensures
        final(text)@ == kept_front(old(text)@, kept),
{
    let chars: Vec<char> = chars_of(text.as_str());
    if kept <= chars.len() {
        let shorter: String = build_text(&chars, 0, kept);
        assert(chars@.subrange(0, kept as int) =~= chars@.take(kept as int));
        *text = shorter;
    }
}

/// An empty text.
fn no_text() -> (text: String)
    ensures
        text@ == Seq::<char>::empty(),
{
    let text: String = "".to_owned();
    proof {
        reveal_strlit("");
        assert(text@ =~= Seq::<char>::empty());
    }
    text
}

/// The characters of a measured text.
pub fn text_content(text: &Text) -> (chars: String)
    ensures
        chars@ == content(text@),
{
    let mut chars: String = no_text();
    let mut at: usize = 0;
    assert(text@.take(0) =~= Seq::empty());
    while at < text.clusters.len()
        invariant
            at <= text.clusters.len(),
            chars@ == content(text@.take(at as int)),
        decreases text.clusters.len() - at,
    {
        assert(text@.take(at + 1).drop_last() =~= text@.take(at as int));
        assert(text@.take(at + 1).last() == text@[at as int]);
        chars.append(text.clusters[at].text.as_str());
        at += 1;
    }
    assert(text@.take(at as int) =~= text@);
    chars
}

/// Whether two lists start with the same entries.
fn same_front(a: &Vec<u16>, b: &Vec<u16>, count: usize) -> (same: bool)
    requires
        count <= a@.len(),
        count == b@.len(),
    ensures
        same == (a@.take(count as int) == b@),
{
    let mut at: usize = 0;
    while at < count
        invariant
            at <= count <= a@.len(),
            count == b@.len(),
            forall|i: int| 0 <= i < at ==> a@[i] == b@[i],
        decreases count - at,
    {
        if a[at] != b[at] {
            assert(a@.take(count as int)[at as int] != b@[at as int]);
            return false;
        }
        at += 1;
    }
    assert(a@.take(count as int) =~= b@);
    true
}

/// Lists hold options at their ranks.
proof fn rank_is_insertion(
    options: Seq<OptionView>,
    scores: Seq<Option<i32>>,
    order: Seq<u16>,
    index: u16,
    at: int,
)
    requires
        0 <= at <= order.len(),
        at == 0 || !ranks_ahead(options, scores, index as int, order[at - 1] as int),
        forall|i: int|
            at <= i < order.len() ==> ranks_ahead(
                options,
                scores,
                index as int,
                #[trigger] order[i] as int,
            ),
    ensures
        with_rank(options, scores, order, index) == order.insert(at, index),
    decreases order.len(),
{
    if order.len() > at {
        assert(order.last() == order[order.len() - 1]);
        rank_is_insertion(options, scores, order.drop_last(), index, at);
        assert(order.drop_last().insert(at, index).push(order.last()) =~= order.insert(at, index));
    } else {
        assert(order.push(index) =~= order.insert(at, index));
    }
}

impl Select {
    /// Every list is as long as it should be.
    pub open spec fn wf(self) -> bool {
        self@.wf()
    }

    /// Creates an empty select.
    pub fn new() -> (select: Self)
        ensures
            select.wf(),
            select@ == (SelectView {
                id: None,
                label: None,
                options: Seq::empty(),
                layouts: Seq::empty(),
                multi: false,
                filter: false,
                cursor: 0,
                chosen: Set::empty(),
                custom_text: Seq::empty(),
                editing: false,
                filter_q: Seq::empty(),
                searching: false,
                scroll: 0,
                header_rows: 0,
                page: 0,
                visible: Seq::empty(),
            }),
    {
        let select = Select {
            id: None,
            label: None,
            options: Vec::new(),
            layouts: Vec::new(),
            multi: false,
            filter: false,
            cursor: 0,
            chosen: bits_new(),
            custom_text: no_text(),
            editing: false,
            filter_q: no_text(),
            searching: false,
            scroll: 0,
            header_rows: 0,
            page: 0,
            visible: Vec::new(),
        };
        assert(select@.options =~= Seq::empty());
        select
    }

    /// Sets the name and title.
    pub fn with(self, id: Option<String>, label: Option<Text>) -> (select: Self)
        requires
            self.wf(),
        ensures
            select.wf(),
            select@ == (SelectView {
                id: text_option(id),
                label: measured_option(label),
                ..self@
            }),
    {
        let mut select: Select = self;
        select.id = id;
        select.label = label;
        select
    }

    /// Sets the name.
    pub fn with_str(self, id: &str) -> (select: Self)
        requires
            self.wf(),
        ensures
            select.wf(),
            select@ == (SelectView { id: Some(id@), ..self@ }),
    {
        let mut select: Select = self;
        select.id = Some(id.to_owned());
        select
    }

    /// Options that match the query.
    pub fn visible_len(&self) -> (count: usize)
        ensures
            count == self@.visible.len(),
    {
        self.visible.len()
    }

    /// Option index under the cursor, in declaration order.
    pub fn cursor_option(&self) -> (index: Option<usize>)
        ensures
            index == (if self@.cursor < self@.visible.len() {
                Some(self@.visible[self@.cursor as int] as usize)
            } else {
                None
            }),
    {
        let row: usize = self.cursor as usize;
        if row < self.visible.len() {
            Some(self.visible[row] as usize)
        } else {
            None
        }
    }

    /// Whether option `a` ranks ahead of option `b`.
    fn is_ahead(&self, scores: &Vec<Option<i32>>, a: usize, b: usize) -> (yes: bool)
        requires
            a < self@.options.len(),
            b < self@.options.len(),
            score_of(scores@, a as int) is Some,
            score_of(scores@, b as int) is Some,
        ensures
            yes == ranks_ahead(self@.options, scores@, a as int, b as int),
    {
        match (scores[a], scores[b]) {
            (Some(x), Some(y)) => {
                let first: i64 = bucket_of(x);
                let second: i64 = bucket_of(y);
                let better: bool = self.options[a].recommended;
                let other: bool = self.options[b].recommended;
                first < second || first == second && (better && !other || better == other && a < b)
            },
            _ => false,
        }
    }

    /// Recomputes the visible rows: every option without a query, otherwise the
    /// matching ones, best first.
    pub fn refilter(&mut self, scores: &Option<Vec<Option<i32>>>)
        requires
            old(self).wf(),
        ensures
            final(self).wf(),
            final(self)@ == old(self)@.refiltered(scores_view(*scores)),
    {
        let count: usize = self.options.len();
        let mut visible: Vec<u16> = Vec::new();
        match scores {
            None => {
                let mut at: usize = 0;
                while at < count
                    invariant
                        at <= count,
                        count == self@.options.len(),
                        count < 65536,
                        visible@ == in_order(at as int),
                    decreases count - at,
                {
                    visible.push(at as u16);
                    at += 1;
                    assert(visible@ =~= in_order(at as int));
                }
            },
            Some(list) => {
                let mut at: usize = 0;
                while at < count
                    invariant
                        at <= count,
                        count == self@.options.len(),
                        count < 65536,
                        visible@ == ranked(self@.options, list@, at as int),
                        visible@.len() <= at,
                        forall|i: int|
                            0 <= i < visible@.len() ==> (#[trigger] visible@[i]) < at && score_of(
                                list@,
                                visible@[i] as int,
                            ) is Some,
                    decreases count - at,
                {
                    if at < list.len() && list[at].is_some() {
                        let mut place: usize = visible.len();
                        while place > 0 && self.is_ahead(list, at, visible[place - 1] as usize)
                            invariant
                                place <= visible@.len(),
                                at < self@.options.len(),
                                score_of(list@, at as int) is Some,
                                forall|i: int|
                                    0 <= i < visible@.len() ==> (#[trigger] visible@[i]) < at
                                        && score_of(list@, visible@[i] as int) is Some,
                                forall|i: int|
                                    place <= i < visible@.len() ==> ranks_ahead(
                                        self@.options,
                                        list@,
                                        at as int,
                                        #[trigger] visible@[i] as int,
                                    ),
                            decreases place,
                        {
                            place -= 1;
                        }
                        proof {
                            rank_is_insertion(
                                self@.options,
                                list@,
                                visible@,
                                at as u16,
                                place as int,
                            );
                        }
                        visible.insert(place, at as u16);
                    }
                    at += 1;
                }
            },
        }
        self.visible = visible;
    }

    /// Value of an option.
    fn value_at(&self, index: usize) -> (value: String)
        requires
            index < self@.options.len(),
        ensures
            value@ == self@.option_value(index as int),
    {
        if self.options[index].custom {
            self.custom_text.clone()
        } else {
            self.options[index].value.clone()
        }
    }

    /// Value of the option under the cursor, `None` when nothing matches.
    pub fn cursor_value(&self) -> (value: Option<String>)
        requires
            self.wf(),
        ensures
            text_option(value) == self@.cursor_value(),
    {
        let row: usize = self.cursor as usize;
        if row < self.visible.len() {
            Some(self.value_at(self.visible[row] as usize))
        } else {
            None
        }
    }

    /// Wraps a cursor move into an event for identified selects.
    fn highlight_flow(&self) -> (flow: Flow)
        requires
            self.wf(),
        ensures
            flow@ == self@.highlight(),
    {
        match (&self.id, self.cursor_value()) {
            (Some(id), Some(value)) => Flow::Event(
                UiEvent::Highlighted { id: id.clone(), value },
            ),
            _ => Flow::Consumed,
        }
    }

    /// Filters again after a query edit and wraps it into an event for
    /// identified selects.
    pub fn filter_flow(&mut self, scores: &Option<Vec<Option<i32>>>) -> (flow: Flow)
        requires
            old(self).wf(),
        ensures
            final(self).wf(),
            final(self)@ == old(self)@.filtered(scores_view(*scores)),
            flow@ == final(self)@.filter_report(),
    {
        let ghost before = self@;
        let mut previous: Vec<u16> = Vec::new();
        let cursor: usize = self.cursor as usize;
        let mut at: usize = 0;
        while at < self.visible.len() && at <= cursor
            invariant
                at <= self.visible@.len(),
                at <= cursor + 1,
                cursor < 65536,
                previous@ == self.visible@.take(at as int),
            decreases self.visible.len() - at,
        {
            previous.push(self.visible[at]);
            assert(self.visible@.take(at + 1) =~= self.visible@.take(at as int).push(
                self.visible@[at as int],
            ));
            at += 1;
        }
        self.refilter(scores);
        let stable: bool = previous.len() == cursor + 1 && self.visible.len() > cursor
            && same_front(&self.visible, &previous, cursor + 1);
        assert(previous@.len() == cursor + 1 ==> previous@ =~= before.visible.take(cursor + 1));
        assert(stable == before.stable(before.refiltered(scores_view(*scores))));
        if !stable {
            self.cursor = 0;
        }
        match &self.id {
            Some(id) => Flow::Event(
                UiEvent::Filtered {
                    id: id.clone(),
                    query: self.filter_q.clone(),
                    value: self.cursor_value(),
                },
            ),
            None => Flow::Consumed,
        }
    }

    /// Moves the cursor; whether it moved.
    fn move_cursor(&mut self, delta: i32, wrap: bool) -> (moved: bool)
        requires
            old(self).wf(),
            -65535 <= delta <= 65535,
            wrap ==> -1 <= delta <= 1,
        ensures
            final(self).wf(),
            final(self)@ == (SelectView {
                cursor: old(self)@.target(delta as int, wrap) as u16,
                ..old(self)@
            }),
            moved == (final(self)@.cursor != old(self)@.cursor),
    {
        let count: i64 = self.visible.len() as i64;
        if count == 0 {
            return false;
        }
        let at: i64 = self.cursor as i64;
        let aim: i64 = at + delta as i64;
        let next: i64 = if wrap {
            proof {
                vstd::arithmetic::div_mod::lemma_mod_add_multiples_vanish(aim as int, count as int);
                vstd::arithmetic::div_mod::lemma_mod_bound(aim as int, count as int);
            }
            let shifted: u64 = (aim + count) as u64;
            (shifted % (count as u64)) as i64
        } else if aim < 0 {
            0
        } else if aim >= count {
            count - 1
        } else {
            aim
        };
        assert(next == self@.target(delta as int, wrap));
        if next == at {
            return false;
        }
        self.cursor = next as u16;
        true
    }

    /// Moves the cursor and reports it.
    fn step(&mut self, delta: i32, wrap: bool, skips: bool) -> (flow: Flow)
        requires
            old(self).wf(),
            -65535 <= delta <= 65535,
            wrap ==> -1 <= delta <= 1,
        ensures
            final(self).wf(),
            ({
                let edge = if skips {
                    FlowView::Skip
                } else {
                    FlowView::Consumed
                };
                let step = old(self)@.moved(delta as int, wrap, edge);
                final(self)@ == step.state && Some(flow@) == step.flow
            }),
    {
        if self.move_cursor(delta, wrap) {
            self.highlight_flow()
        } else if skips {
            Flow::Skip
        } else {
            Flow::Consumed
        }
    }

    /// Chooses an option, or toggles it among several.
    pub fn activate(&mut self, index: usize)
        requires
            old(self).wf(),
            index < old(self)@.options.len(),
        ensures
            final(self).wf(),
            final(self)@ == old(self)@.activated(index),
    {
        if self.multi {
            let current: bool = bits_get(&self.chosen, index);
            bits_set(&mut self.chosen, index, !current);
        } else {
            self.chosen = bits_new();
            bits_set(&mut self.chosen, index, true);
        }
        if self.options[index].custom && bits_get(&self.chosen, index) {
            self.editing = true;
        }
    }

    /// Activates `index` and surfaces the commit for identified selects.
    pub fn commit(&mut self, index: usize) -> (flow: Flow)
        requires
            old(self).wf(),
            index < old(self)@.options.len(),
        ensures
            final(self).wf(),
            final(self)@ == old(self)@.committed(index).state,
            Some(flow@) == old(self)@.committed(index).flow,
    {
        self.activate(index);
        if self.editing {
            return Flow::Consumed;
        }
        match &self.id {
            Some(id) => Flow::Event(
                UiEvent::Changed { id: id.clone(), value: self.value_at(index) },
            ),
            None => Flow::Consumed,
        }
    }

    /// Types into the custom value.
    fn type_custom(&mut self, key: Key, kept: usize) -> (flow: Flow)
        requires
            old(self).wf(),
        ensures
            final(self).wf(),
            final(self)@ == old(self)@.custom_typed(key, kept).state,
            Some(flow@) == old(self)@.custom_typed(key, kept).flow,
    {
        let ghost goal = self@.custom_typed(key, kept).state;
        match key {
            Key::Enter => {
                self.editing = false;
                if let Some(id) = &self.id {
                    return Flow::Event(
                        UiEvent::Changed { id: id.clone(), value: self.custom_text.clone() },
                    );
                }
            },
            Key::Esc => {
                self.editing = false;
                self.custom_text = no_text();
            },
            Key::Backspace => {
                pop_last(&mut self.custom_text);
            },
            Key::Space => {
                push_char(&mut self.custom_text, ' ');
            },
            Key::Char(c) => {
                push_char(&mut self.custom_text, c);
            },
            Key::Ctrl(c) => {
                if c == 'u' {
                    self.custom_text = no_text();
                } else if c == 'w' {
                    keep_front(&mut self.custom_text, kept);
                }
            },
            _ => {},
        }
        assert(self@ =~= goal);
        Flow::Consumed
    }

    /// The option a digit jumps to while the query is empty.
    fn quick_target(&self, key: Key) -> (target: Option<usize>)
        requires
            self.wf(),
        ensures
            match target {
                Some(index) => self@.quick_target(key) == Some(index as int) && index
                    < self@.options.len(),
                None => self@.quick_target(key) is None,
            },
    {
        if !self.filter_q.as_str().is_empty() {
            return None;
        }
        match key {
            Key::Char(digit) => {
                if !('1' <= digit && digit <= '9') {
                    return None;
                }
                let mut at: usize = 0;
                while at < self.options.len()
                    invariant
                        at <= self.options@.len(),
                        self@.filter_q.len() == 0,
                        key == Key::Char(digit),
                        '1' <= digit && digit <= '9',
                        numbered_from(self@.options, digit, 0) == numbered_from(
                            self@.options,
                            digit,
                            at as int,
                        ),
                    decreases self.options.len() - at,
                {
                    let label: String = text_content(&self.options[at].label);
                    let chars: Vec<char> = chars_of(label.as_str());
                    if chars.len() >= 3 && chars[0] == digit && chars[1] == '.' && chars[2] == ' ' {
                        return Some(at);
                    }
                    at += 1;
                }
                None
            },
            _ => None,
        }
    }

    /// Edits the query, for keys that do.
    fn type_query(&mut self, key: Key, kept: usize) -> (step: Option<Step>)
        requires
            old(self).wf(),
        ensures
            final(self).wf(),
            match step {
                Some(taken) => old(self)@.query_typed(key, kept) is Some && final(self)@ == old(
                    self,
                )@.query_typed(key, kept)->0.state && step_flow(taken) == old(self)@.query_typed(
                    key,
                    kept,
                )->0.flow,
                None => old(self)@.query_typed(key, kept) is None && final(self)@ == old(self)@,
            },
    {
        let free: bool = self.filter && !self.multi;
        let empty: bool = self.filter_q.as_str().is_empty();
        match key {
            Key::Char(c) => {
                push_char(&mut self.filter_q, c);
                Some(Step::Refilter)
            },
            Key::Space => if free {
                push_char(&mut self.filter_q, ' ');
                Some(Step::Refilter)
            } else {
                None
            },
            Key::Backspace => {
                if !pop_last(&mut self.filter_q) {
                    self.searching = false;
                    return Some(Step::Done(Flow::Consumed));
                }
                Some(Step::Refilter)
            },
            Key::Ctrl(c) => if c == 'u' && !empty {
                self.filter_q = no_text();
                Some(Step::Refilter)
            } else if c == 'w' && !empty {
                keep_front(&mut self.filter_q, kept);
                Some(Step::Refilter)
            } else {
                None
            },
            Key::Esc => if !empty {
                self.filter_q = no_text();
                self.searching = false;
                Some(Step::Refilter)
            } else if self.searching {
                self.searching = false;
                Some(Step::Done(Flow::Consumed))
            } else {
                None
            },
            Key::Enter => if self.searching {
                self.searching = false;
                Some(Step::Done(Flow::Consumed))
            } else {
                None
            },
            _ => None,
        }
    }

    /// Commits the option under the cursor.
    fn commit_cursor(&mut self) -> (flow: Flow)
        requires
            old(self).wf(),
            old(self)@.visible.len() > 0,
        ensures
            final(self).wf(),
            ({
                let step = old(self)@.committed(
                    old(self)@.visible[old(self)@.cursor_row()] as usize,
                );
                final(self)@ == step.state && Some(flow@) == step.flow
            }),
    {
        let cursor: usize = self.cursor as usize;
        let row: usize = if cursor < self.visible.len() {
            cursor
        } else {
            self.visible.len() - 1
        };
        let index: usize = self.visible[row] as usize;
        self.commit(index)
    }

    /// Moves through the list.
    fn navigate(&mut self, key: Key) -> (step: Step)
        requires
            old(self).wf(),
        ensures
            final(self).wf(),
            final(self)@ == old(self)@.navigated(key).state,
            step_flow(step) == old(self)@.navigated(key).flow,
    {
        let rows: bool = self.visible.len() > 0;
        let wraps: bool = self.filter;
        let free: bool = self.filter && !self.multi;
        let stride: i32 = if self.page > 1 {
            self.page as i32
        } else {
            1
        };
        match key {
            Key::Up => if rows {
                Step::Done(self.step(-1, wraps, true))
            } else {
                Step::Done(Flow::Skip)
            },
            Key::Down => if rows {
                Step::Done(self.step(1, wraps, true))
            } else {
                Step::Done(Flow::Skip)
            },
            Key::PageUp => if rows {
                Step::Done(self.step(-stride, false, false))
            } else {
                Step::Done(Flow::Skip)
            },
            Key::PageDown => if rows {
                Step::Done(self.step(stride, false, false))
            } else {
                Step::Done(Flow::Skip)
            },
            Key::Home => if rows {
                Step::Done(self.step(-65535, false, false))
            } else {
                Step::Done(Flow::Skip)
            },
            Key::End => if rows {
                Step::Done(self.step(65535, false, false))
            } else {
                Step::Done(Flow::Skip)
            },
            Key::Enter => if self.multi {
                Step::Done(Flow::Event(UiEvent::Submit))
            } else if rows {
                Step::Done(self.commit_cursor())
            } else {
                Step::Done(Flow::Skip)
            },
            Key::Space => if rows && !free {
                Step::Done(self.commit_cursor())
            } else {
                Step::Done(Flow::Skip)
            },
            Key::Char(c) => if c == '/' && self.filter && !free {
                self.searching = true;
                Step::Done(Flow::Consumed)
            } else {
                Step::Done(Flow::Skip)
            },
            Key::Esc => if !self.filter_q.as_str().is_empty() {
                self.filter_q = no_text();
                Step::Refilter
            } else {
                Step::Done(Flow::Skip)
            },
            _ => Step::Done(Flow::Skip),
        }
    }

    /// Routes one key. `kept` is how many characters of the text being typed a
    /// word rubout leaves.
    ///
    /// Identified selects surface cursor, query, and commit changes as events.
    /// On [`Step::Refilter`] the host scores the options against the query and
    /// calls [`Select::filter_flow`].
    pub fn dispatch(&mut self, key: Key, kept: usize) -> (step: Step)
        requires
            old(self).wf(),
        ensures
            final(self).wf(),
            final(self)@ == old(self)@.dispatched(key, kept).state,
            step_flow(step) == old(self)@.dispatched(key, kept).flow,
    {
        if self.editing {
            return Step::Done(self.type_custom(key, kept));
        }
        if let Some(target) = self.quick_target(key) {
            self.cursor = target as u16;
            if self.multi {
                return Step::Done(self.highlight_flow());
            }
            return Step::Done(self.commit(target));
        }
        let typing: bool = self.filter && !self.multi || self.searching;
        let vertical: bool = match key {
            Key::Up | Key::Down => true,
            _ => false,
        };
        if typing && !vertical {
            if let Some(step) = self.type_query(key, kept) {
                return step;
            }
        }
        self.navigate(key)
    }

    /// Handles a pointer action on one of the rows.
    pub fn mouse(&mut self, mouse: Mouse, tag: HitTag) -> (flow: Flow)
        requires
            old(self).wf(),
        ensures
            final(self).wf(),
            ({
                let select = old(self)@;
                let step = match (mouse, tag) {
                    (Mouse::Click, HitTag::Row(index)) if index < select.options.len() =>
                        (SelectView {
                        cursor: match row_of(select.visible, index as int, 0) {
                            Some(row) => row as u16,
                            None => select.cursor,
                        },
                        ..select
                    }).committed(index as usize),
                    (Mouse::WheelUp, _) => select.moved(
                        -1,
                        false,
                        if select.visible.len() == 0 {
                            FlowView::Skip
                        } else {
                            FlowView::Consumed
                        },
                    ),
                    (Mouse::WheelDown, _) => select.moved(
                        1,
                        false,
                        if select.visible.len() == 0 {
                            FlowView::Skip
                        } else {
                            FlowView::Consumed
                        },
                    ),
                    _ => StepView { state: select, flow: Some(FlowView::Skip) },
                };
                final(self)@ == step.state && Some(flow@) == step.flow
            }),
    {
        match (mouse, tag) {
            (Mouse::Click, HitTag::Row(index)) if (index as usize) < self.options.len() => {
                if let Some(row) = self.find_row(index as usize) {
                    self.cursor = row as u16;
                }
                self.commit(index as usize)
            },
            (Mouse::WheelUp, _) => {
                let skips: bool = self.visible.len() == 0;
                self.step(-1, false, skips)
            },
            (Mouse::WheelDown, _) => {
                let skips: bool = self.visible.len() == 0;
                self.step(1, false, skips)
            },
            _ => Flow::Skip,
        }
    }

    /// The row that shows an option.
    fn find_row(&self, index: usize) -> (row: Option<usize>)
        ensures
            match row {
                Some(at) => row_of(self@.visible, index as int, 0) == Some(at as int) && at
                    < self@.visible.len(),
                None => row_of(self@.visible, index as int, 0) is None,
            },
    {
        let mut at: usize = 0;
        while at < self.visible.len()
            invariant
                at <= self.visible@.len(),
                row_of(self@.visible, index as int, 0) == row_of(
                    self@.visible,
                    index as int,
                    at as int,
                ),
            decreases self.visible.len() - at,
        {
            if self.visible[at] as usize == index {
                return Some(at);
            }
            at += 1;
        }
        None
    }

    /// The smallest chosen option.
    fn first_chosen(&self) -> (first: Option<usize>)
        ensures
            first == first_choice(self@.chosen),
            match first {
                Some(index) => is_first(self@.chosen, index),
                None => self@.chosen == Set::<usize>::empty(),
            },
    {
        let indices: Vec<usize> = bits_indices(&self.chosen);
        if indices.len() == 0 {
            assert(self@.chosen =~= Set::<usize>::empty()) by {
                assert forall|index: usize| !self@.chosen.contains(index) by {
                    if self@.chosen.contains(index) {
                        assert(indices@.contains(index));
                    }
                }
            }
            return None;
        }
        assert forall|other: usize| #[trigger] self@.chosen.contains(other) implies indices@[0]
            <= other by {
            assert(indices@.contains(other));
            let i = choose|i: int| 0 <= i < indices@.len() && indices@[i] == other;
            if i > 0 {
                assert(indices@[0] < indices@[i]);
            }
        }
        assert(is_first(self@.chosen, indices@[0]));
        Some(indices[0])
    }

    /// Positions the cursor when focus enters.
    pub fn enter(&mut self, forward: bool)
        requires
            old(self).wf(),
        ensures
            final(self).wf(),
            final(self)@ == (SelectView { cursor: old(self)@.entry(forward), ..old(self)@ }),
    {
        let first: Option<usize> = self.first_chosen();
        if self.visible.len() == 0 {
            return;
        }
        let mut at: usize = 0;
        while at < self.options.len() && !self.options[at].active
            invariant
                at <= self.options@.len(),
                active_from(self@.options, 0) == active_from(self@.options, at as int),
            decreases self.options.len() - at,
        {
            at += 1;
        }
        if at < self.options.len() {
            if let Some(row) = self.find_row(at) {
                self.cursor = row as u16;
                return;
            }
        }
        if !self.multi {
            if let Some(index) = first {
                if let Some(row) = self.find_row(index) {
                    self.cursor = row as u16;
                    return;
                }
            }
        }
        self.cursor = if forward {
            0
        } else {
            (self.visible.len() - 1) as u16
        };
    }

    /// Takes pasted text, made safe by the host, on one line.
    pub fn paste(&mut self, text: &str) -> (step: Step)
        requires
            old(self).wf(),
        ensures
            final(self).wf(),
            ({
                let select = old(self)@;
                let line = one_line(text@);
                if text@.len() == 0 {
                    final(self)@ == select && step_flow(step) == Some(FlowView::Skip)
                } else if select.editing {
                    final(self)@ == (SelectView {
                        custom_text: select.custom_text + line,
                        ..select
                    }) && step_flow(step) == Some(FlowView::Consumed)
                } else if select.types_to_filter() || select.searching {
                    final(self)@ == (SelectView { filter_q: select.filter_q + line, ..select })
                        && step_flow(step) is None
                } else {
                    final(self)@ == select && step_flow(step) == Some(FlowView::Skip)
                }
            }),
    {
        if text.is_empty() {
            return Step::Done(Flow::Skip);
        }
        let line: String = to_one_line(text);
        if self.editing {
            self.custom_text.append(line.as_str());
            Step::Done(Flow::Consumed)
        } else if self.filter && !self.multi || self.searching {
            self.filter_q.append(line.as_str());
            Step::Refilter
        } else {
            Step::Done(Flow::Skip)
        }
    }

    /// Values of the chosen options, in declaration order.
    pub fn chosen_values(&self) -> (values: Vec<String>)
        requires
            self.wf(),
        ensures
            exists|indices: Seq<usize>|
                #![trigger ascending_listing(indices, self@.chosen)]
                ascending_listing(indices, self@.chosen) && values@.len() == indices.len() && (
                forall|i: int|
                    0 <= i < indices.len() ==> (#[trigger] values@[i])@ == self@.option_value(
                        indices[i] as int,
                    )),
    {
        let indices: Vec<usize> = bits_indices(&self.chosen);
        let mut values: Vec<String> = Vec::new();
        let mut at: usize = 0;
        while at < indices.len()
            invariant
                at <= indices@.len(),
                self.wf(),
                ascending_listing(indices@, self@.chosen),
                values@.len() == at,
                forall|i: int|
                    0 <= i < at ==> (#[trigger] values@[i])@ == self@.option_value(
                        indices@[i] as int,
                    ),
            decreases indices.len() - at,
        {
            assert(self@.chosen.contains(indices@[at as int]));
            values.push(self.value_at(indices[at]));
            at += 1;
        }
        values
    }

    /// Value of a single select: that of its choice.
    pub fn chosen_value(&self) -> (value: Option<String>)
        requires
            self.wf(),
        ensures
            text_option(value) == (match first_choice(self@.chosen) {
                Some(index) => Some(self@.option_value(index as int)),
                None => None,
            }),
            value is None ==> self@.chosen == Set::<usize>::empty(),
    {
        match self.first_chosen() {
            Some(index) => Some(self.value_at(index)),
            None => None,
        }
    }

    /// Inserts an option.
    fn insert_option(&mut self, at: usize, option: OptionData, scores: &Option<Vec<Option<i32>>>)
        requires
            old(self).wf(),
            at <= old(self)@.options.len(),
            old(self)@.options.len() < 65535,
        ensures
            final(self).wf(),
            final(self)@ == old(self)@.with_option(at as int, option@, scores_view(*scores)),
    {
        let ghost before = self@;
        let ghost added = option@;
        let indices: Vec<usize> = bits_indices(&self.chosen);
        let mut chosen: SmolBitmap = bits_new();
        let mut i: usize = 0;
        while i < indices.len()
            invariant
                i <= indices@.len(),
                ascending_listing(indices@, before.chosen),
                before.wf(),
                forall|index: usize| #[trigger]
                    set_bits(chosen).contains(index) <==> exists|j: int|
                        0 <= j < i && index == (if (#[trigger] indices@[j]) >= at {
                            indices@[j] + 1
                        } else {
                            indices@[j] as int
                        }),
            decreases indices.len() - i,
        {
            let index: usize = indices[i];
            assert(before.chosen.contains(index));
            let moved: usize = if index >= at {
                index + 1
            } else {
                index
            };
            let ghost earlier = set_bits(chosen);
            bits_set(&mut chosen, moved, true);
            assert forall|other: usize| #[trigger] set_bits(chosen).contains(other) <==> exists|j: int|
                0 <= j < i + 1 && other == (if (#[trigger] indices@[j]) >= at {
                    indices@[j] + 1
                } else {
                    indices@[j] as int
                }) by {
                if other == moved {
                    assert(indices@[i as int] == index);
                } else if earlier.contains(other) {
                }
            }
            i += 1;
        }
        assert(set_bits(chosen) =~= shifted_up(before.chosen, at as int)) by {
            assert forall|index: usize| #[trigger] set_bits(chosen).contains(index) <==> shifted_up(
                before.chosen,
                at as int,
            ).contains(index) by {
                if set_bits(chosen).contains(index) {
                    let j = choose|j: int|
                        0 <= j < indices@.len() && index == (if (#[trigger] indices@[j]) >= at {
                            indices@[j] + 1
                        } else {
                            indices@[j] as int
                        });
                    assert(before.chosen.contains(indices@[j]));
                } else if shifted_up(before.chosen, at as int).contains(index) {
                    let source: usize = if index < at {
                        index
                    } else {
                        (index - 1) as usize
                    };
                    assert(indices@.contains(source));
                    let j = choose|j: int| 0 <= j < indices@.len() && indices@[j] == source;
                    assert(index == (if (#[trigger] indices@[j]) >= at {
                        indices@[j] + 1
                    } else {
                        indices@[j] as int
                    }));
                }
            }
        }
        let recommended: bool = option.recommended;
        let selected: bool = option.selected;
        let appended: bool = at == self.options.len();
        self.options.insert(at, option);
        assert(option_views(self.options@) =~= before.options.insert(at as int, added));
        self.layouts.insert(at, OptionLayout { top: 0, height: 0 });
        self.chosen = chosen;
        if self.filter_q.as_str().is_empty() && appended {
            self.visible.push(at as u16);
        } else {
            let ghost now = self@;
            assert(now.wf()) by {
                assert forall|index: usize| #[trigger] now.chosen.contains(index) implies index
                    < now.options.len() by {
                    assert(shifted_up(before.chosen, at as int).contains(index));
                }
            }
            self.refilter(scores);
        }
        if recommended && !self.multi && self.first_chosen().is_none() {
            bits_set(&mut self.chosen, at, true);
        }
        if selected {
            if !self.multi {
                self.chosen = bits_new();
            }
            bits_set(&mut self.chosen, at, true);
        }
        proof {
            let goal = before.with_option(at as int, added, scores_view(*scores));
            let kept = shifted_up(before.chosen, at as int);
            if exists|first: usize| is_first(kept, first) {
                let first = choose|first: usize| is_first(kept, first);
                assert(kept.contains(first));
                assert(!Set::<usize>::empty().contains(first));
            }
            assert(self@ =~= goal);
            assert forall|index: usize| #[trigger] self@.chosen.contains(index) implies index
                < self@.options.len() by {
                if kept.contains(index) {
                    assert(index < before.options.len() + 1);
                }
            }
        }
    }

    /// Appends an option, ahead of the one that takes a typed value.
    pub fn option(&mut self, option: SelectOption, scores: &Option<Vec<Option<i32>>>)
        requires
            old(self).wf(),
            old(self)@.options.len() < 65535,
        ensures
            final(self).wf(),
            ({
                let at = match custom_from(old(self)@.options, 0) {
                    Some(index) => index,
                    None => old(self)@.options.len() as int,
                };
                final(self)@ == old(self)@.with_option(
                    at,
                    OptionView {
                        label: shown_label(option),
                        value: match option.value {
                            Some(value) => value@,
                            None => content(shown_label(option)),
                        },
                        desc: measured_option(option.desc),
                        recommended: option.recommended,
                        selected: option.selected,
                        active: option.active,
                        custom: false,
                        rows: option.rows,
                        previews: option.previews@,
                    },
                    scores_view(*scores),
                )
            }),
    {
        let at: usize = match self.custom_index() {
            Some(index) => index,
            None => self.options.len(),
        };
        let label: Text = option.shown_label();
        let value: String = match &option.value {
            Some(value) => value.clone(),
            None => text_content(&label),
        };
        self.insert_option(
            at,
            OptionData {
                label,
                value,
                desc: option.desc,
                recommended: option.recommended,
                selected: option.selected,
                active: option.active,
                custom: false,
                rows: option.rows,
                previews: option.previews,
            },
            scores,
        );
    }

    /// The option that takes a typed value.
    fn custom_index(&self) -> (index: Option<usize>)
        ensures
            match index {
                Some(at) => custom_from(self@.options, 0) == Some(at as int) && at
                    < self@.options.len(),
                None => custom_from(self@.options, 0) is None,
            },
    {
        let mut at: usize = 0;
        while at < self.options.len()
            invariant
                at <= self.options@.len(),
                custom_from(self@.options, 0) == custom_from(self@.options, at as int),
            decreases self.options.len() - at,
        {
            if self.options[at].custom {
                return Some(at);
            }
            at += 1;
        }
        None
    }

    /// Removes an option.
    fn remove_option(&mut self, at: usize, scores: &Option<Vec<Option<i32>>>)
        requires
            old(self).wf(),
            at < old(self)@.options.len(),
        ensures
            final(self).wf(),
            final(self)@ == old(self)@.without_option(at as int, scores_view(*scores)),
    {
        let ghost before = self@;
        let indices: Vec<usize> = bits_indices(&self.chosen);
        let mut chosen: SmolBitmap = bits_new();
        let mut i: usize = 0;
        while i < indices.len()
            invariant
                i <= indices@.len(),
                at < before.options.len(),
                ascending_listing(indices@, before.chosen),
                before.wf(),
                forall|index: usize| #[trigger]
                    set_bits(chosen).contains(index) <==> exists|j: int|
                        0 <= j < i && (#[trigger] indices@[j]) != at && index == (if indices@[j]
                            > at {
                            indices@[j] - 1
                        } else {
                            indices@[j] as int
                        }),
            decreases indices.len() - i,
        {
            let index: usize = indices[i];
            assert(before.chosen.contains(index));
            let ghost earlier = set_bits(chosen);
            if index < at {
                bits_set(&mut chosen, index, true);
            } else if index > at {
                bits_set(&mut chosen, index - 1, true);
            }
            assert forall|other: usize| #[trigger] set_bits(chosen).contains(other) <==> exists|j: int|
                0 <= j < i + 1 && (#[trigger] indices@[j]) != at && other == (if indices@[j] > at {
                    indices@[j] - 1
                } else {
                    indices@[j] as int
                }) by {
                assert(indices@[i as int] == index);
                if earlier.contains(other) {
                }
            }
            i += 1;
        }
        assert(set_bits(chosen) =~= shifted_down(before.chosen, at as int)) by {
            assert forall|index: usize| #[trigger] set_bits(chosen).contains(index) <==> shifted_down(
                before.chosen,
                at as int,
            ).contains(index) by {
                if set_bits(chosen).contains(index) {
                    let j = choose|j: int|
                        0 <= j < indices@.len() && (#[trigger] indices@[j]) != at && index == (
                        if indices@[j] > at {
                            indices@[j] - 1
                        } else {
                            indices@[j] as int
                        });
                    assert(before.chosen.contains(indices@[j]));
                } else if shifted_down(before.chosen, at as int).contains(index) {
                    let source: usize = if index < at {
                        index
                    } else {
                        (index + 1) as usize
                    };
                    assert(before.chosen.contains(source));
                    assert(indices@.contains(source));
                    let j = choose|j: int| 0 <= j < indices@.len() && indices@[j] == source;
                    assert(indices@[j] != at && index == (if indices@[j] > at {
                        indices@[j] - 1
                    } else {
                        indices@[j] as int
                    }));
                }
            }
        }
        self.options.remove(at);
        assert(option_views(self.options@) =~= before.options.remove(at as int));
        self.layouts.remove(at);
        self.visible = Vec::new();
        self.chosen = chosen;
        proof {
            assert forall|index: usize| #[trigger] self@.chosen.contains(index) implies index
                < self@.options.len() by {
                assert(shifted_down(before.chosen, at as int).contains(index));
            }
        }
        self.refilter(scores);
        let last: usize = if self.options.len() > 0 {
            self.options.len() - 1
        } else {
            0
        };
        if self.cursor as usize > last {
            self.cursor = last as u16;
        }
        assert(self@ =~= before.without_option(at as int, scores_view(*scores)));
    }

    /// Adds or removes the option that takes a typed value.
    pub fn set_custom(&mut self, enabled: bool, scores: &Option<Vec<Option<i32>>>)
        requires
            old(self).wf(),
            old(self)@.options.len() < 65535,
        ensures
            final(self).wf(),
            final(self)@ == (match custom_from(old(self)@.options, 0) {
                None => if enabled {
                    old(self)@.with_option(
                        old(self)@.options.len() as int,
                        custom_option(),
                        scores_view(*scores),
                    )
                } else {
                    old(self)@
                },
                Some(index) => if enabled {
                    old(self)@
                } else {
                    old(self)@.without_option(index, scores_view(*scores))
                },
            }),
    {
        match self.custom_index() {
            None => {
                if enabled {
                    let at: usize = self.options.len();
                    let option = OptionData {
                        label: Text::cells_of("Other (type your own)"),
                        value: no_text(),
                        desc: None,
                        recommended: false,
                        selected: false,
                        active: false,
                        custom: true,
                        rows: None,
                        previews: Vec::new(),
                    };
                    assert(option@ == custom_option());
                    self.insert_option(at, option, scores);
                }
            },
            Some(index) => {
                if !enabled {
                    self.remove_option(index, scores);
                }
            },
        }
    }

    /// Lets several options be chosen, or one: the chosen ones are then those
    /// that start chosen, or the recommended one where none is chosen.
    pub fn set_multi(&mut self, multi: bool)
        requires
            old(self).wf(),
        ensures
            final(self).wf(),
            final(self)@ == (if multi {
                SelectView {
                    multi: true,
                    chosen: starting(old(self)@.options, old(self)@.options.len() as int),
                    ..old(self)@
                }
            } else {
                (SelectView { multi: false, ..old(self)@ }).with_recommended()
            }),
    {
        let ghost before = self@;
        self.multi = multi;
        if multi {
            let mut chosen: SmolBitmap = bits_new();
            let mut at: usize = 0;
            assert(set_bits(chosen) =~= starting(before.options, 0));
            while at < self.options.len()
                invariant
                    at <= self.options@.len(),
                    self@.options == before.options,
                    before.options.len() < 65536,
                    set_bits(chosen) == starting(before.options, at as int),
                decreases self.options.len() - at,
            {
                if self.options[at].selected {
                    bits_set(&mut chosen, at, true);
                }
                at += 1;
                assert(set_bits(chosen) =~= starting(before.options, at as int));
            }
            self.chosen = chosen;
        } else {
            self.choose_recommended();
        }
    }

    /// Chooses the recommended option where none is chosen.
    fn choose_recommended(&mut self)
        requires
            old(self).wf(),
        ensures
            final(self).wf(),
            final(self)@ == old(self)@.with_recommended(),
    {
        if let Some(first) = self.first_chosen() {
            assert(self@.chosen.contains(first));
            assert(!Set::<usize>::empty().contains(first));
            return;
        }
        let mut at: usize = 0;
        while at < self.options.len()
            invariant
                at <= self.options@.len(),
                self.wf(),
                *self == *old(self),
                self@.chosen == Set::<usize>::empty(),
                recommended_from(self@.options, 0) == recommended_from(self@.options, at as int),
            decreases self.options.len() - at,
        {
            if self.options[at].recommended {
                bits_set(&mut self.chosen, at, true);
                return;
            }
            at += 1;
        }
    }

    /// Switches filtering off, or on with a query to start with.
    pub fn set_filter(&mut self, enabled: bool, seed: Option<String>, scores: &Option<Vec<Option<i32>>>)
        requires
            old(self).wf(),
        ensures
            final(self).wf(),
            final(self)@ == (match seed {
                Some(query) if enabled => (SelectView {
                    filter: true,
                    filter_q: query@,
                    ..old(self)@
                }).refiltered(scores_view(*scores)),
                _ => SelectView { filter: enabled, ..old(self)@ },
            }),
    {
        self.filter = enabled;
        if let Some(query) = seed {
            if enabled {
                self.filter_q = query;
                self.refilter(scores);
            }
        }
    }
}

/// The option that takes a typed value.
pub open spec fn custom_option() -> OptionView {
    OptionView {
        label: ascii_clusters("Other (type your own)"@),
        value: Seq::empty(),
        desc: None,
        recommended: false,
        selected: false,
        active: false,
        custom: true,
        rows: None,
        previews: Seq::empty(),
    }
}

/// Those of the first `count` options that start chosen.
pub open spec fn starting(options: Seq<OptionView>, count: int) -> Set<usize> {
    Set::new(|index: usize| index < count && options[index as int].selected)
}

/// A text with spaces for its tabs and line breaks.
pub open spec fn one_line(text: Seq<char>) -> Seq<char> {
    text.map_values(
        |c: char|
            if c == '\n' || c == '\t' {
                ' '
            } else {
                c
            },
    )
}

/// Puts spaces for tabs and line breaks.
pub fn to_one_line(text: &str) -> (line: String)
    ensures
        line@ == one_line(text@),
{
    let chars: Vec<char> = chars_of(text);
    let mut line: String = no_text();
    let mut at: usize = 0;
    while at < chars.len()
        invariant
            at <= chars@.len(),
            chars@ == text@,
            line@ == one_line(text@).take(at as int),
        decreases chars.len() - at,
    {
        let c: char = if chars[at] == '\n' || chars[at] == '\t' {
            ' '
        } else {
            chars[at]
        };
        push_char(&mut line, c);
        assert(one_line(text@).take(at + 1) =~= one_line(text@).take(at as int).push(c));
        at += 1;
    }
    assert(one_line(text@).take(at as int) =~= one_line(text@));
    line
}

} // verus!
