//! A validated sequence of step panes.

use vstd::prelude::*;
use vstd::string::*;

use crate::charset::{rule_glyph, Charset};
use crate::color::Color;
use crate::context::UiContext;
use crate::events::{text_option, EventView, Flow, FlowView, Hit, HitTag, Slot, UiEvent};
use crate::frame::{Frame, FrameView};
use crate::geometry::{max16, sat_add, sat_sub, Rect};
use crate::input::{Key, Mouse};
use crate::numbers::{decimal, to_decimal};
use crate::pattern::{match_simple, matches_whole};
use crate::prompting::{strip_text, stripped};
use crate::runs::{
    mark, no_runs, push_mark, push_run, run, run_views, write_runs, written, Run, RunView,
};
use crate::status::{cell_count, sat_mul};
use crate::style::{plain, Style};
use crate::strings::same_text;
use crate::text::{ascii_clusters, content, push_char, ClusterView, Text};
use crate::theme::Theme;

verus! {

/// A field's value, as it is checked.
pub enum FieldValue {
    /// No value.
    Null,
    /// A flag.
    Bool(bool),
    /// A number, by its JSON spelling.
    Number(String),
    /// A text.
    Text(String),
    /// Several values.
    List(Vec<FieldValue>),
    /// An object, by its JSON spelling.
    Object(String),
}

/// The text of the first `count` values, with spaces between.
pub open spec fn list_text(values: Seq<FieldValue>, count: int) -> Seq<char>
    decreases values, count,
{
    if count <= 0 || count > values.len() {
        Seq::empty()
    } else if count == 1 {
        value_text(values[0])
    } else {
        list_text(values, count - 1) + seq![' '] + value_text(values[count - 1])
    }
}

/// A value as text.
pub open spec fn value_text(value: FieldValue) -> Seq<char>
    decreases value,
{
    match value {
        FieldValue::Null => Seq::empty(),
        FieldValue::Bool(flag) => if flag {
            "true"@
        } else {
            "false"@
        },
        FieldValue::Number(spelling) => spelling@,
        FieldValue::Text(text) => text@,
        FieldValue::List(values) => list_text(values@, values@.len() as int),
        FieldValue::Object(spelling) => spelling@,
    }
}

/// A value as text.
pub fn display_value(value: &FieldValue) -> (text: String)
    ensures
        text@ == value_text(*value),
    decreases value,
{
    proof {
        reveal_strlit("");
        assert(""@ =~= Seq::<char>::empty());
    }
    match value {
        FieldValue::Null => "".to_owned(),
        FieldValue::Bool(flag) => if *flag {
            "true".to_owned()
        } else {
            "false".to_owned()
        },
        FieldValue::Number(spelling) => spelling.clone(),
        FieldValue::Text(text) => text.clone(),
        FieldValue::List(values) => join_values(values),
        FieldValue::Object(spelling) => spelling.clone(),
    }
}

/// The text of values, with spaces between.
fn join_values(values: &Vec<FieldValue>) -> (text: String)
    ensures
        text@ == list_text(values@, values@.len() as int),
    decreases values,
{
    let mut text: String = "".to_owned();
    proof {
        reveal_strlit("");
        assert(text@ =~= Seq::<char>::empty());
    }
    let mut at: usize = 0;
    while at < values.len()
        invariant
            at <= values@.len(),
            text@ == list_text(values@, at as int),
        decreases values.len() - at,
    {
        if at > 0 {
            push_char(&mut text, ' ');
        }
        let shown: String = display_value(&values[at]);
        text.append(shown.as_str());
        at += 1;
        assert(text@ =~= list_text(values@, at as int));
    }
    text
}

/// What is checked of a pane, and of what lies in it.
pub struct Checked {
    /// Whether it is shown.
    pub visible: bool,
    /// Its name.
    pub id: Option<String>,
    /// Its value, where it has one under its name.
    pub value: Option<FieldValue>,
    /// Whether it must not be blank.
    pub required: bool,
    /// Pattern its value has to match.
    pub pattern: Option<String>,
    /// What the component itself finds wrong.
    pub own_error: Option<String>,
    /// What lies in it.
    pub children: Vec<Checked>,
}

/// What is wrong with a field's value: a blank one that is required, or one
/// that does not match its pattern.
pub open spec fn field_error(
    id: Seq<char>,
    text: Seq<char>,
    required: bool,
    pattern: Option<Seq<char>>,
) -> Option<Seq<char>> {
    let value = stripped(text);
    if required && value.len() == 0 {
        Some(id + " is required"@)
    } else {
        match pattern {
            Some(wanted) if value.len() > 0 && !matches_whole(wanted, value) => Some(
                id + " must match "@ + wanted,
            ),
            _ => None,
        }
    }
}

/// What is wrong with the pane's own value.
pub open spec fn own_field_error(check: Checked) -> Option<Seq<char>> {
    match (check.id, check.value) {
        (Some(id), Some(value)) => field_error(
            id@,
            value_text(value),
            check.required,
            text_option(check.pattern),
        ),
        _ => None,
    }
}

/// The first thing wrong with a shown pane: with its value, with the component,
/// or with something in it.
pub open spec fn first_error(check: Checked) -> Option<Seq<char>>
    decreases check, 0nat,
{
    if !check.visible {
        None
    } else if own_field_error(check) is Some {
        own_field_error(check)
    } else if check.own_error is Some {
        text_option(check.own_error)
    } else {
        errors_from(check.children@, 0)
    }
}

/// The first thing wrong with the panes from `at` on.
pub open spec fn errors_from(checks: Seq<Checked>, at: int) -> Option<Seq<char>>
    decreases checks, checks.len() - at,
{
    if at < 0 || at >= checks.len() {
        None
    } else if first_error(checks[at]) is Some {
        first_error(checks[at])
    } else {
        errors_from(checks, at + 1)
    }
}

/// Checks a field's value.
pub fn check_field(id: &str, text: &str, required: bool, pattern: &Option<String>) -> (error: Option<
    String,
>)
    ensures
        text_option(error) == field_error(id@, text@, required, text_option(*pattern)),
{
    let value: String = strip_text(text);
    if required && value.as_str().is_empty() {
        let mut error: String = id.to_owned();
        error.append(" is required");
        return Some(error);
    }
    match pattern {
        Some(wanted) => {
            if !value.as_str().is_empty() && !match_simple(wanted.as_str(), value.as_str()) {
                let mut error: String = id.to_owned();
                error.append(" must match ");
                error.append(wanted.as_str());
                return Some(error);
            }
            None
        },
        None => None,
    }
}

/// Finds the first thing wrong with a pane.
pub fn validate(check: &Checked) -> (error: Option<String>)
    ensures
        text_option(error) == first_error(*check),
    decreases check,
{
    if !check.visible {
        return None;
    }
    if let (Some(id), Some(value)) = (&check.id, &check.value) {
        let text: String = display_value(value);
        let error: Option<String> = check_field(
            id.as_str(),
            text.as_str(),
            check.required,
            &check.pattern,
        );
        if error.is_some() {
            return error;
        }
    }
    if let Some(error) = &check.own_error {
        return Some(error.clone());
    }
    let mut at: usize = 0;
    while at < check.children.len()
        invariant
            at <= check.children@.len(),
            check.visible,
            own_field_error(*check) is None,
            check.own_error is None,
            errors_from(check.children@, 0) == errors_from(check.children@, at as int),
        decreases check.children.len() - at,
    {
        let error: Option<String> = validate(&check.children[at]);
        if error.is_some() {
            return error;
        }
        at += 1;
    }
    None
}

/// A validated sequence of step panes.
pub struct Wizard {
    /// The wizard.
    pub slot: Slot,
    /// Titles of the steps.
    pub titles: Vec<Text>,
    /// Whether finishing submits.
    pub submit: bool,
    /// Active step.
    pub idx: u16,
    /// What is wrong with it, once that was asked.
    pub error: Option<String>,
    /// Button under the focus: back, or next.
    pub button: u8,
    /// Area of the last placement.
    pub rect: Option<Rect>,
}

/// A validated sequence of step panes.
pub struct WizardView {
    /// The wizard.
    pub slot: Slot,
    /// Titles of the steps.
    pub titles: Seq<Seq<ClusterView>>,
    /// Whether finishing submits.
    pub submit: bool,
    /// Active step.
    pub idx: u16,
    /// What is wrong with it.
    pub error: Option<Seq<char>>,
    /// Button under the focus.
    pub button: u8,
    /// Area of the last placement.
    pub rect: Option<Rect>,
}

/// The views of texts.
pub open spec fn title_views(titles: Seq<Text>) -> Seq<Seq<ClusterView>> {
    titles.map_values(|title: Text| title@)
}

impl View for Wizard {
    type V = WizardView;

    open spec fn view(&self) -> WizardView {
        WizardView {
            slot: self.slot,
            titles: title_views(self.titles@),
            submit: self.submit,
            idx: self.idx,
            error: text_option(self.error),
            button: self.button,
            rect: self.rect,
        }
    }
}

/// The wizard and what became of an input.
pub struct WizardStep {
    /// The wizard afterwards.
    pub wizard: WizardView,
    /// What became of the input.
    pub flow: FlowView,
}

/// A brighter color of the same hue, for highlighted fills.
pub open spec fn brightened(color: Color) -> Color {
    match color {
        Color::Rgb(red, green, blue) => Color::Rgb(
            lifted(red),
            lifted(green),
            lifted(blue),
        ),
        other => other,
    }
}

/// A channel a fifth of the way to full.
pub open spec fn lifted(channel: u8) -> u8 {
    (channel + (255 - channel) / 5) as u8
}

/// Brightens a color.
pub fn brighten(color: Color) -> (bright: Color)
    ensures
        bright == brightened(color),
{
    match color {
        Color::Rgb(red, green, blue) => Color::Rgb(
            red + (255 - red) / 5,
            green + (255 - green) / 5,
            blue + (255 - blue) / 5,
        ),
        other => other,
    }
}

/// The runs of a pill: caps in the fill's color around a label on it.
pub open spec fn pill_runs(
    label: Seq<RunView>,
    fill: Color,
    charset: Charset,
) -> Seq<RunView> {
    let (left, right) = pill_glyphs(charset);
    let cap = Style { foreground: fill, ..plain() };
    (seq![mark(left, cap)] + label).push(mark(right, cap))
}

/// The style on a pill's fill.
pub open spec fn pill_style(fill: Color, ink: Color) -> Style {
    Style { foreground: ink, background: fill, bold: true, ..plain() }
}

/// The caps of a pill.
pub open spec fn pill_glyphs(charset: Charset) -> (Seq<char>, Seq<char>) {
    match charset {
        Charset::Ascii => (""@, ""@),
        _ => ("▐"@, "▌"@),
    }
}

/// A fill, brighter where it is highlighted.
pub open spec fn pill_fill(fill: Color, highlight: bool) -> Color {
    if highlight {
        brightened(fill)
    } else {
        fill
    }
}

/// The mark of a step that is done.
pub open spec fn check_glyph(charset: Charset) -> Seq<char> {
    match charset {
        Charset::Ascii => "*"@,
        Charset::NerdFont => "\u{f00c}"@,
        Charset::Unicode => "✓"@,
    }
}

impl WizardView {
    /// The wizard one step on, unless something is wrong; the last step submits
    /// where that is asked for.
    pub open spec fn advanced(self, error: Option<Seq<char>>) -> WizardStep {
        if error is Some {
            WizardStep { wizard: WizardView { error, ..self }, flow: FlowView::Consumed }
        } else if self.idx + 1 < self.titles.len() {
            WizardStep {
                wizard: WizardView { error: None, idx: sat_add(self.idx, 1), ..self },
                flow: FlowView::Consumed,
            }
        } else {
            WizardStep {
                wizard: WizardView { error: None, ..self },
                flow: if self.submit {
                    FlowView::Event(EventView::Submit)
                } else {
                    FlowView::Consumed
                },
            }
        }
    }

    /// The wizard one step back.
    pub open spec fn retreated(self) -> Self {
        WizardView { error: None, idx: sat_sub(self.idx, 1), ..self }
    }

    /// What a key does. `error` is what is wrong with the active step.
    pub open spec fn keyed(self, key: Key, error: Option<Seq<char>>) -> WizardStep {
        if key is Left {
            WizardStep { wizard: WizardView { button: 0, ..self }, flow: FlowView::Consumed }
        } else if key is Right {
            WizardStep { wizard: WizardView { button: 1, ..self }, flow: FlowView::Consumed }
        } else if (key is Enter || key is Space) && self.button == 0 {
            WizardStep { wizard: self.retreated(), flow: FlowView::Consumed }
        } else if key is Enter || key is Space {
            self.advanced(error)
        } else {
            WizardStep { wizard: self, flow: FlowView::Skip }
        }
    }

    /// What the pointer does at column `x`.
    pub open spec fn pointed(
        self,
        mouse: Mouse,
        tag: HitTag,
        x: u16,
        error: Option<Seq<char>>,
    ) -> WizardStep {
        let skip = WizardStep { wizard: self, flow: FlowView::Skip };
        match (mouse, tag) {
            (Mouse::Click, HitTag::Chip(target)) => WizardStep {
                wizard: if target < self.idx {
                    WizardView { idx: target, error: None, ..self }
                } else {
                    self
                },
                flow: FlowView::Consumed,
            },
            (Mouse::Click, HitTag::Press) => match self.rect {
                None => skip,
                Some(rect) => if x >= sat_add(rect.x, sat_sub(rect.width, 9)) {
                    (WizardView { button: 1, ..self }).advanced(error)
                } else {
                    WizardStep {
                        wizard: (WizardView { button: 0, ..self }).retreated(),
                        flow: FlowView::Consumed,
                    }
                },
            },
            _ => skip,
        }
    }

    /// The text that a step's chip shows: the title of a step that is done, the
    /// number and the title of any other, set off by spaces on the pill of the
    /// active one.
    pub open spec fn step_label(self, index: int) -> Seq<char> {
        let title = content(self.titles[index]);
        let numbered = decimal((index + 1) as nat) + seq![' '] + title;
        if cell_count(index) < self.idx {
            title
        } else if cell_count(index) == self.idx {
            seq![' '] + numbered + seq![' ']
        } else {
            numbered
        }
    }

    /// Whether these are the texts of the steps' chips.
    pub open spec fn labels_steps(self, labels: Seq<Seq<ClusterView>>) -> bool {
        &&& labels.len() == self.titles.len()
        &&& forall|i: int|
            0 <= i < labels.len() ==> content(#[trigger] labels[i]) == self.step_label(i)
    }

    /// The runs of a step's chip: a check mark for those done, a pill for the
    /// active one, a number for those to come. `label` is its text, measured.
    pub open spec fn chip_runs(
        self,
        theme: Theme,
        charset: Charset,
        focused: bool,
        label: Seq<ClusterView>,
        index: int,
    ) -> Seq<RunView> {
        let done = Style { foreground: theme.ok, ..plain() };
        let ahead = Style { foreground: theme.muted, ..plain() };
        let fill = pill_fill(theme.accent, focused);
        if cell_count(index) < self.idx {
            seq![mark(check_glyph(charset), done), mark(" "@, done), run(label, done)]
        } else if cell_count(index) == self.idx {
            pill_runs(seq![run(label, pill_style(fill, theme.contrast))], fill, charset)
        } else {
            seq![run(label, ahead)]
        }
    }

    /// The frame with the chips of the first `count` steps, the column behind
    /// them, and the areas they take.
    pub open spec fn strip_painted(
        self,
        frame: FrameView,
        theme: Theme,
        charset: Charset,
        focused: bool,
        labels: Seq<Seq<ClusterView>>,
        rect: Rect,
        count: int,
    ) -> (FrameView, u16, Seq<Hit>)
        decreases count,
    {
        if count <= 0 {
            (frame, rect.x, Seq::empty())
        } else {
            let (earlier, column, areas) = self.strip_painted(
                frame,
                theme,
                charset,
                focused,
                labels,
                rect,
                count - 1,
            );
            let (chipped, end) = written(
                earlier,
                column,
                rect.y,
                self.chip_runs(theme, charset, focused, labels[count - 1], count - 1),
            );
            let from = sat_sub(column, rect.x);
            let to = sat_sub(end, rect.x);
            let base = Style { foreground: theme.fg, ..plain() };
            let gap = ascii_clusters("  "@);
            (
                chipped.put(end, rect.y, gap, base),
                chipped.end(end, rect.y, gap),
                if to > from {
                    areas.push(
                        Hit {
                            rect: Rect {
                                x: sat_add(rect.x, from),
                                y: rect.y,
                                width: sat_sub(to, from),
                                height: 1,
                            },
                            slot: self.slot,
                            tag: HitTag::Chip(cell_count(count - 1)),
                        },
                    )
                } else {
                    areas
                },
            )
        }
    }

    /// The frame with the step strip and the rule under it, and the areas of
    /// the chips.
    pub open spec fn head_painted(
        self,
        frame: FrameView,
        theme: Theme,
        charset: Charset,
        focused: bool,
        labels: Seq<Seq<ClusterView>>,
        rect: Rect,
        clip: u16,
    ) -> (FrameView, Seq<Hit>) {
        let (stripped, areas) = if rect.y < clip {
            let strip = self.strip_painted(
                frame,
                theme,
                charset,
                focused,
                labels,
                rect,
                self.titles.len() as int,
            );
            (strip.0, strip.2)
        } else {
            (frame, Seq::empty())
        };
        let rule = Seq::new(rect.width as nat, |i: int| rule_glyph(charset));
        if sat_add(rect.y, 1) < clip {
            (
                stripped.put(
                    rect.x,
                    sat_add(rect.y, 1),
                    ascii_clusters(rule),
                    Style { foreground: theme.muted, ..plain() },
                ),
                areas,
            )
        } else {
            (stripped, areas)
        }
    }

    /// Last row of an area.
    pub open spec fn button_row(self, rect: Rect) -> u16 {
        sat_sub(sat_add(rect.y, rect.height), 1)
    }

    /// The frame with what is wrong, above the buttons.
    pub open spec fn error_painted(
        self,
        frame: FrameView,
        theme: Theme,
        rect: Rect,
        clip: u16,
        icon: Seq<ClusterView>,
        error: Seq<ClusterView>,
    ) -> FrameView {
        let y = sat_sub(self.button_row(rect), 1);
        let style = Style { foreground: theme.warn, ..plain() };
        if self.error is Some && y < clip {
            written(frame, rect.x, y, seq![run(icon, style), mark(" "@, style), run(error, style)]).0
        } else {
            frame
        }
    }

    /// The label of the button that goes on.
    pub open spec fn next_label(self) -> Seq<char> {
        if self.idx + 1 == self.titles.len() {
            " Finish "@
        } else {
            " Next "@
        }
    }

    /// Column of the buttons.
    pub open spec fn back_x(self, rect: Rect) -> u16 {
        sat_add(
            rect.x,
            sat_sub(
                rect.width,
                if self.idx + 1 == self.titles.len() {
                    19
                } else {
                    17
                },
            ),
        )
    }

    /// The frame with the two buttons.
    pub open spec fn buttons_painted(
        self,
        frame: FrameView,
        theme: Theme,
        charset: Charset,
        focused: bool,
        rect: Rect,
    ) -> FrameView {
        let y = self.button_row(rect);
        let back = pill_fill(theme.surface, focused && self.button == 0);
        let next = pill_fill(theme.accent, focused && self.button == 1);
        let (first, x) = written(
            frame,
            self.back_x(rect),
            y,
            pill_runs(seq![mark(" Back "@, pill_style(back, theme.fg))], back, charset),
        );
        written(
            first,
            sat_add(x, 2),
            y,
            pill_runs(
                seq![mark(self.next_label(), pill_style(next, theme.contrast))],
                next,
                charset,
            ),
        ).0
    }
}

/// The runs of a pill around a label's runs.
pub fn pill_row(label: Vec<Run>, fill: Color, charset: Charset) -> (runs: Vec<Run>)
    ensures
        run_views(runs@) == pill_runs(run_views(label@), fill, charset),
{
    let cap: Style = Style::new().fg(fill);
    let (left, right) = charset.pill_caps();
    let mut runs: Vec<Run> = no_runs();
    push_mark(&mut runs, left, cap);
    let ghost opened = run_views(runs@);
    let mut at: usize = 0;
    let ghost all = run_views(label@);
    assert(opened + all.take(0) =~= opened);
    while at < label.len()
        invariant
            at <= label@.len(),
            all == run_views(label@),
            run_views(runs@) == opened + all.take(at as int),
        decreases label.len() - at,
    {
        assert(all[at as int] == label@[at as int]@);
        push_run(&mut runs, label[at].text.copy(), label[at].style);
        assert(opened + all.take(at + 1) =~= (opened + all.take(at as int)).push(all[at as int]));
        at += 1;
    }
    assert(all.take(at as int) =~= all);
    push_mark(&mut runs, right, cap);
    assert(run_views(runs@) =~= pill_runs(all, fill, charset));
    runs
}

/// A fill, brighter where it is highlighted.
pub fn fill_of(fill: Color, highlight: bool) -> (color: Color)
    ensures
        color == pill_fill(fill, highlight),
{
    if highlight {
        brighten(fill)
    } else {
        fill
    }
}

impl Wizard {
    /// Creates an empty wizard.
    pub fn new(slot: Slot) -> (wizard: Self)
        ensures
            wizard@ == (WizardView {
                slot,
                titles: Seq::empty(),
                submit: false,
                idx: 0,
                error: None,
                button: 0,
                rect: None,
            }),
    {
        let wizard = Wizard {
            slot,
            titles: Vec::new(),
            submit: false,
            idx: 0,
            error: None,
            button: 0,
            rect: None,
        };
        assert(wizard@.titles =~= Seq::empty());
        wizard
    }

    /// Sets whether finishing submits.
    pub fn with(self, submit: bool) -> (wizard: Self)
        ensures
            wizard@ == (WizardView { submit, ..self@ }),
    {
        let mut wizard: Wizard = self;
        wizard.submit = submit;
        wizard
    }

    /// Sets one attribute of the wizard from text. `submit` makes finishing
    /// submit, unless it says `false`; the wizard has no other.
    pub fn with_str(self, name: &str, value: &str) -> (wizard: Self)
        ensures
            wizard@ == (if name@ == "submit"@ {
                WizardView { submit: value@ != "false"@, ..self@ }
            } else {
                self@
            }),
    {
        if same_text(name, "submit") {
            self.with(!same_text(value, "false"))
        } else {
            self
        }
    }

    /// Appends a step pane without a title of its own.
    pub fn child(self) -> (wizard: Self)
        ensures
            wizard@ == (WizardView {
                titles: self@.titles.push(ascii_clusters("step"@)),
                ..self@
            }),
    {
        self.step(Text::cells_of("step"))
    }

    /// Appends a titled step pane.
    pub fn step(self, title: Text) -> (wizard: Self)
        ensures
            wizard@ == (WizardView { titles: self@.titles.push(title@), ..self@ }),
    {
        let mut wizard: Wizard = self;
        let ghost before = wizard@.titles;
        let ghost added = title@;
        wizard.titles.push(title);
        assert(wizard@.titles =~= before.push(added));
        wizard
    }

    /// The active step.
    pub fn active(&self) -> (index: Option<usize>)
        ensures
            index == (if self@.idx < self@.titles.len() {
                Some(self@.idx as usize)
            } else {
                None
            }),
    {
        let index: usize = self.idx as usize;
        if index < self.titles.len() {
            Some(index)
        } else {
            None
        }
    }

    /// Least and natural width; `widest` is the natural width of the widest pane.
    pub fn measure(&self, widest: u16) -> (widths: (u16, u16))
        ensures
            widths.0 == 24,
            widths.1 == max16(
                max16(sat_mul(cell_count(self@.titles.len() as int), 12), 24),
                widest,
            ),
    {
        let chips: u16 = if self.titles.len() <= 5461 {
            self.titles.len() as u16 * 12
        } else {
            65535
        };
        let natural: u16 = if chips > 24 {
            chips
        } else {
            24
        };
        (
            24,
            if natural > widest {
                natural
            } else {
                widest
            },
        )
    }

    /// Rows of the wizard around an active pane of `content` rows.
    pub fn height(&self, content: u16) -> (rows: u16)
        ensures
            rows == sat_add(
                sat_add(content, 3),
                if self@.error is Some {
                    1
                } else {
                    0
                },
            ),
    {
        let extra: u16 = if self.error.is_some() {
            1
        } else {
            0
        };
        content.saturating_add(3).saturating_add(extra)
    }

    /// Notes the wizard's area; the area of the active pane, `height` rows high.
    pub fn place(&mut self, area: Rect, height: u16) -> (pane: Rect)
        ensures
            final(self)@ == (WizardView { rect: Some(area), ..old(self)@ }),
            pane == (Rect { x: area.x, y: sat_add(area.y, 2), width: area.width, height }),
    {
        self.rect = Some(area);
        Rect::new(area.x, area.y.saturating_add(2), area.width, height)
    }

    /// Goes on to the next step, unless something is wrong with this one.
    pub fn next(&mut self, pane: &Option<Checked>) -> (flow: Flow)
        ensures
            final(self)@ == old(self)@.advanced(pane_error(*pane)).wizard,
            flow@ == old(self)@.advanced(pane_error(*pane)).flow,
    {
        let error: Option<String> = match pane {
            Some(check) => validate(check),
            None => None,
        };
        if error.is_some() {
            self.error = error;
            return Flow::Consumed;
        }
        self.error = None;
        if (self.idx as usize) < self.titles.len() && ((self.idx as usize) < self.titles.len() - 1) {
            self.idx = self.idx.saturating_add(1);
            Flow::Consumed
        } else if self.submit {
            Flow::Event(UiEvent::Submit)
        } else {
            Flow::Consumed
        }
    }

    /// Goes back one step.
    pub fn back(&mut self)
        ensures
            final(self)@ == old(self)@.retreated(),
    {
        self.error = None;
        self.idx = self.idx.saturating_sub(1);
    }

    /// Handles one key; `pane` is the active step as it stands.
    pub fn key(&mut self, key: Key, pane: &Option<Checked>) -> (flow: Flow)
        ensures
            final(self)@ == old(self)@.keyed(key, pane_error(*pane)).wizard,
            flow@ == old(self)@.keyed(key, pane_error(*pane)).flow,
    {
        match key {
            Key::Left => {
                self.button = 0;
                Flow::Consumed
            },
            Key::Right => {
                self.button = 1;
                Flow::Consumed
            },
            Key::Enter | Key::Space => {
                if self.button == 0 {
                    self.back();
                    Flow::Consumed
                } else {
                    self.next(pane)
                }
            },
            _ => Flow::Skip,
        }
    }

    /// Handles a pointer action at column `x`.
    pub fn mouse(&mut self, mouse: Mouse, tag: HitTag, x: u16, pane: &Option<Checked>) -> (flow: Flow)
        ensures
            final(self)@ == old(self)@.pointed(mouse, tag, x, pane_error(*pane)).wizard,
            flow@ == old(self)@.pointed(mouse, tag, x, pane_error(*pane)).flow,
    {
        match (mouse, tag) {
            (Mouse::Click, HitTag::Chip(target)) => {
                if target < self.idx {
                    self.idx = target;
                    self.error = None;
                }
                Flow::Consumed
            },
            (Mouse::Click, HitTag::Press) => {
                match self.rect {
                    None => Flow::Skip,
                    Some(rect) => {
                        if x >= rect.x.saturating_add(rect.width.saturating_sub(9)) {
                            self.button = 1;
                            self.next(pane)
                        } else {
                            self.button = 0;
                            self.back();
                            Flow::Consumed
                        }
                    },
                }
            },
            _ => Flow::Skip,
        }
    }

    /// The text that a step's chip shows, for the host to measure.
    pub fn step_label(&self, index: usize) -> (label: String)
        requires
            index < self@.titles.len(),
            index < usize::MAX,
        ensures
            label@ == self@.step_label(index as int),
    {
        let place: u16 = if index <= 65535 {
            index as u16
        } else {
            65535
        };
        assert(self@.titles[index as int] == self.titles@[index as int]@);
        let title: String = crate::select::text_content(&self.titles[index]);
        if place < self.idx {
            return title;
        }
        let number: String = to_decimal((index + 1) as u64);
        let mut label: String = if place == self.idx {
            " ".to_owned()
        } else {
            "".to_owned()
        };
        label.append(number.as_str());
        label.append(" ");
        label.append(title.as_str());
        if place == self.idx {
            label.append(" ");
        }
        proof {
            reveal_strlit(" ");
            reveal_strlit("");
            assert(label@ =~= self@.step_label(index as int));
        }
        label
    }

    /// The runs of a step's chip.
    fn chip_row(&self, ctx: &UiContext, focused: bool, label: &Text, index: usize) -> (runs: Vec<
        Run,
    >)
        ensures
            run_views(runs@) == self@.chip_runs(
                ctx.theme,
                ctx.charset,
                focused,
                label@,
                index as int,
            ),
    {
        let theme: &Theme = &ctx.theme;
        let place: u16 = if index <= 65535 {
            index as u16
        } else {
            65535
        };
        let mut runs: Vec<Run> = no_runs();
        if place < self.idx {
            let style: Style = Style::new().fg(theme.ok);
            push_mark(&mut runs, ctx.charset.check(), style);
            push_mark(&mut runs, " ", style);
            push_run(&mut runs, label.copy(), style);
            assert(run_views(runs@) =~= self@.chip_runs(
                *theme,
                ctx.charset,
                focused,
                label@,
                index as int,
            ));
            return runs;
        }
        if place == self.idx {
            let fill: Color = fill_of(theme.accent, focused);
            let body: Style = Style::new().fg(theme.contrast).bg(fill).bold();
            push_run(&mut runs, label.copy(), body);
            assert(run_views(runs@) =~= seq![run(label@, body)]);
            return pill_row(runs, fill, ctx.charset);
        }
        push_run(&mut runs, label.copy(), Style::new().fg(theme.muted));
        assert(run_views(runs@) =~= self@.chip_runs(
            *theme,
            ctx.charset,
            focused,
            label@,
            index as int,
        ));
        runs
    }

    /// Paints the step strip and the rule under it, and registers the chips.
    /// `labels` are the chips' texts, measured.
    pub fn paint_head(
        &mut self,
        frame: &mut Frame,
        hits: &mut Vec<Hit>,
        ctx: &UiContext,
        focused: bool,
        labels: &Vec<Text>,
        rect: Rect,
        clip: u16,
    )
        requires
            old(frame).wf(),
            old(self)@.labels_steps(title_views(labels@)),
        ensures
            final(frame).wf(),
            final(frame).source() == old(frame).source(),
            final(self)@ == (WizardView { rect: Some(rect), ..old(self)@ }),
            ({
                let (painted, areas) = old(self)@.head_painted(
                    old(frame)@,
                    ctx.theme,
                    ctx.charset,
                    focused,
                    title_views(labels@),
                    rect,
                    clip,
                );
                final(frame)@ == painted && final(hits)@ == old(hits)@ + areas
            }),
    {
        let ghost wizard = self@;
        let ghost before = frame@;
        let ghost earlier = hits@;
        self.rect = Some(rect);
        if rect.y < clip {
            let base: Style = Style::new().fg(ctx.theme.fg);
            let mut column: u16 = rect.x;
            let total: usize = self.titles.len();
            assert(title_views(labels@).len() == labels.len());
            assert(wizard.titles.len() == total);
            let mut at: usize = 0;
            assert(earlier + Seq::<Hit>::empty() =~= earlier);
            while at < total
                invariant
                    at <= total,
                    total == self.titles@.len(),
                    total == labels.len(),
                    self@ == (WizardView { rect: Some(rect), ..wizard }),
                    base == (Style { foreground: ctx.theme.fg, ..plain() }),
                    frame.wf(),
                    frame.source() == old(frame).source(),
                    ({
                        let strip = wizard.strip_painted(
                            before,
                            ctx.theme,
                            ctx.charset,
                            focused,
                            title_views(labels@),
                            rect,
                            at as int,
                        );
                        frame@ == strip.0 && column == strip.1 && hits@ == earlier + strip.2
                    }),
                decreases total - at,
            {
                let ghost strip = wizard.strip_painted(
                    before,
                    ctx.theme,
                    ctx.charset,
                    focused,
                    title_views(labels@),
                    rect,
                    at as int,
                );
                assert(title_views(labels@)[at as int] == labels@[at as int]@);
                let runs: Vec<Run> = self.chip_row(ctx, focused, &labels[at], at);
                assert(run_views(runs@) == wizard.chip_runs(
                    ctx.theme,
                    ctx.charset,
                    focused,
                    labels@[at as int]@,
                    at as int,
                ));
                let end: u16 = write_runs(frame, column, rect.y, &runs);
                let from: u16 = column.saturating_sub(rect.x);
                let to: u16 = end.saturating_sub(rect.x);
                if to > from {
                    let tag: u16 = if at <= 65535 {
                        at as u16
                    } else {
                        65535
                    };
                    let area = Hit {
                        rect: Rect::new(rect.x.saturating_add(from), rect.y, to - from, 1),
                        slot: self.slot,
                        tag: HitTag::Chip(tag),
                    };
                    hits.push(area);
                    assert(hits@ =~= earlier + strip.2.push(area));
                }
                column = frame.put(end, rect.y, &Text::cells_of("  "), base);
                at += 1;
            }
        } else {
            assert(hits@ =~= earlier + Seq::<Hit>::empty());
        }
        if rect.y.saturating_add(1) < clip {
            let mut rule: String = "".to_owned();
            let fill: char = ctx.charset.rule();
            let mut width: u16 = 0;
            proof {
                reveal_strlit("");
                assert(rule@ =~= Seq::new(0, |i: int| rule_glyph(ctx.charset)));
            }
            while width < rect.width
                invariant
                    width <= rect.width,
                    fill == rule_glyph(ctx.charset),
                    rule@ == Seq::new(width as nat, |i: int| rule_glyph(ctx.charset)),
                decreases rect.width - width,
            {
                push_char(&mut rule, fill);
                width += 1;
                assert(rule@ =~= Seq::new(width as nat, |i: int| rule_glyph(ctx.charset)));
            }
            frame.put(
                rect.x,
                rect.y.saturating_add(1),
                &Text::cells_of(rule.as_str()),
                Style::new().fg(ctx.theme.muted),
            );
        }
    }

    /// Paints what is wrong and the buttons, and registers the buttons. `icon`
    /// and `error` are the warning icon and the error, measured.
    pub fn paint_foot(
        &self,
        frame: &mut Frame,
        hits: &mut Vec<Hit>,
        ctx: &UiContext,
        focused: bool,
        rect: Rect,
        clip: u16,
        icon: &Text,
        error: &Text,
    )
        requires
            old(frame).wf(),
            self@.error matches Some(told) ==> content(error@) == told,
        ensures
            final(frame).wf(),
            final(frame).source() == old(frame).source(),
            ({
                let noted = self@.error_painted(old(frame)@, ctx.theme, rect, clip, icon@, error@);
                let y = self@.button_row(rect);
                if y < clip {
                    final(frame)@ == self@.buttons_painted(
                        noted,
                        ctx.theme,
                        ctx.charset,
                        focused,
                        rect,
                    ) && final(hits)@ == old(hits)@.push(
                        Hit {
                            rect: Rect { x: rect.x, y, width: rect.width, height: 1 },
                            slot: self@.slot,
                            tag: HitTag::Press,
                        },
                    )
                } else {
                    final(frame)@ == noted && final(hits)@ == old(hits)@
                }
            }),
    {
        let theme: &Theme = &ctx.theme;
        let y: u16 = rect.y.saturating_add(rect.height).saturating_sub(1);
        if self.error.is_some() && y.saturating_sub(1) < clip {
            let style: Style = Style::new().fg(theme.warn);
            let mut runs: Vec<Run> = no_runs();
            push_run(&mut runs, icon.copy(), style);
            push_mark(&mut runs, " ", style);
            push_run(&mut runs, error.copy(), style);
            assert(run_views(runs@) =~= seq![
                run(icon@, style),
                mark(" "@, style),
                run(error@, style),
            ]);
            write_runs(frame, rect.x, y.saturating_sub(1), &runs);
        }
        if y < clip {
            self.paint_buttons(frame, ctx, focused, rect, y);
            hits.push(
                Hit {
                    rect: Rect::new(rect.x, y, rect.width, 1),
                    slot: self.slot,
                    tag: HitTag::Press,
                },
            );
        }
    }

    /// Paints the two buttons.
    fn paint_buttons(&self, frame: &mut Frame, ctx: &UiContext, focused: bool, rect: Rect, y: u16)
        requires
            old(frame).wf(),
            y == self@.button_row(rect),
        ensures
            final(frame).wf(),
            final(frame).source() == old(frame).source(),
            final(frame)@ == self@.buttons_painted(
                old(frame)@,
                ctx.theme,
                ctx.charset,
                focused,
                rect,
            ),
    {
        let theme: &Theme = &ctx.theme;
        let last: bool = self.titles.len() > 0 && self.idx as usize == self.titles.len() - 1;
        let back_x: u16 = rect.x.saturating_add(
            rect.width.saturating_sub(
                if last {
                    19
                } else {
                    17
                },
            ),
        );
        let back: Color = fill_of(theme.surface, focused && self.button == 0);
        let back_style: Style = Style::new().fg(theme.fg).bg(back).bold();
        let mut label: Vec<Run> = no_runs();
        push_mark(&mut label, " Back ", back_style);
        assert(run_views(label@) =~= seq![mark(" Back "@, pill_style(back, theme.fg))]);
        let first: Vec<Run> = pill_row(label, back, ctx.charset);
        let x: u16 = write_runs(frame, back_x, y, &first);
        let next: Color = fill_of(theme.accent, focused && self.button == 1);
        let next_style: Style = Style::new().fg(theme.contrast).bg(next).bold();
        let mut label: Vec<Run> = no_runs();
        push_mark(
            &mut label,
            if last {
                " Finish "
            } else {
                " Next "
            },
            next_style,
        );
        assert(run_views(label@) =~= seq![
            mark(self@.next_label(), pill_style(next, theme.contrast)),
        ]);
        let second: Vec<Run> = pill_row(label, next, ctx.charset);
        write_runs(frame, x.saturating_add(2), y, &second);
    }
}

/// What is wrong with a pane, where there is one.
pub open spec fn pane_error(pane: Option<Checked>) -> Option<Seq<char>> {
    match pane {
        Some(check) => first_error(check),
        None => None,
    }
}

/// A step with something wrong is not left forwards, and the error is shown
/// until it is.
pub proof fn errors_block_the_way(wizard: WizardView, error: Seq<char>)
    ensures
        wizard.advanced(Some(error)).wizard.idx == wizard.idx,
        wizard.advanced(Some(error)).wizard.error == Some(error),
        wizard.advanced(Some(error)).flow == FlowView::Consumed,
{
}

/// Going on and back again returns to the same step without an error.
pub proof fn back_undoes_next(wizard: WizardView)
    requires
        wizard.idx + 1 < wizard.titles.len(),
        wizard.idx < 65535,
    ensures
        wizard.advanced(None).wizard.retreated() == (WizardView { error: None, ..wizard }),
{
}

/// The pointer jumps back to steps that are done, never ahead.
pub proof fn chips_only_lead_back(
    wizard: WizardView,
    target: u16,
    x: u16,
    error: Option<Seq<char>>,
)
    ensures
        wizard.pointed(Mouse::Click, HitTag::Chip(target), x, error).wizard.idx <= wizard.idx,
{
}

} // verus!
