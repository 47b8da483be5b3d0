//! Requests of the debug socket: one JSON object per line.

use vstd::prelude::*;
use vstd::string::*;

use crate::completion::shown_text;
use crate::input::{Chord, Mouse, MouseButton, MouseReport};
use crate::keyspec::{chords_from, parse_keys, quote, quoted_form};
use crate::strings::{same_text, utf8};

verus! {

/// What is wrong with a line that is no JSON.
pub uninterp spec fn json_problem(line: Seq<u8>) -> Option<Seq<char>>;

/// The string under a field of the JSON object on a line.
pub uninterp spec fn json_text(line: Seq<u8>, field: Seq<char>) -> Option<Seq<char>>;

/// The number under a field of the JSON object on a line.
pub uninterp spec fn json_number(line: Seq<u8>, field: Seq<char>) -> Option<u64>;

/// The value under a field of the JSON object on a line, as JSON again.
pub uninterp spec fn json_value(line: Seq<u8>, field: Seq<char>) -> Option<Seq<char>>;

/// `serde_json::from_slice` into a `Value`: the error's message where the line
/// is no JSON. Only that it depends on the line alone is stated.
#[verifier::external_body]
fn check_json(line: &[u8]) -> (problem: Option<String>)
    ensures
        shown_text(problem) == json_problem(line@),
{
    serde_json::from_slice::<serde_json::Value>(line).err().map(|error| error.to_string())
}

/// `serde_json::Value::get` and `as_str` on the parsed line: the string under
/// a field, where there is one. Only that it depends on the line and the field
/// alone is stated.
#[verifier::external_body]
fn text_field(line: &[u8], field: &str) -> (text: Option<String>)
    ensures
        shown_text(text) == json_text(line@, field@),
{
    let value = serde_json::from_slice::<serde_json::Value>(line).ok()?;
    value.get(field)?.as_str().map(str::to_owned)
}

/// `serde_json::Value::get` and `as_u64` on the parsed line: the number under
/// a field, where there is one. Only that it depends on the line and the field
/// alone is stated.
#[verifier::external_body]
fn number_field(line: &[u8], field: &str) -> (number: Option<u64>)
    ensures
        number == json_number(line@, field@),
{
    let value = serde_json::from_slice::<serde_json::Value>(line).ok()?;
    value.get(field)?.as_u64()
}

/// `serde_json::Value::get` and `to_string` on the parsed line: the value under
/// a field written as JSON, where there is one. Only that it depends on the
/// line and the field alone is stated.
#[verifier::external_body]
fn value_field(line: &[u8], field: &str) -> (value: Option<String>)
    ensures
        shown_text(value) == json_value(line@, field@),
{
    let value = serde_json::from_slice::<serde_json::Value>(line).ok()?;
    value.get(field).map(serde_json::Value::to_string)
}

/// What a request line holds, as far as requests read it.
pub struct RequestFields {
    /// `op`.
    pub op: Option<String>,
    /// `keys`.
    pub keys: Option<String>,
    /// `data`.
    pub data: Option<String>,
    /// `text`.
    pub text: Option<String>,
    /// `action`.
    pub action: Option<String>,
    /// `x`.
    pub x: Option<u64>,
    /// `y`.
    pub y: Option<u64>,
    /// `effect`, as JSON.
    pub effect: Option<String>,
    /// `event`, else `events`, as JSON.
    pub event: Option<String>,
}

/// What a request line holds.
pub struct FieldsView {
    /// `op`.
    pub op: Option<Seq<char>>,
    /// `keys`.
    pub keys: Option<Seq<char>>,
    /// `data`.
    pub data: Option<Seq<char>>,
    /// `text`.
    pub text: Option<Seq<char>>,
    /// `action`.
    pub action: Option<Seq<char>>,
    /// `x`.
    pub x: Option<u64>,
    /// `y`.
    pub y: Option<u64>,
    /// `effect`, as JSON.
    pub effect: Option<Seq<char>>,
    /// `event`, else `events`, as JSON.
    pub event: Option<Seq<char>>,
}

impl View for RequestFields {
    type V = FieldsView;

    open spec fn view(&self) -> FieldsView {
        FieldsView {
            op: shown_text(self.op),
            keys: shown_text(self.keys),
            data: shown_text(self.data),
            text: shown_text(self.text),
            action: shown_text(self.action),
            x: self.x,
            y: self.y,
            effect: shown_text(self.effect),
            event: shown_text(self.event),
        }
    }
}

/// The fields of a request line.
pub open spec fn fields_of(line: Seq<u8>) -> FieldsView {
    FieldsView {
        op: json_text(line, "op"@),
        keys: json_text(line, "keys"@),
        data: json_text(line, "data"@),
        text: json_text(line, "text"@),
        action: json_text(line, "action"@),
        x: json_number(line, "x"@),
        y: json_number(line, "y"@),
        effect: json_value(line, "effect"@),
        event: match json_value(line, "event"@) {
            Some(event) => Some(event),
            None => json_value(line, "events"@),
        },
    }
}

/// A query that the terminal or its host answers.
#[derive(Clone, Copy, Debug, PartialEq, Eq, Structural)]
pub enum DebugOp {
    /// Viewport, document and overlay summary.
    Info,
    /// The last painted screen.
    Text,
    /// The full document frame.
    Frame,
    /// The component tree.
    Tree,
    /// The components' values.
    Values,
    /// Extension mounts.
    Slots,
    /// Re-read the geometry.
    Resize,
    /// Inject the quit chord.
    Quit,
}

/// One parsed debug request.
pub enum DebugRequest {
    /// A query.
    Query(DebugOp),
    /// A serialized extension effect, to be injected into the event mailbox.
    Effect(String),
    /// A bracketed paste.
    Paste(String),
    /// A pointer action.
    Mouse(MouseReport),
    /// Physical chords for the live keymap: delivered as the chord edges or
    /// semantic keys the decoder would emit for them.
    Chords(Vec<Chord>),
    /// One serialized terminal event or a list of them, to be injected
    /// verbatim. That they decode is left to the host that knows the events;
    /// one that does not is answered with [`undecoded_events`].
    Events(String),
    /// Raw bytes for the live input decoder.
    Bytes(Vec<u8>),
}

/// One parsed debug request.
pub enum RequestView {
    /// A query.
    Query(DebugOp),
    /// A serialized extension effect.
    Effect(Seq<char>),
    /// A bracketed paste.
    Paste(Seq<char>),
    /// A pointer action.
    Mouse(MouseReport),
    /// Physical chords.
    Chords(Seq<Chord>),
    /// Serialized terminal events.
    Events(Seq<char>),
    /// Raw bytes.
    Bytes(Seq<u8>),
}

impl View for DebugRequest {
    type V = RequestView;

    open spec fn view(&self) -> RequestView {
        match *self {
            DebugRequest::Query(op) => RequestView::Query(op),
            DebugRequest::Effect(effect) => RequestView::Effect(effect@),
            DebugRequest::Paste(text) => RequestView::Paste(text@),
            DebugRequest::Mouse(report) => RequestView::Mouse(report),
            DebugRequest::Chords(chords) => RequestView::Chords(chords@),
            DebugRequest::Events(events) => RequestView::Events(events@),
            DebugRequest::Bytes(bytes) => RequestView::Bytes(bytes@),
        }
    }
}

/// The action, button and press state that a pointer action's name stands for.
pub open spec fn mouse_action(name: Seq<char>) -> Option<(Mouse, MouseButton, bool)> {
    if name == "click"@ || name == "press"@ {
        Some((Mouse::Click, MouseButton::Left, true))
    } else if name == "right-click"@ {
        Some((Mouse::RightClick, MouseButton::Right, true))
    } else if name == "middle-click"@ {
        Some((Mouse::MiddleClick, MouseButton::Middle, true))
    } else if name == "move"@ {
        Some((Mouse::Move, MouseButton::Free, false))
    } else if name == "drag"@ {
        Some((Mouse::Drag, MouseButton::Left, true))
    } else if name == "release"@ {
        Some((Mouse::Release, MouseButton::Left, false))
    } else if name == "wheel-up"@ {
        Some((Mouse::WheelUp, MouseButton::WheelUp, true))
    } else if name == "wheel-down"@ {
        Some((Mouse::WheelDown, MouseButton::WheelDown, true))
    } else if name == "wheel-left"@ {
        Some((Mouse::WheelLeft, MouseButton::WheelLeft, true))
    } else if name == "wheel-right"@ {
        Some((Mouse::WheelRight, MouseButton::WheelRight, true))
    } else {
        None
    }
}

/// The pointer action that a request asks for.
pub open spec fn requested_mouse(fields: FieldsView) -> Result<MouseReport, Seq<char>> {
    let fits = |number: Option<u64>| number is Some && number->0 <= 65535;
    let name = match fields.action {
        Some(action) => action,
        None => "click"@,
    };
    if !fits(fields.x) {
        Err("mouse op needs a numeric \"x\""@)
    } else if !fits(fields.y) {
        Err("mouse op needs a numeric \"y\""@)
    } else {
        match mouse_action(name) {
            None => Err("unknown mouse action "@ + quoted_form(name)),
            Some((kind, button, pressed)) => Ok(
                MouseReport {
                    kind,
                    col: fields.x->0 as u16,
                    row: fields.y->0 as u16,
                    button,
                    mods: crate::input::no_mods(),
                    pressed,
                },
            ),
        }
    }
}

/// The query that an operation's name stands for.
pub open spec fn query_op(op: Seq<char>) -> Option<DebugOp> {
    if op == "info"@ {
        Some(DebugOp::Info)
    } else if op == "text"@ {
        Some(DebugOp::Text)
    } else if op == "frame"@ {
        Some(DebugOp::Frame)
    } else if op == "tree"@ {
        Some(DebugOp::Tree)
    } else if op == "values"@ {
        Some(DebugOp::Values)
    } else if op == "slots"@ {
        Some(DebugOp::Slots)
    } else if op == "resize"@ {
        Some(DebugOp::Resize)
    } else if op == "quit"@ {
        Some(DebugOp::Quit)
    } else {
        None
    }
}

/// The request that an operation with its fields makes.
pub open spec fn requested_op(op: Seq<char>, fields: FieldsView) -> Result<RequestView, Seq<char>> {
    if query_op(op) is Some {
        Ok(RequestView::Query(query_op(op)->0))
    } else if op == "effect"@ {
        match fields.effect {
            Some(effect) => Ok(RequestView::Effect(effect)),
            None => Err("effect op needs an \"effect\" object"@),
        }
    } else if op == "keys"@ {
        match fields.keys {
            None => Err("keys op needs a \"keys\" string"@),
            Some(spec) => match chords_from(spec, 0) {
                Ok(chords) => Ok(RequestView::Chords(chords)),
                Err(problem) => Err(problem),
            },
        }
    } else if op == "bytes"@ {
        match fields.data {
            None => Err("bytes op needs a \"data\" string"@),
            Some(data) => Ok(RequestView::Bytes(utf8(data))),
        }
    } else if op == "paste"@ {
        match fields.text {
            None => Err("paste op needs a \"text\" string"@),
            Some(text) => Ok(RequestView::Paste(text)),
        }
    } else if op == "mouse"@ {
        match requested_mouse(fields) {
            Ok(report) => Ok(RequestView::Mouse(report)),
            Err(problem) => Err(problem),
        }
    } else if op == "event"@ || op == "events"@ {
        match fields.event {
            Some(events) => Ok(RequestView::Events(events)),
            None => Err("event op needs an \"event\" (or \"events\") field"@),
        }
    } else {
        Err("unknown op "@ + quoted_form(op))
    }
}

/// The request that fields make.
pub open spec fn requested(fields: FieldsView) -> Result<RequestView, Seq<char>> {
    match fields.op {
        None => Err("missing \"op\""@),
        Some(op) => requested_op(op, fields),
    }
}

/// A request or the message of what is wrong with it.
pub open spec fn request_view(parsed: Result<DebugRequest, String>) -> Result<
    RequestView,
    Seq<char>,
> {
    match parsed {
        Ok(request) => Ok(request@),
        Err(message) => Err(message@),
    }
}

/// The action, button and press state that a pointer action's name stands for.
fn find_mouse_action(name: &str) -> (found: Option<(Mouse, MouseButton, bool)>)
    ensures
        found == mouse_action(name@),
{
    if same_text(name, "click") || same_text(name, "press") {
        Some((Mouse::Click, MouseButton::Left, true))
    } else if same_text(name, "right-click") {
        Some((Mouse::RightClick, MouseButton::Right, true))
    } else if same_text(name, "middle-click") {
        Some((Mouse::MiddleClick, MouseButton::Middle, true))
    } else if same_text(name, "move") {
        Some((Mouse::Move, MouseButton::Free, false))
    } else if same_text(name, "drag") {
        Some((Mouse::Drag, MouseButton::Left, true))
    } else if same_text(name, "release") {
        Some((Mouse::Release, MouseButton::Left, false))
    } else if same_text(name, "wheel-up") {
        Some((Mouse::WheelUp, MouseButton::WheelUp, true))
    } else if same_text(name, "wheel-down") {
        Some((Mouse::WheelDown, MouseButton::WheelDown, true))
    } else if same_text(name, "wheel-left") {
        Some((Mouse::WheelLeft, MouseButton::WheelLeft, true))
    } else if same_text(name, "wheel-right") {
        Some((Mouse::WheelRight, MouseButton::WheelRight, true))
    } else {
        None
    }
}

/// The pointer action that a request asks for.
pub fn parse_mouse(fields: &RequestFields) -> (parsed: Result<MouseReport, String>)
    ensures
        match parsed {
            Ok(report) => requested_mouse(fields@) == Ok::<MouseReport, Seq<char>>(report),
            Err(message) => requested_mouse(fields@) == Err::<MouseReport, Seq<char>>(message@),
        },
{
    let col: u16 = match fields.x {
        Some(number) => {
            if number > 65535 {
                return Err("mouse op needs a numeric \"x\"".to_owned());
            }
            number as u16
        },
        None => {
            return Err("mouse op needs a numeric \"x\"".to_owned());
        },
    };
    let row: u16 = match fields.y {
        Some(number) => {
            if number > 65535 {
                return Err("mouse op needs a numeric \"y\"".to_owned());
            }
            number as u16
        },
        None => {
            return Err("mouse op needs a numeric \"y\"".to_owned());
        },
    };
    let name: &str = match &fields.action {
        Some(action) => action.as_str(),
        None => "click",
    };
    match find_mouse_action(name) {
        None => {
            let mut message: String = "unknown mouse action ".to_owned();
            message.append(quote(name).as_str());
            Err(message)
        },
        Some((kind, button, pressed)) => Ok(
            MouseReport { kind, col, row, button, mods: crate::input::Mods::free(), pressed },
        ),
    }
}

/// The query that an operation's name stands for.
fn find_query(op: &str) -> (found: Option<DebugOp>)
    ensures
        found == query_op(op@),
{
    if same_text(op, "info") {
        Some(DebugOp::Info)
    } else if same_text(op, "text") {
        Some(DebugOp::Text)
    } else if same_text(op, "frame") {
        Some(DebugOp::Frame)
    } else if same_text(op, "tree") {
        Some(DebugOp::Tree)
    } else if same_text(op, "values") {
        Some(DebugOp::Values)
    } else if same_text(op, "slots") {
        Some(DebugOp::Slots)
    } else if same_text(op, "resize") {
        Some(DebugOp::Resize)
    } else if same_text(op, "quit") {
        Some(DebugOp::Quit)
    } else {
        None
    }
}

/// The bytes of a text.
fn bytes_of(text: &str) -> (bytes: Vec<u8>)
    ensures
        bytes@ == utf8(text@),
{
    let all: &[u8] = text.as_bytes();
    let mut bytes: Vec<u8> = Vec::new();
    let mut at: usize = 0;
    while at < all.len()
        invariant
            at <= all.len(),
            bytes@ == all@.take(at as int),
        decreases all.len() - at,
    {
        bytes.push(all[at]);
        at += 1;
        assert(bytes@ =~= all@.take(at as int));
    }
    assert(all@.take(at as int) =~= all@);
    bytes
}

/// The request that fields make.
pub fn request_of(fields: &RequestFields) -> (parsed: Result<DebugRequest, String>)
    ensures
        request_view(parsed) == requested(fields@),
{
    let op: &str = match &fields.op {
        Some(op) => op.as_str(),
        None => {
            return Err("missing \"op\"".to_owned());
        },
    };
    if let Some(query) = find_query(op) {
        return Ok(DebugRequest::Query(query));
    }
    if same_text(op, "effect") {
        match &fields.effect {
            Some(effect) => Ok(DebugRequest::Effect(effect.clone())),
            None => Err("effect op needs an \"effect\" object".to_owned()),
        }
    } else if same_text(op, "keys") {
        match &fields.keys {
            None => Err("keys op needs a \"keys\" string".to_owned()),
            Some(spec) => match parse_keys(spec.as_str()) {
                Ok(chords) => Ok(DebugRequest::Chords(chords)),
                Err(message) => Err(message),
            },
        }
    } else if same_text(op, "bytes") {
        match &fields.data {
            None => Err("bytes op needs a \"data\" string".to_owned()),
            Some(data) => Ok(DebugRequest::Bytes(bytes_of(data.as_str()))),
        }
    } else if same_text(op, "paste") {
        match &fields.text {
            None => Err("paste op needs a \"text\" string".to_owned()),
            Some(text) => Ok(DebugRequest::Paste(text.clone())),
        }
    } else if same_text(op, "mouse") {
        match parse_mouse(fields) {
            Ok(report) => Ok(DebugRequest::Mouse(report)),
            Err(message) => Err(message),
        }
    } else if same_text(op, "event") || same_text(op, "events") {
        match &fields.event {
            Some(events) => Ok(DebugRequest::Events(events.clone())),
            None => Err("event op needs an \"event\" (or \"events\") field".to_owned()),
        }
    } else {
        let mut message: String = "unknown op ".to_owned();
        message.append(quote(op).as_str());
        Err(message)
    }
}

/// The request on a line, or what is wrong with it.
pub open spec fn parsed_line(line: Seq<u8>) -> Result<RequestView, Seq<char>> {
    match json_problem(line) {
        Some(problem) => Err("malformed request: "@ + problem),
        None => requested(fields_of(line)),
    }
}

/// What the request for events that do not decode is answered; `problem` is
/// what is wrong with them.
pub fn undecoded_events(problem: &str) -> (message: String)
    ensures
        message@ == "malformed terminal event: "@ + problem@,
{
    let mut message: String = "malformed terminal event: ".to_owned();
    message.append(problem);
    message
}

/// Parses one request line into a [`DebugRequest`]. Serialized effects and
/// events are carried as they are: whether they decode stays open.
pub fn parse_request(line: &[u8]) -> (parsed: Result<DebugRequest, String>)
    ensures
        request_view(parsed) == parsed_line(line@),
{
    if let Some(problem) = check_json(line) {
        let mut message: String = "malformed request: ".to_owned();
        message.append(problem.as_str());
        return Err(message);
    }
    let fields = RequestFields {
        op: text_field(line, "op"),
        keys: text_field(line, "keys"),
        data: text_field(line, "data"),
        text: text_field(line, "text"),
        action: text_field(line, "action"),
        x: number_field(line, "x"),
        y: number_field(line, "y"),
        effect: value_field(line, "effect"),
        event: match value_field(line, "event") {
            Some(event) => Some(event),
            None => value_field(line, "events"),
        },
    };
    request_of(&fields)
}

/// Who answers a request.
#[derive(Clone, Copy, Debug, PartialEq, Eq, Structural)]
pub enum Route {
    /// The terminal or its host, through the mailbox.
    Ask(DebugOp),
    /// The server itself, once the input was delivered.
    Deliver,
}

/// What the server answers to delivered input.
#[derive(Clone, Copy, Debug, PartialEq, Eq, Structural)]
pub enum Acknowledgement {
    /// An effect was injected.
    Effect,
    /// So many events or chords were injected.
    Injected(usize),
    /// So many bytes were fed.
    Fed(usize),
    /// No live terminal to inject into.
    Dead,
}

/// Who answers a request.
pub open spec fn routed(request: RequestView) -> Route {
    match request {
        RequestView::Query(op) => Route::Ask(op),
        _ => Route::Deliver,
    }
}

/// What the server answers once the input was delivered or not; `events` is
/// the number of serialized events on the line.
pub open spec fn acknowledged(request: RequestView, delivered: bool, events: usize) -> Acknowledgement {
    if !delivered {
        Acknowledgement::Dead
    } else {
        match request {
            RequestView::Effect(_) => Acknowledgement::Effect,
            RequestView::Paste(_) => Acknowledgement::Injected(1),
            RequestView::Mouse(_) => Acknowledgement::Injected(1),
            RequestView::Chords(chords) => Acknowledgement::Injected(chords.len() as usize),
            RequestView::Bytes(bytes) => Acknowledgement::Fed(bytes.len() as usize),
            RequestView::Events(_) => Acknowledgement::Injected(events),
            RequestView::Query(_) => Acknowledgement::Dead,
        }
    }
}

impl DebugRequest {
    /// Who answers: every query goes through the mailbox that input goes
    /// through, so answers observe every input injected before.
    pub fn route(&self) -> (route: Route)
        ensures
            route == routed(self@),
    {
        match self {
            DebugRequest::Query(op) => Route::Ask(*op),
            _ => Route::Deliver,
        }
    }

    /// What the server answers once the input was delivered or not; `events`
    /// is the number of serialized events on the line.
    pub fn acknowledge(&self, delivered: bool, events: usize) -> (answer: Acknowledgement)
        ensures
            answer == acknowledged(self@, delivered, events),
    {
        if !delivered {
            return Acknowledgement::Dead;
        }
        match self {
            DebugRequest::Effect(_) => Acknowledgement::Effect,
            DebugRequest::Paste(_) => Acknowledgement::Injected(1),
            DebugRequest::Mouse(_) => Acknowledgement::Injected(1),
            DebugRequest::Chords(chords) => Acknowledgement::Injected(chords.len()),
            DebugRequest::Bytes(bytes) => Acknowledgement::Fed(bytes.len()),
            DebugRequest::Events(_) => Acknowledgement::Injected(events),
            DebugRequest::Query(_) => Acknowledgement::Dead,
        }
    }
}

} // verus!
