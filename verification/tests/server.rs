use omp_tui::frame::Frame;
use omp_tui::geometry::Size;
use omp_tui::input::{Chord, Key, Mouse};
use omp_tui::queries::{Client, Clients, Queries};
use omp_tui::requests::{
    parse_request, undecoded_events, Acknowledgement, DebugOp, DebugRequest, Route,
};
use omp_tui::screen::{
    frame_row_text, frame_text, row_pieces, terminal_response, Piece, ScreenBoard, ScreenSnapshot,
    TerminalReply,
};
use omp_tui::serving::{Decision, Reply, Server};
use omp_tui::style::Style;
use omp_tui::text::Text;

fn failure(line: &str) -> String {
    match parse_request(line.as_bytes()) {
        Ok(_) => panic!("{line} was accepted"),
        Err(message) => message,
    }
}

fn request(line: &str) -> DebugRequest {
    parse_request(line.as_bytes()).expect("the request is well formed")
}

/// A disconnect must not reroute a pending query's reply: client A parks a
/// retained query and dies, client B occupies A's compacted slot, and the late
/// host reply for A has to be dropped rather than delivered to B.
#[test]
fn pending_query_replies_follow_stable_client_ids() {
    let mut clients = Clients::new();
    let mut queries = Queries::new();
    let first = clients.accept();
    clients.list[0].receive(b"{\"op\":\"tree\"}\n");
    let (sender, line) = clients.next_line().expect("the query is complete");
    assert_eq!(sender, first);
    assert_eq!(parse_request(&line).expect("valid").route(), Route::Ask(DebugOp::Tree));
    let id = queries.begin();
    assert_eq!(id, 1);
    queries.park(id, first, 2_000);
    clients.list[0].retire();

    let second = clients.accept();
    assert_ne!(first, second);
    assert!(clients.next_line().is_none());
    assert_eq!(clients.list.len(), 1, "the dead connection is compacted away");
    clients.list[0].receive(b"{\"op\":\"keys\",\"keys\":\"x\"}\n");
    let (sender, line) = clients.next_line().expect("the injection is complete");
    assert_eq!(sender, second);
    let injected = parse_request(&line).expect("valid");
    assert_eq!(injected.route(), Route::Deliver);
    assert_eq!(injected.acknowledge(true, 0), Acknowledgement::Injected(1));
    assert_eq!(clients.respond(second, b"{\"ok\":true,\"injected\":1}"), Some(0));
    assert_eq!(clients.list[0].output, b"{\"ok\":true,\"injected\":1}\n");
    let sent = clients.list[0].output.len();
    clients.list[0].wrote(sent);

    let client = queries.answer(1).expect("the query is still pending");
    assert_eq!(client, first);
    assert_eq!(clients.respond(client, b"{\"leak\":\"wrong-client\",\"ok\":true}"), None);
    assert!(clients.list[0].output.is_empty(), "the survivor sees no stray reply");
    assert_eq!(queries.answer(1), None, "duplicate replies are dropped");
}

#[test]
fn queries_expire_when_their_time_has_come() {
    let mut queries = Queries::new();
    assert_eq!(queries.earliest(), None);
    let first = queries.begin();
    let second = queries.begin();
    let third = queries.begin();
    queries.park(first, 7, 30);
    queries.park(second, 8, 10);
    queries.park(third, 9, 20);
    assert_eq!(queries.earliest(), Some(10));
    assert!(queries.expire(9).is_empty());
    let mut expired = queries.expire(20);
    expired.sort_unstable();
    assert_eq!(expired, vec![8, 9]);
    assert_eq!(queries.earliest(), Some(30));
    assert_eq!(queries.answer(second), None);
    assert_eq!(queries.answer(first), Some(7));
    assert_eq!(queries.earliest(), None);
}

#[test]
fn connections_frame_lines_and_drain_output() {
    let mut client = Client::new(4);
    client.receive(b"one\ntw");
    assert_eq!(client.take_line(), Some(b"one".to_vec()));
    assert_eq!(client.take_line(), None, "a partial line stays buffered");
    client.receive(b"o\n\n");
    assert_eq!(client.take_line(), Some(b"two".to_vec()));
    assert_eq!(client.take_line(), Some(Vec::new()));
    client.queue(b"{}");
    assert_eq!(client.output, b"{}\n");
    client.wrote(2);
    assert_eq!(client.output, b"\n");
    assert!(!client.dead);
    client.wrote(0);
    assert!(client.dead, "a socket that takes nothing is gone");
}

#[test]
fn requests_name_what_they_lack() {
    assert!(failure("{").starts_with("malformed request: "));
    assert!(failure("nope").starts_with("malformed request: "));
    assert_eq!(failure("{}"), "missing \"op\"");
    assert_eq!(failure("[1]"), "missing \"op\"");
    assert_eq!(failure("{\"op\":3}"), "missing \"op\"");
    assert_eq!(failure("{\"op\":\"dance\"}"), "unknown op \"dance\"");
    assert_eq!(failure("{\"op\":\"a\\nb\"}"), "unknown op \"a\\nb\"");
    assert_eq!(failure("{\"op\":\"effect\"}"), "effect op needs an \"effect\" object");
    assert_eq!(failure("{\"op\":\"keys\"}"), "keys op needs a \"keys\" string");
    assert_eq!(failure("{\"op\":\"bytes\",\"data\":7}"), "bytes op needs a \"data\" string");
    assert_eq!(failure("{\"op\":\"paste\"}"), "paste op needs a \"text\" string");
    assert_eq!(
        failure("{\"op\":\"event\"}"),
        "event op needs an \"event\" (or \"events\") field"
    );
    assert_eq!(failure("{\"op\":\"mouse\",\"y\":1}"), "mouse op needs a numeric \"x\"");
    assert_eq!(
        failure("{\"op\":\"mouse\",\"x\":1,\"y\":70000}"),
        "mouse op needs a numeric \"y\""
    );
    assert_eq!(
        failure("{\"op\":\"mouse\",\"x\":1,\"y\":2,\"action\":\"poke\"}"),
        "unknown mouse action \"poke\""
    );
    assert_eq!(failure("{\"op\":\"keys\",\"keys\":\"wat\"}"), "unknown key token \"wat\"");
}

#[test]
fn requests_carry_their_fields() {
    match request("{\"op\":\"paste\",\"text\":\"caf\\u00e9\"}") {
        DebugRequest::Paste(text) => assert_eq!(text, "café"),
        _ => panic!("not a paste"),
    }
    match request("{\"op\":\"bytes\",\"data\":\"\\u001b[A\"}") {
        DebugRequest::Bytes(bytes) => assert_eq!(bytes, b"\x1b[A"),
        _ => panic!("not bytes"),
    }
    match request("{\"op\":\"mouse\",\"x\":4,\"y\":9,\"action\":\"wheel-up\"}") {
        DebugRequest::Mouse(report) => {
            assert_eq!((report.col, report.row, report.kind), (4, 9, Mouse::WheelUp));
            assert!(report.pressed);
        },
        _ => panic!("not a mouse report"),
    }
    match request("{\"op\":\"keys\",\"keys\":\"tab 'a'\"}") {
        DebugRequest::Chords(chords) => {
            assert_eq!(chords, vec![Chord::plain(Key::Tab), Chord::plain(Key::Char('a'))]);
        },
        _ => panic!("not chords"),
    }
    assert!(matches!(
        request("{\"op\":\"effect\",\"effect\":{}}"),
        DebugRequest::Effect(effect) if effect == "{}"
    ));
    assert!(matches!(
        request("{\"op\":\"events\",\"events\":[]}"),
        DebugRequest::Events(events) if events == "[]"
    ));
    assert!(matches!(
        request("{\"op\":\"event\",\"events\":[], \"event\": {\"a\": 1}}"),
        DebugRequest::Events(events) if events == "{\"a\":1}"
    ));
    assert_eq!(undecoded_events("no such event"), "malformed terminal event: no such event");
    assert!(matches!(request("{\"op\":\"slots\"}"), DebugRequest::Query(DebugOp::Slots)));
}

#[test]
fn input_is_acknowledged_by_what_it_delivered() {
    let bytes = request("{\"op\":\"bytes\",\"data\":\"abc\"}");
    assert_eq!(bytes.acknowledge(true, 0), Acknowledgement::Fed(3));
    assert_eq!(bytes.acknowledge(false, 0), Acknowledgement::Dead);
    let effect = request("{\"op\":\"effect\",\"effect\":1}");
    assert_eq!(effect.acknowledge(true, 0), Acknowledgement::Effect);
    let events = request("{\"op\":\"event\",\"event\":[1,2]}");
    assert_eq!(events.acknowledge(true, 2), Acknowledgement::Injected(2));
    assert_eq!(request("{\"op\":\"quit\"}").route(), Route::Ask(DebugOp::Quit));
}

fn painted() -> Frame {
    let mut frame = Frame::new(Size::new(6, 2), 1);
    frame.put(1, 0, &Text::cells_of("hi"), Style::new().bold());
    frame.put(0, 1, &Text::cells_of("end"), Style::new());
    frame
}

#[test]
fn frames_project_to_trimmed_text() {
    let frame = painted();
    assert_eq!(frame_row_text(&frame, 0), " hi");
    assert_eq!(frame_text(&frame), " hi\nend");
    let pieces = row_pieces(&frame, 0);
    assert_eq!(pieces.len(), 3, "a row is cut past its last visible cell");
    match &pieces[1] {
        Piece::Text(text, style) => {
            assert_eq!(text, "h");
            assert!(style.spec().bold);
        },
        Piece::Image { .. } => panic!("no image was placed"),
    }
}

#[test]
fn the_board_keeps_the_latest_screen() {
    let mut board = ScreenBoard::new();
    assert!(board.screen_snapshot().is_none());
    for top in [3, 5] {
        board.publish_screen(ScreenSnapshot {
            lines: vec!["row".to_string()],
            cursor: Some((0, 2)),
            window_top: top,
            cols: 80,
            rows: 24,
            doc_height: 40,
            overlay: false,
        });
    }
    let latest = board.screen_snapshot().expect("two screens were published");
    assert_eq!((latest.window_top, latest.cols, latest.doc_height), (5, 80, 40));
    assert_eq!(latest.lines, vec!["row"]);
}

#[test]
fn the_terminal_answers_what_it_owns() {
    assert_eq!(terminal_response(DebugOp::Info, true), Some(TerminalReply::Info));
    assert_eq!(terminal_response(DebugOp::Info, false), Some(TerminalReply::NoFrame));
    assert_eq!(terminal_response(DebugOp::Text, true), Some(TerminalReply::Text));
    assert_eq!(terminal_response(DebugOp::Text, false), Some(TerminalReply::NoFrame));
    assert_eq!(terminal_response(DebugOp::Resize, false), Some(TerminalReply::Signalled));
    assert_eq!(terminal_response(DebugOp::Quit, false), Some(TerminalReply::Quit));
    for op in [DebugOp::Frame, DebugOp::Tree, DebugOp::Values, DebugOp::Slots] {
        assert_eq!(terminal_response(op, true), None);
    }
}

#[test]
fn the_server_decides_and_correlates() {
    let mut server = Server::new();
    let client = server.clients.accept();
    assert!(matches!(
        server.decide(b"{\"op\":\"dance\"}"),
        Decision::Answer(Reply::Failed(problem)) if problem == "unknown op \"dance\""
    ));
    assert!(matches!(
        server.decide(b"{\"op\":\"paste\",\"text\":\"hi\"}"),
        Decision::Deliver(DebugRequest::Paste(text)) if text == "hi"
    ));
    assert!(matches!(server.decide(b"{\"op\":\"tree\"}"), Decision::Ask(1, DebugOp::Tree)));
    assert!(server.asked(1, client, true, 500).is_none());
    assert_eq!(server.queries.earliest(), Some(2_500));
    assert!(matches!(server.decide(b"{\"op\":\"info\"}"), Decision::Ask(2, DebugOp::Info)));
    assert!(matches!(
        server.asked(2, client, false, 500),
        Some(Reply::Failed(problem)) if problem == "no live terminal to query"
    ));
    assert_eq!(server.answered(1, b"{}"), Some(0));
    assert_eq!(server.clients.list[0].output, b"{}\n");
    assert_eq!(server.answered(1, b"{}"), None, "answers come once");

    assert!(matches!(server.decide(b"{\"op\":\"slots\"}"), Decision::Ask(3, DebugOp::Slots)));
    assert!(server.asked(3, client, true, u64::MAX - 1).is_none());
    let (clients, problem) = server.expire(u64::MAX);
    assert_eq!(clients, vec![client]);
    assert!(problem.starts_with("no retained host answered"));
}
