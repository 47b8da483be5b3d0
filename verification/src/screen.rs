//! What the terminal shows, as text.

use vstd::prelude::*;
use vstd::string::*;

use crate::cell::{Cell, CellContent, CellView, Shown};
use crate::chars::is_whitespace;
use crate::commands::{build_text, text_views};
use crate::frame::Frame;
use crate::layout::trimmed;
use crate::requests::DebugOp;
use crate::strings::chars_of;
use crate::style::{plain, Style};
use crate::text::push_char;

verus! {

/// What the terminal currently shows, as published by the last paint.
pub struct ScreenSnapshot {
    /// Right-trimmed visible text, one string per viewport row.
    pub lines: Vec<String>,
    /// Visible hardware cursor as (row, column), when placed.
    pub cursor: Option<(u16, u16)>,
    /// Document row shown at the viewport top.
    pub window_top: u16,
    /// Viewport width in cells.
    pub cols: u16,
    /// Viewport height in rows.
    pub rows: u16,
    /// Full document height in rows.
    pub doc_height: u16,
    /// Whether viewport layers were composited into this paint.
    pub overlay: bool,
}

/// What the terminal currently shows.
#[verifier::ext_equal]
pub struct SnapshotView {
    /// Visible text, one line per viewport row.
    pub lines: Seq<Seq<char>>,
    /// Visible hardware cursor.
    pub cursor: Option<(u16, u16)>,
    /// Document row shown at the viewport top.
    pub window_top: u16,
    /// Viewport width.
    pub cols: u16,
    /// Viewport height.
    pub rows: u16,
    /// Document height.
    pub doc_height: u16,
    /// Whether layers were composited.
    pub overlay: bool,
}

impl View for ScreenSnapshot {
    type V = SnapshotView;

    open spec fn view(&self) -> SnapshotView {
        SnapshotView {
            lines: text_views(self.lines@),
            cursor: self.cursor,
            window_top: self.window_top,
            cols: self.cols,
            rows: self.rows,
            doc_height: self.doc_height,
            overlay: self.overlay,
        }
    }
}

impl ScreenSnapshot {
    /// The same snapshot.
    pub fn copy(&self) -> (snapshot: Self)
        ensures
            snapshot@ == self@,
    {
        let mut lines: Vec<String> = Vec::new();
        let mut at: usize = 0;
        while at < self.lines.len()
            invariant
                at <= self.lines.len(),
                lines.len() == at,
                forall|i: int| 0 <= i < at ==> (#[trigger] lines@[i])@ == self.lines@[i]@,
            decreases self.lines.len() - at,
        {
            lines.push(self.lines[at].clone());
            at += 1;
        }
        let snapshot = ScreenSnapshot {
            lines,
            cursor: self.cursor,
            window_top: self.window_top,
            cols: self.cols,
            rows: self.rows,
            doc_height: self.doc_height,
            overlay: self.overlay,
        };
        assert(snapshot@.lines =~= self@.lines);
        assert(snapshot@ =~= self@);
        snapshot
    }
}

/// Latest painted viewport; nothing until the first paint.
pub struct ScreenBoard {
    /// The last snapshot.
    pub latest: Option<ScreenSnapshot>,
}

/// A snapshot, where there is one.
pub open spec fn snapshot_view(snapshot: Option<ScreenSnapshot>) -> Option<SnapshotView> {
    match snapshot {
        Some(shown) => Some(shown@),
        None => None,
    }
}

impl ScreenBoard {
    /// Nothing painted yet.
    pub fn new() -> (board: Self)
        ensures
            board.latest is None,
    {
        ScreenBoard { latest: None }
    }

    /// Replaces the published screen snapshot after a paint.
    pub fn publish_screen(&mut self, snapshot: ScreenSnapshot)
        ensures
            final(self).latest == Some(snapshot),
    {
        self.latest = Some(snapshot);
    }

    /// Copies the latest published screen snapshot.
    pub fn screen_snapshot(&self) -> (snapshot: Option<ScreenSnapshot>)
        ensures
            snapshot_view(snapshot) == snapshot_view(self.latest),
    {
        match &self.latest {
            Some(shown) => Some(shown.copy()),
            None => None,
        }
    }
}

/// What the terminal itself answers to a query.
#[derive(Clone, Copy, Debug, PartialEq, Eq, Structural)]
pub enum TerminalReply {
    /// Nothing was painted yet.
    NoFrame,
    /// The summary of the last paint.
    Info,
    /// The text of the last paint.
    Text,
    /// The geometry is re-read.
    Signalled,
    /// The quit chord was injected.
    Quit,
}

/// What the terminal itself answers; `None` passes the query on to the host.
pub open spec fn terminal_answer(op: DebugOp, painted: bool) -> Option<TerminalReply> {
    match op {
        DebugOp::Info => Some(
            if painted {
                TerminalReply::Info
            } else {
                TerminalReply::NoFrame
            },
        ),
        DebugOp::Text => Some(
            if painted {
                TerminalReply::Text
            } else {
                TerminalReply::NoFrame
            },
        ),
        DebugOp::Resize => Some(TerminalReply::Signalled),
        DebugOp::Quit => Some(TerminalReply::Quit),
        _ => None,
    }
}

/// Answers the debug queries the terminal itself owns; `None` passes the
/// query on to the host (retained-tree state).
pub fn terminal_response(op: DebugOp, painted: bool) -> (reply: Option<TerminalReply>)
    ensures
        reply == terminal_answer(op, painted),
{
    match op {
        DebugOp::Info => Some(
            if painted {
                TerminalReply::Info
            } else {
                TerminalReply::NoFrame
            },
        ),
        DebugOp::Text => Some(
            if painted {
                TerminalReply::Text
            } else {
                TerminalReply::NoFrame
            },
        ),
        DebugOp::Resize => Some(TerminalReply::Signalled),
        DebugOp::Quit => Some(TerminalReply::Quit),
        DebugOp::Frame | DebugOp::Tree | DebugOp::Values | DebugOp::Slots => None,
    }
}

/// The text of one cell.
pub open spec fn cell_text(cell: CellView) -> Seq<char> {
    match cell.content {
        Shown::Blank => seq![' '],
        Shown::Grapheme { text, width } => text,
        Shown::Image { id, row, col, rows, cols } => seq![' '],
        Shown::Continuation => Seq::empty(),
    }
}

/// The text of a row's first `count` cells.
pub open spec fn cells_text(cells: Seq<CellView>, count: int) -> Seq<char>
    decreases count,
{
    if count <= 0 {
        Seq::empty()
    } else {
        cells_text(cells, count - 1) + cell_text(cells[count - 1])
    }
}

/// The text of a row, right-trimmed.
pub open spec fn row_text(cells: Seq<CellView>) -> Seq<char> {
    trimmed(cells_text(cells, cells.len() as int))
}

/// The text of the first `count` rows, each on a line.
pub open spec fn rows_text(rows: Seq<Seq<CellView>>, count: int) -> Seq<char>
    decreases count,
{
    if count <= 0 {
        Seq::empty()
    } else if count == 1 {
        row_text(rows[0])
    } else {
        rows_text(rows, count - 1) + seq!['\n'] + row_text(rows[count - 1])
    }
}

/// The text of a row, right-trimmed.
pub fn frame_row_text(frame: &Frame, y: u16) -> (text: String)
    requires
        frame.wf(),
        y < frame@.height(),
    ensures
        text@ == row_text(frame@.rows[y as int]),
{
    let width: u16 = frame.size().width;
    let ghost cells = frame@.rows[y as int];
    proof {
        reveal_strlit("");
        frame.wf_shows_grid();
    }
    let mut text: String = "".to_owned();
    let mut x: u16 = 0;
    assert(text@ =~= cells_text(cells, 0));
    while x < width
        invariant
            x <= width,
            frame.wf(),
            width == frame@.width,
            y < frame@.height(),
            cells == frame@.rows[y as int],
            cells.len() == width,
            text@ == cells_text(cells, x as int),
        decreases width - x,
    {
        let cell: &Cell = frame.cell(x, y);
        match cell.content() {
            CellContent::Blank => {
                push_char(&mut text, ' ');
            },
            CellContent::Grapheme { text: shown, .. } => {
                text.append(shown.as_str());
            },
            CellContent::Image { .. } => {
                push_char(&mut text, ' ');
            },
            CellContent::Continuation => {},
        }
        x += 1;
        assert(text@ =~= cells_text(cells, x as int));
    }
    let chars: Vec<char> = chars_of(text.as_str());
    let mut count: usize = chars.len();
    assert(chars@.take(count as int) =~= chars@);
    while count > 0 && is_whitespace(chars[count - 1])
        invariant
            count <= chars.len(),
            trimmed(chars@) == trimmed(chars@.take(count as int)),
        decreases count,
    {
        assert(chars@.take(count as int).last() == chars@[count - 1]);
        assert(chars@.take(count as int).drop_last() =~= chars@.take(count - 1));
        count -= 1;
    }
    proof {
        let now = chars@.take(count as int);
        if count > 0 {
            assert(now.last() == chars@[count - 1]);
        }
        assert(trimmed(now) == now);
        assert(chars@.subrange(0, count as int) =~= now);
    }
    build_text(&chars, 0, count)
}

/// Projects one painted frame to right-trimmed terminal text.
pub fn frame_text(frame: &Frame) -> (text: String)
    requires
        frame.wf(),
    ensures
        text@ == rows_text(frame@.rows, frame@.height()),
{
    let height: u16 = frame.size().height;
    proof {
        reveal_strlit("");
    }
    let mut text: String = "".to_owned();
    let mut y: u16 = 0;
    assert(text@ =~= rows_text(frame@.rows, 0));
    while y < height
        invariant
            y <= height,
            frame.wf(),
            height == frame@.height(),
            text@ == rows_text(frame@.rows, y as int),
        decreases height - y,
    {
        if y != 0 {
            push_char(&mut text, '\n');
        }
        let row: String = frame_row_text(frame, y);
        text.append(row.as_str());
        y += 1;
        assert(text@ =~= rows_text(frame@.rows, y as int));
    }
    text
}

/// Whether a cell shows anything or has a style of its own.
pub open spec fn shows(cell: CellView) -> bool {
    (Style { link: None, ..cell.style }) != plain() || !(cell.content is Blank || cell.content
        is Continuation)
}

/// Position behind the last of the first `count` cells that shows anything.
pub open spec fn shown_end(cells: Seq<CellView>, count: int) -> int
    decreases count,
{
    if count <= 0 {
        0
    } else if shows(cells[count - 1]) {
        count
    } else {
        shown_end(cells, count - 1)
    }
}

/// One piece of a styled row.
pub enum Piece {
    /// Text in one style.
    Text(String, Style),
    /// One cell of an image.
    Image {
        /// The image.
        id: u32,
        /// Row within the image.
        row: u16,
        /// Column within the image.
        col: u16,
        /// Rows of the image.
        rows: u16,
        /// Columns of the image.
        cols: u16,
    },
}

/// One piece of a styled row.
pub enum PieceView {
    /// Text in one style.
    Text(Seq<char>, Style),
    /// One cell of an image.
    Image {
        /// The image.
        id: u32,
        /// Row within the image.
        row: u16,
        /// Column within the image.
        col: u16,
        /// Rows of the image.
        rows: u16,
        /// Columns of the image.
        cols: u16,
    },
}

impl View for Piece {
    type V = PieceView;

    open spec fn view(&self) -> PieceView {
        match *self {
            Piece::Text(text, style) => PieceView::Text(text@, style),
            Piece::Image { id, row, col, rows, cols } => PieceView::Image {
                id,
                row,
                col,
                rows,
                cols,
            },
        }
    }
}

/// The views of pieces.
pub open spec fn piece_views(pieces: Seq<Piece>) -> Seq<PieceView> {
    pieces.map_values(|piece: Piece| piece@)
}

/// The pieces of a row from column `x` up to `end`.
pub open spec fn pieces_from(cells: Seq<CellView>, x: int, end: int) -> Seq<PieceView>
    decreases
            (if x < end {
                end - x
            } else {
                0
            }),
{
    if x >= end || x < 0 {
        Seq::empty()
    } else {
        match cells[x].content {
            Shown::Blank => seq![PieceView::Text(seq![' '], cells[x].style)] + pieces_from(
                cells,
                x + 1,
                end,
            ),
            Shown::Grapheme { text, width } => seq![PieceView::Text(text, cells[x].style)]
                + pieces_from(
                cells,
                x + (if width > 1 {
                    width as int
                } else {
                    1
                }),
                end,
            ),
            Shown::Image { id, row, col, rows, cols } => seq![
                PieceView::Image { id, row, col, rows, cols },
            ] + pieces_from(cells, x + 1, end),
            Shown::Continuation => pieces_from(cells, x + 1, end),
        }
    }
}

/// The styled pieces of a row, right-trimmed past the last visible or styled
/// cell.
pub fn row_pieces(frame: &Frame, y: u16) -> (pieces: Vec<Piece>)
    requires
        frame.wf(),
        y < frame@.height(),
    ensures
        piece_views(pieces@) == pieces_from(
            frame@.rows[y as int],
            0,
            shown_end(frame@.rows[y as int], frame@.width as int),
        ),
{
    let width: u16 = frame.size().width;
    let ghost cells = frame@.rows[y as int];
    proof {
        frame.wf_shows_grid();
    }
    let mut end: u16 = width;
    while end > 0 && !is_shown(frame.cell(end - 1, y))
        invariant
            end <= width,
            frame.wf(),
            width == frame@.width,
            y < frame@.height(),
            cells == frame@.rows[y as int],
            shown_end(cells, width as int) == shown_end(cells, end as int),
        decreases end,
    {
        end -= 1;
    }
    let ghost goal = pieces_from(cells, 0, end as int);
    let mut pieces: Vec<Piece> = Vec::new();
    let mut x: u16 = 0;
    assert(piece_views(pieces@) + goal =~= goal);
    while x < end
        invariant
            end <= width,
            frame.wf(),
            width == frame@.width,
            y < frame@.height(),
            cells == frame@.rows[y as int],
            goal == pieces_from(cells, 0, end as int),
            piece_views(pieces@) + pieces_from(cells, x as int, end as int) == goal,
        decreases end - x,
    {
        let cell: &Cell = frame.cell(x, y);
        let ghost earlier = piece_views(pieces@);
        let ghost rest = pieces_from(cells, x as int, end as int);
        match cell.content() {
            CellContent::Blank => {
                let mut blank: String = "".to_owned();
                push_char(&mut blank, ' ');
                proof {
                    reveal_strlit("");
                    assert(blank@ =~= seq![' ']);
                }
                let piece = Piece::Text(blank, cell.style());
                let ghost added = piece@;
                pieces.push(piece);
                assert(piece_views(pieces@) =~= earlier.push(added));
                assert(piece_views(pieces@) + pieces_from(cells, x + 1, end as int) =~= earlier
                    + rest);
                x += 1;
            },
            CellContent::Grapheme { text, width: span } => {
                let piece = Piece::Text(text.clone(), cell.style());
                let ghost added = piece@;
                pieces.push(piece);
                assert(piece_views(pieces@) =~= earlier.push(added));
                let step: u16 = if *span > 1 {
                    *span
                } else {
                    1
                };
                assert(piece_views(pieces@) + pieces_from(cells, x + step, end as int) =~= earlier
                    + rest);
                if step >= end - x {
                    assert(pieces_from(cells, x + step, end as int) =~= Seq::empty());
                    assert(pieces_from(cells, end as int, end as int) =~= Seq::empty());
                    x = end;
                } else {
                    x += step;
                }
            },
            CellContent::Image { id, row, col, rows, cols } => {
                let piece = Piece::Image {
                    id: *id,
                    row: *row,
                    col: *col,
                    rows: *rows,
                    cols: *cols,
                };
                let ghost added = piece@;
                pieces.push(piece);
                assert(piece_views(pieces@) =~= earlier.push(added));
                assert(piece_views(pieces@) + pieces_from(cells, x + 1, end as int) =~= earlier
                    + rest);
                x += 1;
            },
            CellContent::Continuation => {
                x += 1;
            },
        }
    }
    assert(piece_views(pieces@) =~= goal);
    pieces
}

/// Whether a cell shows anything or has a style of its own.
fn is_shown(cell: &Cell) -> (yes: bool)
    ensures
        yes == shows(cell@),
{
    if cell.style().without_link() != Style::new() {
        return true;
    }
    match cell.content() {
        CellContent::Blank | CellContent::Continuation => false,
        _ => true,
    }
}

} // verus!
