//! Styled cells.

use vstd::prelude::*;

use crate::strings::same_text;
use crate::style::{plain, Style};

verus! {

/// Stored glyph data for a declarative cell.
pub enum CellContent {
    /// A one-cell space without owned text.
    Blank,
    /// A shaped grapheme cluster spanning `width` cells.
    Grapheme {
        /// The cluster text (one grapheme, possibly multi-codepoint).
        text: String,
        /// Cell span; continuation cells follow wide clusters.
        width: u16,
    },
    /// A Kitty Unicode-placeholder cell, materialized only by the renderer.
    Image {
        /// Registered image identity.
        id: u32,
        /// First image row this cell displays.
        row: u16,
        /// First image column this cell displays.
        col: u16,
        /// Image rows the placement spans.
        rows: u16,
        /// Image columns the placement spans.
        cols: u16,
    },
    /// Trailing cell of a wide cluster; the head carries the glyph.
    Continuation,
}

/// What a cell shows, with its text as characters.
pub enum Shown {
    /// A space.
    Blank,
    /// A glyph `width` cells wide.
    Grapheme {
        /// The glyph's characters.
        text: Seq<char>,
        /// Its cells.
        width: u16,
    },
    /// A piece of an image.
    Image {
        /// Registered image identity.
        id: u32,
        /// First image row this cell displays.
        row: u16,
        /// First image column this cell displays.
        col: u16,
        /// Image rows the placement spans.
        rows: u16,
        /// Image columns the placement spans.
        cols: u16,
    },
    /// A further cell of the glyph to the left.
    Continuation,
}

impl View for CellContent {
    type V = Shown;

    open spec fn view(&self) -> Shown {
        match *self {
            CellContent::Blank => Shown::Blank,
            CellContent::Grapheme { text, width } => Shown::Grapheme { text: text@, width },
            CellContent::Image { id, row, col, rows, cols } => Shown::Image {
                id,
                row,
                col,
                rows,
                cols,
            },
            CellContent::Continuation => Shown::Continuation,
        }
    }
}

/// One styled cell in a frame's grid.
pub struct Cell {
    /// What the cell shows.
    pub content: CellContent,
    /// Its visual attributes.
    pub style: Style,
}

/// What a cell shows and how.
pub struct CellView {
    /// What the cell shows.
    pub content: Shown,
    /// Its visual attributes.
    pub style: Style,
}

impl View for Cell {
    type V = CellView;

    open spec fn view(&self) -> CellView {
        CellView { content: self.content@, style: self.style }
    }
}

/// A space in the given style.
pub open spec fn blank_cell(style: Style) -> CellView {
    CellView { content: Shown::Blank, style }
}

/// The first cell of a glyph; a lone space is stored as a blank.
pub open spec fn glyph_head(text: Seq<char>, width: u16, style: Style) -> CellView {
    if width == 1 && text == seq![' '] {
        blank_cell(style)
    } else {
        CellView { content: Shown::Grapheme { text, width }, style }
    }
}

/// The cells of a glyph: its head, then one continuation for each further cell.
pub open spec fn glyph_cells(text: Seq<char>, width: u16, style: Style) -> Seq<CellView> {
    Seq::new(
        width as nat,
        |i: int|
            if i == 0 {
                glyph_head(text, width, style)
            } else {
                CellView { content: Shown::Continuation, style }
            },
    )
}

/// An image cell; it carries no style.
pub open spec fn image_cell(id: u32, row: u16, col: u16, rows: u16, cols: u16) -> CellView {
    CellView { content: Shown::Image { id, row, col, rows, cols }, style: plain() }
}

impl Cell {
    /// A space in the given style.
    pub fn blank(style: Style) -> (cell: Self)
        ensures
            cell@ == blank_cell(style),
    {
        Cell { content: CellContent::Blank, style }
    }

    /// The stored glyph data, for presenters compositing the grid directly.
    pub fn content(&self) -> (content: &CellContent)
        ensures
            content@ == self@.content,
    {
        &self.content
    }

    /// The cell's visual attributes.
    pub fn style(&self) -> (style: Style)
        ensures
            style == self@.style,
    {
        self.style
    }

    /// A cell that shows the same.
    pub fn copy(&self) -> (cell: Self)
        ensures
            cell@ == self@,
    {
        let content = match &self.content {
            CellContent::Blank => CellContent::Blank,
            CellContent::Grapheme { text, width } => CellContent::Grapheme {
                text: text.clone(),
                width: *width,
            },
            CellContent::Image { id, row, col, rows, cols } => CellContent::Image {
                id: *id,
                row: *row,
                col: *col,
                rows: *rows,
                cols: *cols,
            },
            CellContent::Continuation => CellContent::Continuation,
        };
        Cell { content, style: self.style }
    }

    /// Whether two cells show the same.
    pub fn same(&self, other: &Self) -> (same: bool)
        ensures
            same == (self@ == other@),
    {
        if self.style != other.style {
            return false;
        }
        match (&self.content, &other.content) {
            (CellContent::Blank, CellContent::Blank) => true,
            (CellContent::Continuation, CellContent::Continuation) => true,
            (
                CellContent::Grapheme { text: a, width: wa },
                CellContent::Grapheme { text: b, width: wb },
            ) => *wa == *wb && same_text(a.as_str(), b.as_str()),
            (
                CellContent::Image { id: ia, row: ra, col: ca, rows: rsa, cols: csa },
                CellContent::Image { id: ib, row: rb, col: cb, rows: rsb, cols: csb },
            ) => *ia == *ib && *ra == *rb && *ca == *cb && *rsa == *rsb && *csa == *csb,
            _ => false,
        }
    }

    /// The first cell of a glyph.
    pub fn glyph(text: &str, width: u16, style: Style) -> (cell: Self)
        ensures
            cell@ == glyph_head(text@, width, style),
    {
        proof {
            reveal_strlit(" ");
            assert(" "@ =~= seq![' ']);
        }
        if width == 1 && same_text(text, " ") {
            Cell::blank(style)
        } else {
            Cell { content: CellContent::Grapheme { text: text.to_owned(), width }, style }
        }
    }
}

} // verus!
