//! Cell sizes and rectangles.

use vstd::prelude::*;

verus! {

/// Sum of two columns or rows, held at the largest cell coordinate.
pub open spec fn sat_add(a: u16, b: u16) -> u16 {
    if a + b <= 65535 {
        (a + b) as u16
    } else {
        65535
    }
}

/// Difference of two columns or rows, held at zero.
pub open spec fn sat_sub(a: u16, b: u16) -> u16 {
    if a >= b {
        (a - b) as u16
    } else {
        0
    }
}

/// The smaller of two cell counts.
pub open spec fn min16(a: u16, b: u16) -> u16 {
    if a <= b {
        a
    } else {
        b
    }
}

/// The larger of two cell counts.
pub open spec fn max16(a: u16, b: u16) -> u16 {
    if a >= b {
        a
    } else {
        b
    }
}

/// The smaller of two cell counts.
pub fn smaller(a: u16, b: u16) -> (least: u16)
    ensures
        least == min16(a, b),
{
    if a <= b {
        a
    } else {
        b
    }
}

/// The larger of two cell counts.
pub fn larger(a: u16, b: u16) -> (most: u16)
    ensures
        most == max16(a, b),
{
    if a >= b {
        a
    } else {
        b
    }
}

/// Terminal dimensions measured in character cells.
#[derive(Clone, Copy, Debug, PartialEq, Eq, Structural)]
pub struct Size {
    /// Number of columns.
    pub width: u16,
    /// Number of rows.
    pub height: u16,
}

impl Size {
    /// Creates terminal dimensions from a column and row count.
    pub fn new(width: u16, height: u16) -> (size: Self)
        ensures
            size.width == width,
            size.height == height,
    {
        Size { width, height }
    }

    /// Number of cells of a grid of this size.
    pub fn area(self) -> (cells: usize)
        ensures
            cells == self.width * self.height,
    {
        assert(self.width * self.height <= 65535 * 65535) by (nonlinear_arith)
            requires
                self.width <= 65535,
                self.height <= 65535,
        ;
        self.width as usize * self.height as usize
    }
}

/// A rectangular cell region clipped by drawing operations to the frame.
#[derive(Clone, Copy, Debug, PartialEq, Eq, Structural)]
pub struct Rect {
    /// Leftmost column.
    pub x: u16,
    /// Topmost row.
    pub y: u16,
    /// Region width in cells.
    pub width: u16,
    /// Region height in cells.
    pub height: u16,
}

impl Rect {
    /// Column just past the rectangle.
    pub open spec fn right_edge(self) -> u16 {
        sat_add(self.x, self.width)
    }

    /// Row just past the rectangle.
    pub open spec fn bottom_edge(self) -> u16 {
        sat_add(self.y, self.height)
    }

    /// Whether every edge of `other` lies within this rectangle.
    pub open spec fn covers(self, other: Self) -> bool {
        &&& other.x >= self.x
        &&& other.y >= self.y
        &&& other.x + other.width <= self.x + self.width
        &&& other.y + other.height <= self.y + self.height
    }

    /// Whether the cell at `(x, y)` belongs to the rectangle.
    pub open spec fn holds(self, x: u16, y: u16) -> bool {
        self.x <= x < self.right_edge() && self.y <= y < self.bottom_edge()
    }

    /// Creates a cell rectangle.
    pub fn new(x: u16, y: u16, width: u16, height: u16) -> (rect: Self)
        ensures
            rect == (Rect { x, y, width, height }),
    {
        Rect { x, y, width, height }
    }

    /// Whether `other` lies entirely within this rectangle.
    pub fn contains_rect(self, other: Self) -> (contains: bool)
        ensures
            contains == self.covers(other),
    {
        other.x >= self.x && other.y >= self.y && other.x as u32 + other.width as u32
            <= self.x as u32 + self.width as u32 && other.y as u32 + other.height as u32
            <= self.y as u32 + self.height as u32
    }

    /// Column just past the rectangle, held at the largest coordinate.
    pub fn right(self) -> (edge: u16)
        ensures
            edge == self.right_edge(),
    {
        self.x.saturating_add(self.width)
    }

    /// Row just past the rectangle, held at the largest coordinate.
    pub fn bottom(self) -> (edge: u16)
        ensures
            edge == self.bottom_edge(),
    {
        self.y.saturating_add(self.height)
    }
}

/// Containment of rectangles is reflexive.
pub proof fn covers_is_reflexive(rect: Rect)
    ensures
        rect.covers(rect),
{
}

/// Containment of rectangles is transitive.
pub proof fn covers_is_transitive(outer: Rect, middle: Rect, inner: Rect)
    requires
        outer.covers(middle),
        middle.covers(inner),
    ensures
        outer.covers(inner),
{
}

/// A contained rectangle has no cell outside the one that contains it.
pub proof fn covers_bounds_cells(outer: Rect, inner: Rect, x: u16, y: u16)
    requires
        outer.covers(inner),
        inner.holds(x, y),
    ensures
        outer.holds(x, y),
{
}

} // verus!
