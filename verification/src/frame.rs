//! Declarative terminal viewports.

use smol_bitmap::SmolBitmap;
use vstd::prelude::*;

use crate::bits::{
    bits_clear, bits_clone, bits_eq, bits_get, bits_new, bits_retain_below, bits_set, set_bits,
};
use crate::cell::{image_cell, Cell, CellContent, CellView};
use crate::color::{Color, Gradient};
use crate::geometry::{min16, sat_add, sat_sub, smaller, Rect, Size};
use crate::markup::Border;
use crate::row::{
    blanks, clipped, glyph_run, overwrite, ramp_inked, ramp_underlaid, row_ok, underlaid, Row,
};
use crate::style::{plain, Style};
use crate::text::{all_ascii, cells, drawn, drawn_cells, ClusterView, Text};

verus! {

/// Paint used by a native fill or border decoration.
#[derive(Clone, Copy, Debug, PartialEq, Eq, Structural)]
pub enum DecorFill {
    /// A flat color.
    Solid(Color),
    /// A two-stop color ramp.
    Gradient(Gradient),
}

/// A focus or hover halo.
#[derive(Clone, Copy, Debug, PartialEq, Eq, Structural)]
pub struct Glow {
    /// Halo color.
    pub color: Color,
    /// Encoded strength between none and full.
    pub strength: u32,
}

/// Visual treatment carried by a native-decoration primitive.
///
/// Fractions ride as the bits of their single-precision encoding: the library
/// stores them for the presenter and never computes with them.
#[derive(Clone, Copy, Debug, PartialEq, Eq, Structural)]
pub enum DecorKind {
    /// Container underlay; `rounded` follows the box's border shape.
    Fill {
        /// Underlay paint.
        fill: DecorFill,
        /// Whether the fill follows rounded border corners.
        rounded: bool,
    },
    /// Border ring; `glow` is the focus/hover halo (color, strength).
    Border {
        /// Border shape.
        border: Border,
        /// Border paint.
        ink: DecorFill,
        /// Optional halo color and encoded strength.
        glow: Option<Glow>,
    },
    /// Moving highlight crest over the rect's text (period of one sweep).
    Shimmer {
        /// Duration of one highlight sweep in nanoseconds.
        period: u64,
    },
    /// Soft fade-in edge of a streaming text reveal. The rect is the front
    /// row's line; glyphs within a few cells behind `front` ramp in.
    Reveal {
        /// Encoded fractional absolute column of the reveal edge.
        front: u32,
    },
}

/// One native-decoration primitive for pixel-capable presenters. Cell
/// coordinates; the glyph backend never reads these.
#[derive(Clone, Copy, Debug, PartialEq, Eq, Structural)]
pub struct Decor {
    /// Decorated cell region.
    pub rect: Rect,
    /// Visual primitive applied to the region.
    pub kind: DecorKind,
}

/// A semantic mark on one frame row, materialized by the terminal renderer
/// as an OSC 133 shell-integration zone around the row's cells. Marks are row
/// metadata like soft-wrap flags: they
/// ride along with single-row blits and never touch cell content.
#[derive(Clone, Copy, Debug, PartialEq, Eq, Structural)]
pub enum RowMark {
    /// First row of a prompt zone: `OSC 133;A` precedes the row.
    PromptStart,
    /// Last row of a prompt zone: `OSC 133;B`, `133;C`, and `133;D;0`
    /// follow the row, closing the zone within the same paint.
    PromptEnd,
}

/// A complete declarative terminal viewport.
///
/// Each frame owns a fixed cell grid. Wide graphemes reserve continuation
/// cells, so overwriting either half cannot leave a stale terminal cell behind.
pub struct Frame {
    size: Size,
    rows: Vec<Row>,
    decors: Vec<Decor>,
    noselect: Vec<Rect>,
    cursor: Option<(u16, u16)>,
    may_have_images: bool,
    source_id: u64,
    revision: u64,
    /// Soft row boundaries: bit `y` set means row `y` wraps onto row
    /// `y + 1` mid-word, forming one logical line broken only by width.
    soft_wraps: SmolBitmap,
    /// Rows carrying [`RowMark::PromptStart`].
    prompt_starts: SmolBitmap,
    /// Rows carrying [`RowMark::PromptEnd`].
    prompt_ends: SmolBitmap,
}

/// What a frame shows and carries.
#[verifier::ext_equal]
pub struct FrameView {
    /// Number of columns.
    pub width: u16,
    /// The rows, top to bottom.
    pub rows: Seq<Seq<CellView>>,
    /// Decorations in paint order.
    pub decors: Seq<Decor>,
    /// Regions excluded from selection.
    pub noselect: Seq<Rect>,
    /// The hardware cursor.
    pub cursor: Option<(u16, u16)>,
    /// Whether an image cell was ever placed.
    pub images: bool,
    /// Counts changes.
    pub revision: u64,
    /// Rows that wrap onto the next.
    pub soft_wraps: Set<usize>,
    /// Rows that open a prompt zone.
    pub prompt_starts: Set<usize>,
    /// Rows that close a prompt zone.
    pub prompt_ends: Set<usize>,
}

impl View for Frame {
    type V = FrameView;

    closed spec fn view(&self) -> FrameView {
        FrameView {
            width: self.size.width,
            rows: self.rows@.map_values(|row: Row| row@),
            decors: self.decors@,
            noselect: self.noselect@,
            cursor: self.cursor,
            images: self.may_have_images,
            revision: self.revision,
            soft_wraps: set_bits(self.soft_wraps),
            prompt_starts: set_bits(self.prompt_starts),
            prompt_ends: set_bits(self.prompt_ends),
        }
    }
}

/// The change count after one more change.
pub open spec fn next_revision(revision: u64) -> u64 {
    if revision == u64::MAX {
        0
    } else {
        (revision + 1) as u64
    }
}

/// The change count after `changes` more changes, wrapping around.
pub open spec fn later_revision(revision: u64, changes: int) -> u64 {
    if revision + changes > u64::MAX {
        (revision + changes - 0x1_0000_0000_0000_0000) as u64
    } else {
        (revision + changes) as u64
    }
}

/// How many of the first `count` cells show an image.
pub open spec fn image_cells(cells: Seq<CellView>, count: int) -> int
    decreases count,
{
    if count <= 0 {
        0
    } else if cells[count - 1].content is Image {
        image_cells(cells, count - 1) + 1
    } else {
        image_cells(cells, count - 1)
    }
}

/// `members` without those from `low` up to `high`.
pub open spec fn without_range(members: Set<usize>, low: int, high: int) -> Set<usize> {
    members.filter(|index: usize| !(low <= index < high))
}

/// Regions that `area` does not cover.
pub open spec fn outside(rects: Seq<Rect>, area: Rect) -> Seq<Rect> {
    rects.filter(|rect: Rect| !area.covers(rect))
}

/// Decorations that `area` does not cover.
pub open spec fn decors_outside(decors: Seq<Decor>, area: Rect) -> Seq<Decor> {
    decors.filter(|decor: Decor| !area.covers(decor.rect))
}

/// Where a region of a copied band lands.
pub open spec fn moved(rect: Rect, src_top: u16, dst_x: u16, dst_y: u16) -> Rect {
    Rect {
        x: sat_add(rect.x, dst_x),
        y: sat_add(dst_y, sat_sub(rect.y, src_top)),
        width: rect.width,
        height: rect.height,
    }
}

/// Where a decoration of a copied band lands.
pub open spec fn moved_decor(decor: Decor, src_top: u16, dst_x: u16, dst_y: u16) -> Decor {
    Decor { rect: moved(decor.rect, src_top, dst_x, dst_y), kind: decor.kind }
}

/// The part of `rect` inside a grid of the given size.
pub open spec fn inside(rect: Rect, width: u16, height: u16) -> Rect {
    let left = min16(rect.x, width);
    let right = min16(rect.right_edge(), width);
    let top = min16(rect.y, height);
    let bottom = min16(rect.bottom_edge(), height);
    Rect { x: left, y: top, width: sat_sub(right, left), height: sat_sub(bottom, top) }
}

impl FrameView {
    /// Number of rows.
    pub open spec fn height(self) -> int {
        self.rows.len() as int
    }

    /// The grid is rectangular and every row is in agreement.
    pub open spec fn wf(self) -> bool {
        &&& self.rows.len() <= 65535
        &&& forall|y: int|
            0 <= y < self.rows.len() ==> (#[trigger] self.rows[y]).len() == self.width && row_ok(
                self.rows[y],
            )
    }

    /// The frame with one more change counted.
    pub open spec fn touched(self) -> Self {
        FrameView { revision: next_revision(self.revision), ..self }
    }

    /// Rows that carry `mark`.
    pub open spec fn marks(self, mark: RowMark) -> Set<usize> {
        match mark {
            RowMark::PromptStart => self.prompt_starts,
            RowMark::PromptEnd => self.prompt_ends,
        }
    }

    /// Whether row `y` wraps onto the next row.
    pub open spec fn wraps(self, y: int) -> bool {
        y + 1 < self.height() && self.soft_wraps.contains(y as usize)
    }

    /// Whether row `y` carries `mark`.
    pub open spec fn marked(self, y: int, mark: RowMark) -> bool {
        y < self.height() && self.marks(mark).contains(y as usize)
    }

    /// The frame after drawing `text` at `(x, y)` within `width` cells.
    pub open spec fn put_clipped(
        self,
        x: u16,
        y: u16,
        width: u16,
        text: Seq<ClusterView>,
        style: Style,
    ) -> Self {
        if y >= self.height() {
            self
        } else {
            let room = self.room(x, width);
            FrameView {
                rows: self.rows.update(
                    y as int,
                    overwrite(
                        self.rows[y as int],
                        x as int,
                        glyph_run(drawn(text, room, all_ascii(text)), style),
                    ),
                ),
                ..self.touched()
            }
        }
    }

    /// Cells that drawing at column `x` may use.
    pub open spec fn room(self, x: u16, width: u16) -> int {
        sat_sub(min16(sat_add(x, width), self.width), x) as int
    }

    /// The column after drawing `text` at `(x, y)` within `width` cells.
    pub open spec fn end_clipped(self, x: u16, y: u16, width: u16, text: Seq<ClusterView>) -> u16 {
        if y >= self.height() {
            x
        } else {
            (x + drawn_cells(text, self.room(x, width))) as u16
        }
    }

    /// The frame after drawing `text` at `(x, y)`.
    pub open spec fn put(self, x: u16, y: u16, text: Seq<ClusterView>, style: Style) -> Self {
        self.put_clipped(x, y, sat_sub(self.width, x), text, style)
    }

    /// The column after drawing `text` at `(x, y)`.
    pub open spec fn end(self, x: u16, y: u16, text: Seq<ClusterView>) -> u16 {
        self.end_clipped(x, y, sat_sub(self.width, x), text)
    }

    /// The frame after its part of `rect` is blanked.
    pub open spec fn filled(self, rect: Rect, style: Style) -> Self {
        let area = inside(rect, self.width, self.height() as u16);
        if area.width == 0 || area.height == 0 {
            self
        } else {
            let (top, bottom) = (area.y as int, area.y + area.height);
            let whole = area.width == self.width;
            FrameView {
                rows: Seq::new(
                    self.rows.len(),
                    |y: int|
                        if top <= y < bottom {
                            overwrite(
                                self.rows[y],
                                area.x as int,
                                blanks(area.width as nat, style),
                            )
                        } else {
                            self.rows[y]
                        },
                ),
                decors: decors_outside(self.decors, area),
                noselect: outside(self.noselect, area),
                soft_wraps: without_range(self.soft_wraps, top - 1, bottom),
                prompt_starts: if whole {
                    without_range(self.prompt_starts, top, bottom)
                } else {
                    self.prompt_starts
                },
                prompt_ends: if whole {
                    without_range(self.prompt_ends, top, bottom)
                } else {
                    self.prompt_ends
                },
                ..self.touched()
            }
        }
    }

    /// The frame after the cells of `rect` that have no background adopt `color`.
    pub open spec fn underlaid(self, rect: Rect, color: Color) -> Self {
        let area = inside(rect, self.width, self.height() as u16);
        FrameView {
            rows: Seq::new(
                self.rows.len(),
                |y: int|
                    if area.y <= y < area.y + area.height {
                        underlaid(self.rows[y], area.x as int, area.x + area.width, color)
                    } else {
                        self.rows[y]
                    },
            ),
            ..self.touched()
        }
    }

    /// The frame with `height` rows: rows in excess go, missing ones are blank.
    pub open spec fn resized(self, height: u16, style: Style) -> Self {
        if height == self.height() {
            self
        } else {
            FrameView {
                rows: Seq::new(
                    height as nat,
                    |y: int|
                        if y < self.rows.len() {
                            self.rows[y]
                        } else {
                            blanks(self.width as nat, style)
                        },
                ),
                decors: if height < self.height() {
                    self.decors.filter(|decor: Decor| decor.rect.bottom_edge() <= height)
                } else {
                    self.decors
                },
                noselect: if height < self.height() {
                    self.noselect.filter(|rect: Rect| rect.bottom_edge() <= height)
                } else {
                    self.noselect
                },
                soft_wraps: self.soft_wraps.filter(|index: usize| index + 1 < height),
                prompt_starts: self.prompt_starts.filter(|index: usize| index < height),
                prompt_ends: self.prompt_ends.filter(|index: usize| index < height),
                cursor: match self.cursor {
                    Some((_, y)) => if y >= height {
                        None
                    } else {
                        self.cursor
                    },
                    None => None,
                },
                ..self.touched()
            }
        }
    }

    /// Columns that copying `src` to column `dst_x` covers.
    pub open spec fn copied_width(self, src: Self, dst_x: u16) -> int {
        min16(src.width, sat_sub(self.width, dst_x)) as int
    }

    /// Rows that copying `rows` rows of `src` from `src_top` to `dst_y` covers.
    pub open spec fn copied_rows(self, src: Self, src_top: u16, rows: u16, dst_y: u16) -> int {
        let there = if src.height() > src_top {
            src.height() - src_top
        } else {
            0
        };
        let here = if self.height() > dst_y {
            self.height() - dst_y
        } else {
            0
        };
        let fits = if there <= here {
            there
        } else {
            here
        };
        if rows <= fits {
            rows as int
        } else {
            fits
        }
    }

    /// The cursor after such a copy: a cursor of `src` inside the copied band
    /// moves along, else this frame's stays.
    pub open spec fn copied_cursor(
        self,
        src: Self,
        src_top: u16,
        rows: u16,
        dst_x: u16,
        dst_y: u16,
    ) -> Option<(u16, u16)> {
        match src.cursor {
            Some((cx, cy)) => if cx < self.copied_width(src, dst_x) && src_top <= cy < sat_add(
                src_top,
                rows,
            ) && sat_add(dst_y, (cy - src_top) as u16) < self.height() {
                Some((sat_add(dst_x, cx), sat_add(dst_y, (cy - src_top) as u16)))
            } else {
                self.cursor
            },
            None => self.cursor,
        }
    }

    /// The marks after such a copy: every copied row carries its marks along;
    /// a copy over the full width replaces those that were there.
    pub open spec fn copied_marks(
        self,
        src: Self,
        src_top: u16,
        dst_y: u16,
        copied: int,
        full: bool,
        mark: RowMark,
    ) -> Set<usize> {
        let kept = if full {
            without_range(self.marks(mark), dst_y as int, dst_y + copied)
        } else {
            self.marks(mark)
        };
        let carried = Set::new(
            |y: usize| dst_y <= y < dst_y + copied && src.marked(src_top + y - dst_y, mark),
        );
        kept.union(carried)
    }

    /// The wrap flags after such a copy: flags at the copied rows go; a copy
    /// over the full width of both frames brings those between its rows along.
    pub open spec fn copied_wraps(
        self,
        src: Self,
        src_top: u16,
        dst_y: u16,
        copied: int,
        full: bool,
    ) -> Set<usize> {
        let kept = without_range(
            self.soft_wraps,
            dst_y - 1,
            if dst_y + copied <= self.height() {
                dst_y + copied
            } else {
                self.height()
            },
        );
        let carried = Set::new(
            |y: usize|
                full && dst_y <= y && y + 1 < dst_y + copied && src.wraps(src_top + y - dst_y),
        );
        kept.union(carried)
    }

    /// Whether an image is among the copied cells.
    pub open spec fn copies_image(src: Self, src_top: u16, width: int, copied: int) -> bool {
        exists|y: int, x: int|
            src_top <= y < src_top + copied && 0 <= x < width && (
            #[trigger] src.rows[y][x]).content is Image
    }

    /// How many of the first `width` cells of `copied` rows of `src` show an
    /// image.
    pub open spec fn copied_images(src: Self, src_top: u16, width: int, copied: int) -> int
        decreases copied,
    {
        if copied <= 0 {
            0
        } else {
            Self::copied_images(src, src_top, width, copied - 1) + image_cells(
                src.rows[src_top + copied - 1],
                width,
            )
        }
    }

    /// How many of `count` rows of `src` wrap softly.
    pub open spec fn carried_wraps(src: Self, src_top: u16, count: int) -> int
        decreases count,
    {
        if count <= 0 {
            0
        } else if src.wraps(src_top + count - 1) {
            Self::carried_wraps(src, src_top, count - 1) + 1
        } else {
            Self::carried_wraps(src, src_top, count - 1)
        }
    }

    /// How many marks `count` rows of `src` carry.
    pub open spec fn carried_marks(src: Self, src_top: u16, count: int, mark: RowMark) -> int
        decreases count,
    {
        if count <= 0 {
            0
        } else if src.marked(src_top + count - 1, mark) {
            Self::carried_marks(src, src_top, count - 1, mark) + 1
        } else {
            Self::carried_marks(src, src_top, count - 1, mark)
        }
    }

    /// How many changes such a copy makes besides the copy itself: one for each
    /// image cell, wrap flag and mark that comes along.
    pub open spec fn carried_changes(
        src: Self,
        src_top: u16,
        width: int,
        copied: int,
        full: bool,
    ) -> int {
        Self::copied_images(src, src_top, width, copied) + (if full {
            Self::carried_wraps(src, src_top, copied - 1)
        } else {
            0
        }) + Self::carried_marks(src, src_top, copied, RowMark::PromptStart) + Self::carried_marks(
            src,
            src_top,
            copied,
            RowMark::PromptEnd,
        )
    }

    /// The rows after such a copy.
    pub open spec fn copied_cells(
        self,
        src: Self,
        src_top: u16,
        copied: int,
        dst_x: u16,
        dst_y: u16,
        width: int,
    ) -> Seq<Seq<CellView>> {
        Seq::new(
            self.rows.len(),
            |y: int|
                if dst_y <= y < dst_y + copied {
                    overwrite(
                        self.rows[y],
                        dst_x as int,
                        clipped(src.rows[src_top + y - dst_y], width),
                    )
                } else {
                    self.rows[y]
                },
        )
    }

    /// The decorations after such a copy: those in the destination go, those
    /// of the copied band come along.
    pub open spec fn copied_decors(self, src: Self, area: Rect, band: Rect) -> Seq<Decor> {
        decors_outside(self.decors, area) + src.decors.filter(
            |decor: Decor| band.covers(decor.rect),
        ).map_values(|decor: Decor| moved_decor(decor, band.y, area.x, area.y))
    }

    /// The regions excluded from selection after such a copy.
    pub open spec fn copied_noselect(self, src: Self, area: Rect, band: Rect) -> Seq<Rect> {
        outside(self.noselect, area) + src.noselect.filter(
            |rect: Rect| band.covers(rect),
        ).map_values(|rect: Rect| moved(rect, band.y, area.x, area.y))
    }

    /// The frame after `rows` rows of `src` from `src_top` on are copied to
    /// `(dst_x, dst_y)`, clipped to both frames.
    pub open spec fn blitted(
        self,
        src: Self,
        src_top: u16,
        rows: u16,
        dst_x: u16,
        dst_y: u16,
    ) -> Self {
        let width = self.copied_width(src, dst_x);
        let copied = self.copied_rows(src, src_top, rows, dst_y);
        let full = dst_x == 0 && width == self.width && width == src.width;
        let area = Rect { x: dst_x, y: dst_y, width: width as u16, height: copied as u16 };
        let band = Rect { x: 0, y: src_top, width: src.width, height: rows };
        let some = width > 0 && copied > 0;
        FrameView {
            width: self.width,
            rows: if some {
                self.copied_cells(src, src_top, copied, dst_x, dst_y, width)
            } else {
                self.rows
            },
            decors: if some {
                self.copied_decors(src, area, band)
            } else {
                self.decors
            },
            noselect: if some {
                self.copied_noselect(src, area, band)
            } else {
                self.noselect
            },
            cursor: self.copied_cursor(src, src_top, rows, dst_x, dst_y),
            images: self.images || Self::copies_image(src, src_top, width, copied),
            revision: later_revision(
                next_revision(self.revision),
                Self::carried_changes(src, src_top, width, copied, full),
            ),
            soft_wraps: self.copied_wraps(src, src_top, dst_y, copied, full),
            prompt_starts: self.copied_marks(
                src,
                src_top,
                dst_y,
                copied,
                full,
                RowMark::PromptStart,
            ),
            prompt_ends: self.copied_marks(src, src_top, dst_y, copied, full, RowMark::PromptEnd),
        }
    }
}

/// Filtering one more element.
proof fn filter_step<T>(items: Seq<T>, keep: spec_fn(T) -> bool, at: int)
    requires
        0 <= at < items.len(),
    ensures
        items.take(at + 1).filter(keep) == (if keep(items[at]) {
            items.take(at).filter(keep).push(items[at])
        } else {
            items.take(at).filter(keep)
        }),
{
    reveal(Seq::filter);
    assert(items.take(at + 1).drop_last() =~= items.take(at));
    assert(items.take(at + 1).last() == items[at]);
}

/// The regions that `area` does not cover.
fn keep_outside(rects: &Vec<Rect>, area: Rect) -> (kept: Vec<Rect>)
    ensures
        kept@ == outside(rects@, area),
{
    let ghost keep = |rect: Rect| !area.covers(rect);
    let mut kept: Vec<Rect> = Vec::new();
    let mut at: usize = 0;
    assert(rects@.take(0).filter(keep) =~= Seq::<Rect>::empty()) by {
        reveal(Seq::filter);
    }
    while at < rects.len()
        invariant
            at <= rects.len(),
            keep == |rect: Rect| !area.covers(rect),
            kept@ == rects@.take(at as int).filter(keep),
        decreases rects.len() - at,
    {
        proof {
            filter_step(rects@, keep, at as int);
        }
        if !area.contains_rect(rects[at]) {
            kept.push(rects[at]);
        }
        at += 1;
    }
    assert(rects@.take(at as int) =~= rects@);
    kept
}

/// The decorations that `area` does not cover.
fn keep_decors_outside(decors: &Vec<Decor>, area: Rect) -> (kept: Vec<Decor>)
    ensures
        kept@ == decors_outside(decors@, area),
{
    let ghost keep = |decor: Decor| !area.covers(decor.rect);
    let mut kept: Vec<Decor> = Vec::new();
    let mut at: usize = 0;
    assert(decors@.take(0).filter(keep) =~= Seq::<Decor>::empty()) by {
        reveal(Seq::filter);
    }
    while at < decors.len()
        invariant
            at <= decors.len(),
            keep == |decor: Decor| !area.covers(decor.rect),
            kept@ == decors@.take(at as int).filter(keep),
        decreases decors.len() - at,
    {
        proof {
            filter_step(decors@, keep, at as int);
        }
        if !area.contains_rect(decors[at].rect) {
            kept.push(decors[at]);
        }
        at += 1;
    }
    assert(decors@.take(at as int) =~= decors@);
    kept
}

impl Frame {
    /// The grid is rectangular and every row is in agreement.
    pub closed spec fn wf(self) -> bool {
        &&& self@.wf()
        &&& self.size.height == self.rows@.len()
    }

    /// The number that tells this frame's content apart from other frames'.
    pub closed spec fn source(self) -> u64 {
        self.source_id
    }

    /// A well-formed frame shows a well-formed grid.
    pub proof fn wf_shows_grid(self)
        requires
            self.wf(),
        ensures
            self@.wf(),
    {
    }

    /// Creates a blank frame using the terminal's default colors. `source_id` is
    /// the number that tells its content apart from that of other frames.
    pub fn new(size: Size, source_id: u64) -> (frame: Self)
        ensures
            frame.wf(),
            frame@ == blank_frame(size),
            frame.source() == source_id,
    {
        let mut rows: Vec<Row> = Vec::new();
        let style: Style = Style::new();
        let mut y: u16 = 0;
        while y < size.height
            invariant
                y <= size.height,
                style == plain(),
                rows.len() == y,
                forall|i: int|
                    0 <= i < y ==> (#[trigger] rows@[i])@ == blanks(size.width as nat, style)
                        && row_ok(rows@[i]@),
            decreases size.height - y,
        {
            rows.push(Row::blank(size.width, style));
            y += 1;
        }
        let frame = Frame {
            size,
            rows,
            decors: Vec::new(),
            noselect: Vec::new(),
            cursor: None,
            may_have_images: false,
            source_id,
            revision: 0,
            soft_wraps: bits_new(),
            prompt_starts: bits_new(),
            prompt_ends: bits_new(),
        };
        assert(frame@ =~= blank_frame(size));
        frame
    }

    /// The same frame: what it shows, carries and was made from.
    pub fn copy(&self) -> (frame: Self)
        requires
            self.wf(),
        ensures
            frame.wf(),
            frame@ == self@,
            frame.source() == self.source(),
    {
        let mut rows: Vec<Row> = Vec::new();
        let mut y: usize = 0;
        while y < self.rows.len()
            invariant
                y <= self.rows.len(),
                rows.len() == y,
                forall|i: int| 0 <= i < y ==> (#[trigger] rows@[i])@ == self.rows@[i]@,
            decreases self.rows.len() - y,
        {
            rows.push(self.rows[y].copy());
            y += 1;
        }
        let frame = Frame {
            size: self.size,
            rows,
            decors: self.decors.clone(),
            noselect: self.noselect.clone(),
            cursor: self.cursor,
            may_have_images: self.may_have_images,
            source_id: self.source_id,
            revision: self.revision,
            soft_wraps: bits_clone(&self.soft_wraps),
            prompt_starts: bits_clone(&self.prompt_starts),
            prompt_ends: bits_clone(&self.prompt_ends),
        };
        assert(frame@ =~= self@);
        frame
    }

    /// Returns the frame dimensions.
    pub fn size(&self) -> (size: Size)
        requires
            self.wf(),
        ensures
            size.width == self@.width,
            size.height == self@.height(),
    {
        self.size
    }

    /// Counts a change.
    fn touch(&mut self)
        requires
            old(self).wf(),
        ensures
            final(self).wf(),
            final(self)@ == old(self)@.touched(),
            final(self).source() == old(self).source(),
            final(self).size == old(self).size,
            final(self).rows == old(self).rows,
    {
        self.revision = self.revision.wrapping_add(1);
        assert(self@ =~= old(self)@.touched());
    }

    /// The source number and the change count.
    pub fn source_stamp(&self) -> (stamp: (u64, u64))
        ensures
            stamp == (self.source(), self@.revision),
    {
        (self.source_id, self.revision)
    }

    /// Whether an image cell was ever placed.
    pub fn may_have_images(&self) -> (images: bool)
        ensures
            images == self@.images,
    {
        self.may_have_images
    }
}

impl Frame {
    /// Unsets every bit from `low` up to `high`.
    fn clear_bits(bits: &mut SmolBitmap, low: usize, high: usize)
        ensures
            set_bits(*final(bits)) == without_range(
                set_bits(*old(bits)),
                low as int,
                high as int,
            ),
    {
        let ghost before = set_bits(*bits);
        let mut index: usize = low;
        assert(set_bits(*bits) =~= without_range(before, low as int, low as int));
        while index < high
            invariant
                low <= index,
                index <= high || index == low,
                set_bits(*bits) =~= without_range(before, low as int, index as int),
            decreases high - index,
        {
            bits_set(bits, index, false);
            assert(set_bits(*bits) =~= without_range(before, low as int, index + 1));
            index += 1;
        }
        assert(set_bits(*bits) =~= without_range(before, low as int, high as int));
    }

    /// Flags row `y` as soft-wrapping onto row `y + 1`: the pair is one
    /// logical line broken only by the frame width. The renderer joins the
    /// boundary with terminal autowrap so native selection copies it
    /// unbroken.
    ///
    /// The flag is a certification the renderer cannot re-verify: the
    /// caller MUST guarantee the row's source content exactly fills every
    /// column — a written trailing space counts (it is stored as a blank
    /// cell, indistinguishable from padding), layout padding never does.
    /// Painters gate on their recorded row width before flagging.
    ///
    /// Ignored unless both rows exist. Cleared by [`Frame::clear`],
    /// [`Frame::resize_height`] shrinkage, [`Frame::fill`], rewritten by
    /// [`Frame::blit`], and reset by every rebuild — the flag is layout
    /// metadata, not cell content.
    pub fn set_soft_wrap(&mut self, y: u16)
        requires
            old(self).wf(),
        ensures
            final(self).wf(),
            final(self).source() == old(self).source(),
            y + 1 >= old(self)@.height() ==> final(self)@ == old(self)@,
            y + 1 < old(self)@.height() ==> final(self)@ == (FrameView {
                soft_wraps: old(self)@.soft_wraps.insert(y as usize),
                ..old(self)@.touched()
            }),
    {
        if y.saturating_add(1) >= self.size.height {
            return;
        }
        self.touch();
        let ghost before = self@;
        bits_set(&mut self.soft_wraps, y as usize, true);
        assert(self@ =~= (FrameView {
            soft_wraps: before.soft_wraps.insert(y as usize),
            ..before
        }));
    }

    /// Whether row `y` was flagged as soft-wrapping onto row `y + 1`.
    pub fn soft_wrap(&self, y: u16) -> (wraps: bool)
        requires
            self.wf(),
        ensures
            wraps == self@.wraps(y as int),
    {
        y.saturating_add(1) < self.size.height && bits_get(&self.soft_wraps, y as usize)
    }

    /// Marks row `y` with a semantic zone boundary. Rows outside the frame
    /// are ignored. Marks are metadata: they do not change cell content.
    pub fn mark_row(&mut self, y: u16, mark: RowMark)
        requires
            old(self).wf(),
        ensures
            final(self).wf(),
            final(self).source() == old(self).source(),
            y >= old(self)@.height() ==> final(self)@ == old(self)@,
            y < old(self)@.height() ==> final(self)@ == (match mark {
                RowMark::PromptStart => FrameView {
                    prompt_starts: old(self)@.prompt_starts.insert(y as usize),
                    ..old(self)@.touched()
                },
                RowMark::PromptEnd => FrameView {
                    prompt_ends: old(self)@.prompt_ends.insert(y as usize),
                    ..old(self)@.touched()
                },
            }),
    {
        if y >= self.size.height {
            return;
        }
        self.touch();
        let ghost before = self@;
        match mark {
            RowMark::PromptStart => {
                bits_set(&mut self.prompt_starts, y as usize, true);
                assert(self@ =~= (FrameView {
                    prompt_starts: before.prompt_starts.insert(y as usize),
                    ..before
                }));
            },
            RowMark::PromptEnd => {
                bits_set(&mut self.prompt_ends, y as usize, true);
                assert(self@ =~= (FrameView {
                    prompt_ends: before.prompt_ends.insert(y as usize),
                    ..before
                }));
            },
        }
    }

    /// Whether row `y` carries `mark`.
    pub fn row_mark(&self, y: u16, mark: RowMark) -> (marked: bool)
        requires
            self.wf(),
        ensures
            marked == self@.marked(y as int, mark),
    {
        y < self.size.height && match mark {
            RowMark::PromptStart => bits_get(&self.prompt_starts, y as usize),
            RowMark::PromptEnd => bits_get(&self.prompt_ends, y as usize),
        }
    }

    /// Adds a native-decoration primitive for pixel presenters; the terminal
    /// renderer ignores it.
    pub fn push_decor(&mut self, decor: Decor)
        requires
            old(self).wf(),
        ensures
            final(self).wf(),
            final(self).source() == old(self).source(),
            final(self)@ == (FrameView {
                decors: old(self)@.decors.push(decor),
                ..old(self)@.touched()
            }),
    {
        self.touch();
        self.decors.push(decor);
    }

    /// Returns native-decoration primitives for pixel presenters; the terminal
    /// renderer ignores them.
    pub fn decors(&self) -> (decors: &Vec<Decor>)
        ensures
            decors@ == self@.decors,
    {
        &self.decors
    }

    /// Marks a region whose text is excluded from host-driven selection
    /// and copy (status bars, HUD chrome). The terminal renderer ignores
    /// it — a terminal emulator's native selection cannot honor it.
    pub fn push_noselect(&mut self, rect: Rect)
        requires
            old(self).wf(),
        ensures
            final(self).wf(),
            final(self).source() == old(self).source(),
            final(self)@ == (FrameView {
                noselect: old(self)@.noselect.push(rect),
                ..old(self)@.touched()
            }),
    {
        self.touch();
        self.noselect.push(rect);
    }

    /// Regions excluded from host-driven text selection.
    pub fn noselect(&self) -> (regions: &Vec<Rect>)
        ensures
            regions@ == self@.noselect,
    {
        &self.noselect
    }

    /// Whether the cell at `(x, y)` participates in host text selection.
    pub fn selectable(&self, x: u16, y: u16) -> (selectable: bool)
        ensures
            selectable == !(exists|i: int|
                0 <= i < self@.noselect.len() && (#[trigger] self@.noselect[i]).holds(x, y)),
    {
        let mut at: usize = 0;
        while at < self.noselect.len()
            invariant
                at <= self.noselect.len(),
                forall|i: int| 0 <= i < at ==> !(#[trigger] self.noselect@[i]).holds(x, y),
            decreases self.noselect.len() - at,
        {
            let rect: Rect = self.noselect[at];
            if x >= rect.x && x < rect.right() && y >= rect.y && y < rect.bottom() {
                assert(self@.noselect[at as int].holds(x, y));
                return false;
            }
            at += 1;
        }
        true
    }

    /// Places the terminal's hardware cursor at a document cell.
    ///
    /// The renderer hides the cursor when this cell falls outside the live
    /// viewport.
    pub fn set_cursor(&mut self, x: u16, y: u16)
        requires
            old(self).wf(),
        ensures
            final(self).wf(),
            final(self).source() == old(self).source(),
            final(self)@ == (FrameView { cursor: Some((x, y)), ..old(self)@.touched() }),
    {
        self.touch();
        self.cursor = Some((x, y));
    }

    /// Removes the terminal/native hardware cursor from this frame.
    pub fn clear_cursor(&mut self)
        requires
            old(self).wf(),
        ensures
            final(self).wf(),
            final(self).source() == old(self).source(),
            final(self)@ == (FrameView { cursor: None, ..old(self)@.touched() }),
    {
        self.touch();
        self.cursor = None;
    }

    /// The hardware-cursor anchor cell, if the document placed one.
    pub fn cursor(&self) -> (cursor: Option<(u16, u16)>)
        ensures
            cursor == self@.cursor,
    {
        self.cursor
    }

    /// Replaces every cell with a styled blank.
    pub fn clear(&mut self, style: Style)
        requires
            old(self).wf(),
        ensures
            final(self).wf(),
            final(self).source() == old(self).source(),
            final(self)@ == old(self)@.cleared(style),
    {
        let ghost before = self@;
        self.touch();
        let mut rows: Vec<Row> = Vec::new();
        let mut y: usize = 0;
        while y < self.rows.len()
            invariant
                y <= self.rows.len(),
                self.wf(),
                rows.len() == y,
                forall|i: int|
                    0 <= i < y ==> (#[trigger] rows@[i])@ == blanks(
                        self.size.width as nat,
                        style,
                    ) && row_ok(rows@[i]@),
            decreases self.rows.len() - y,
        {
            rows.push(Row::blank(self.size.width, style));
            y += 1;
        }
        self.rows = rows;
        self.cursor = None;
        self.decors = Vec::new();
        self.noselect = Vec::new();
        bits_clear(&mut self.soft_wraps);
        bits_clear(&mut self.prompt_starts);
        bits_clear(&mut self.prompt_ends);
        assert(self@ =~= before.cleared(style));
    }

    /// Fills a clipped rectangle with styled blanks.
    pub fn fill(&mut self, rect: Rect, style: Style)
        requires
            old(self).wf(),
        ensures
            final(self).wf(),
            final(self).source() == old(self).source(),
            final(self)@ == old(self)@.filled(rect, style),
    {
        let ghost before = self@;
        let left: u16 = smaller(rect.x, self.size.width);
        let right: u16 = smaller(rect.right(), self.size.width);
        let top: u16 = smaller(rect.y, self.size.height);
        let bottom: u16 = smaller(rect.bottom(), self.size.height);
        if left >= right || top >= bottom {
            return;
        }
        self.touch();
        let area: Rect = Rect::new(left, top, right - left, bottom - top);
        assert(area == inside(rect, before.width, before.height() as u16));
        self.decors = keep_decors_outside(&self.decors, area);
        self.noselect = keep_outside(&self.noselect, area);
        // Blanking any part of a row invalidates its exact joinability;
        // painters re-flag when they redraw.
        Frame::clear_bits(&mut self.soft_wraps, top.saturating_sub(1) as usize, bottom as usize);
        assert(set_bits(self.soft_wraps) =~= without_range(
            before.soft_wraps,
            top - 1,
            bottom as int,
        ));
        // A full-width blank retires the row's zone marks the same way;
        // a partial blank keeps them, since the marked content survives.
        if left == 0 && right == self.size.width {
            Frame::clear_bits(&mut self.prompt_starts, top as usize, bottom as usize);
            Frame::clear_bits(&mut self.prompt_ends, top as usize, bottom as usize);
        }
        let ghost middle = *self;
        let mut y: u16 = top;
        while y < bottom
            invariant
                top <= y <= bottom <= before.rows.len(),
                left <= right <= before.width,
                before.wf(),
                self.rows.len() == before.rows.len(),
                *self == (Frame { rows: self.rows, ..middle }),
                forall|i: int|
                    0 <= i < before.rows.len() ==> (#[trigger] self.rows@[i])@ == (if top <= i < y {
                        overwrite(
                            before.rows[i],
                            left as int,
                            blanks((right - left) as nat, style),
                        )
                    } else {
                        before.rows[i]
                    }) && row_ok(self.rows@[i]@),
            decreases bottom - y,
        {
            assert(before.rows[y as int].len() == before.width);
            self.rows[y as usize].fill(left, right, style);
            y += 1;
        }
        assert(self@ =~= before.filled(rect, style));
    }

    /// Paints `color` behind a clipped rectangle: cells still on the
    /// terminal's default background adopt it, cells that named their own
    /// keep it. Runs after a subtree paints, so glyph styles — which
    /// replace the whole cell — never punch holes in a container's fill.
    pub fn underlay(&mut self, rect: Rect, color: Color)
        requires
            old(self).wf(),
        ensures
            final(self).wf(),
            final(self).source() == old(self).source(),
            final(self)@ == old(self)@.underlaid(rect, color),
    {
        let ghost before = self@;
        self.touch();
        let left: u16 = smaller(rect.x, self.size.width);
        let right: u16 = smaller(rect.right(), self.size.width);
        let top: u16 = smaller(rect.y, self.size.height);
        let bottom: u16 = smaller(rect.bottom(), self.size.height);
        let ghost middle = *self;
        let mut y: u16 = top;
        while y < bottom
            invariant
                top <= y,
                y <= bottom || y == top,
                bottom <= before.rows.len(),
                right <= before.width,
                before.wf(),
                self.rows.len() == before.rows.len(),
                *self == (Frame { rows: self.rows, ..middle }),
                forall|i: int|
                    0 <= i < before.rows.len() ==> (#[trigger] self.rows@[i])@ == (if top <= i < y {
                        underlaid(before.rows[i], left as int, right as int, color)
                    } else {
                        before.rows[i]
                    }) && row_ok(self.rows@[i]@),
            decreases bottom - y,
        {
            assert(before.rows[y as int].len() == before.width);
            self.rows[y as usize].underlay(left, right, color);
            y += 1;
        }
        proof {
            let goal = before.underlaid(rect, color);
            assert forall|i: int| 0 <= i < before.rows.len() implies self@.rows[i] =~= goal.rows[i] by {
                assert(self@.rows[i] == self.rows@[i]@);
            }
            assert(self@.rows =~= goal.rows);
            assert(self@ =~= goal);
        }
    }

    /// Recolors one cell's foreground in place — the chrome-glow primitive:
    /// composite passes shift color without re-shaping glyphs.
    pub fn recolor_fg<F: FnOnce(Color) -> Color>(&mut self, x: u16, y: u16, recolor: F)
        requires
            old(self).wf(),
            forall|color: Color| recolor.requires((color,)),
        ensures
            final(self).wf(),
            final(self).source() == old(self).source(),
            x >= old(self)@.width || y >= old(self)@.height() ==> final(self)@ == old(self)@,
            x < old(self)@.width && y < old(self)@.height() ==> exists|color: Color|
                recolor.ensures((old(self)@.rows[y as int][x as int].style.foreground,), color)
                    && final(self)@ == #[trigger] old(self)@.recolored(x, y, color),
    {
        if x >= self.size.width || y >= self.size.height {
            return;
        }
        let ghost before = self@;
        self.touch();
        assert(before.rows[y as int].len() == before.width);
        assert(self.rows@[y as int]@ == before.rows[y as int]);
        let current: Color = self.rows[y as usize].cell(x).style.foreground;
        let color: Color = recolor(current);
        self.rows[y as usize].recolor_fg(x, color);
        assert(self@ =~= before.recolored(x, y, color));
    }

    /// Places one typed Kitty image cell.
    pub fn put_image_cell(
        &mut self,
        x: u16,
        y: u16,
        id: u32,
        row: u16,
        col: u16,
        rows: u16,
        cols: u16,
    )
        requires
            old(self).wf(),
        ensures
            final(self).wf(),
            final(self).source() == old(self).source(),
            final(self)@ == old(self)@.with_image(x, y, image_cell(id, row, col, rows, cols)),
    {
        if x >= self.size.width || y >= self.size.height {
            return;
        }
        let ghost before = self@;
        self.touch();
        self.may_have_images = true;
        assert(before.rows[y as int].len() == before.width);
        assert(self.rows@[y as int]@ == before.rows[y as int]);
        self.rows[y as usize].put_image(x, id, row, col, rows, cols);
        assert(self@ =~= before.with_image(x, y, image_cell(id, row, col, rows, cols)));
    }

    /// Draws printable graphemes until a newline or the right frame edge.
    ///
    /// Control characters are ignored. A wide grapheme that would be clipped is
    /// omitted rather than leaving a half-cell artifact.
    pub fn put(&mut self, x: u16, y: u16, text: &Text, style: Style) -> (end: u16)
        requires
            old(self).wf(),
        ensures
            final(self).wf(),
            final(self).source() == old(self).source(),
            final(self)@ == old(self)@.put(x, y, text@, style),
            end == old(self)@.end(x, y, text@),
    {
        let width: u16 = self.size.width.saturating_sub(x);
        self.put_clipped(x, y, width, text, style)
    }

    /// Draws printable graphemes within `width` cells.
    ///
    /// The cell bound is also clipped to the frame edge. A wide grapheme that
    /// crosses either bound is omitted rather than leaving a half-cell artifact.
    pub fn put_clipped(&mut self, x: u16, y: u16, width: u16, text: &Text, style: Style) -> (end:
        u16)
        requires
            old(self).wf(),
        ensures
            final(self).wf(),
            final(self).source() == old(self).source(),
            final(self)@ == old(self)@.put_clipped(x, y, width, text@, style),
            end == old(self)@.end_clipped(x, y, width, text@),
    {
        if y >= self.size.height {
            return x;
        }
        let ghost before = self@;
        self.touch();
        let right: u16 = smaller(x.saturating_add(width), self.size.width);
        let room: u16 = right.saturating_sub(x);
        assert(room == before.room(x, width));
        proof {
            crate::text::drawing_fits(text@, room as int, all_ascii(text@));
        }
        if room == 0 {
            proof {
                let shown = drawn(text@, 0, all_ascii(text@));
                if shown.len() > 0 {
                    assert(shown[0].width >= 1);
                    crate::text::cells_from_the_front(shown);
                }
                assert(shown =~= Seq::<ClusterView>::empty());
                assert(glyph_run(shown, style) =~= Seq::<CellView>::empty());
                crate::row::overwriting_nothing(before.rows[y as int], x as int);
                assert(cells(shown) == 0);
                assert(before.rows.update(y as int, before.rows[y as int]) =~= before.rows);
            }
            return x;
        }
        assert(before.rows[y as int].len() == before.width);
        assert(self.rows@[y as int]@ == before.rows[y as int]);
        let end: u16 = self.rows[y as usize].put(x, room, text, style);
        assert(self@ =~= before.put_clipped(x, y, width, text@, style));
        end
    }

    /// The cell at (`x`, `y`), which lies inside the frame.
    pub fn cell(&self, x: u16, y: u16) -> (cell: &Cell)
        requires
            self.wf(),
            x < self@.width,
            y < self@.height(),
        ensures
            cell@ == self@.rows[y as int][x as int],
    {
        assert(self@.rows[y as int].len() == self@.width);
        assert(self.rows@[y as int]@ == self@.rows[y as int]);
        self.rows[y as usize].cell(x)
    }

    /// The cell in row `row` and column `column`, or `blank` outside the frame.
    pub fn cell_or<'a>(&'a self, row: u16, column: u16, blank: &'a Cell) -> (cell: &'a Cell)
        requires
            self.wf(),
        ensures
            cell@ == (if row < self@.height() && column < self@.width {
                self@.rows[row as int][column as int]
            } else {
                blank@
            }),
    {
        if row >= self.size.height || column >= self.size.width {
            blank
        } else {
            self.cell(column, row)
        }
    }
}

impl FrameView {
    /// The frame with nothing on it but blanks.
    pub open spec fn cleared(self, style: Style) -> Self {
        FrameView {
            rows: Seq::new(self.rows.len(), |y: int| blanks(self.width as nat, style)),
            decors: Seq::empty(),
            noselect: Seq::empty(),
            cursor: None,
            soft_wraps: Set::empty(),
            prompt_starts: Set::empty(),
            prompt_ends: Set::empty(),
            ..self.touched()
        }
    }

    /// The frame after one cell takes a new foreground.
    pub open spec fn recolored(self, x: u16, y: u16, color: Color) -> Self {
        let row = self.rows[y as int];
        let cell = row[x as int];
        FrameView {
            rows: self.rows.update(
                y as int,
                row.update(
                    x as int,
                    CellView {
                        content: cell.content,
                        style: Style { foreground: color, ..cell.style },
                    },
                ),
            ),
            ..self.touched()
        }
    }

    /// The frame after an image cell is placed.
    pub open spec fn with_image(self, x: u16, y: u16, cell: CellView) -> Self {
        if x >= self.width || y >= self.height() {
            self
        } else {
            FrameView {
                rows: self.rows.update(
                    y as int,
                    overwrite(self.rows[y as int], x as int, seq![cell]),
                ),
                images: true,
                ..self.touched()
            }
        }
    }
}

impl FrameView {
    /// The frame after the glyphs of `rect` that have no background adopt the
    /// colors of a ramp, one list of colors for each row of the clipped region.
    pub open spec fn ramp_underlaid(self, rect: Rect, colors: Seq<Seq<Color>>) -> Self {
        let area = inside(rect, self.width, self.height() as u16);
        FrameView {
            rows: Seq::new(
                self.rows.len(),
                |y: int|
                    if area.y <= y < area.y + area.height {
                        ramp_underlaid(
                            self.rows[y],
                            area.x as int,
                            area.x + area.width,
                            colors[y - area.y],
                        )
                    } else {
                        self.rows[y]
                    },
            ),
            ..self.touched()
        }
    }

    /// The frame after the visible glyphs of `rect` that have no foreground
    /// adopt the colors of a ramp.
    pub open spec fn ramp_inked(self, rect: Rect, colors: Seq<Seq<Color>>) -> Self {
        let area = inside(rect, self.width, self.height() as u16);
        FrameView {
            rows: Seq::new(
                self.rows.len(),
                |y: int|
                    if area.y <= y < area.y + area.height {
                        ramp_inked(
                            self.rows[y],
                            area.x as int,
                            area.x + area.width,
                            colors[y - area.y],
                        )
                    } else {
                        self.rows[y]
                    },
            ),
            ..self.touched()
        }
    }

    /// Whether two frames show the same grid, cursor and row metadata.
    pub open spec fn same_grid(self, other: Self) -> bool {
        &&& self.width == other.width
        &&& self.rows == other.rows
        &&& self.cursor == other.cursor
        &&& self.soft_wraps == other.soft_wraps
        &&& self.prompt_starts == other.prompt_starts
        &&& self.prompt_ends == other.prompt_ends
    }

    /// Whether row `row` looks like row `other_row` of `other` and carries the
    /// same metadata.
    pub open spec fn same_row(self, row: int, other: Self, other_row: int) -> bool {
        &&& self.width == other.width
        &&& row < self.height()
        &&& other_row < other.height()
        &&& self.rows[row] == other.rows[other_row]
        &&& self.wraps(row) == other.wraps(other_row)
        &&& self.marked(row, RowMark::PromptStart) == other.marked(other_row, RowMark::PromptStart)
        &&& self.marked(row, RowMark::PromptEnd) == other.marked(other_row, RowMark::PromptEnd)
    }

    /// The frame after row `row` is copied from a frame of the same width.
    pub open spec fn with_row_of(self, src: Self, row: u16) -> Self {
        if row >= self.height() || row >= src.height() || self.width != src.width {
            self
        } else {
            FrameView {
                rows: self.rows.update(row as int, src.rows[row as int]),
                images: self.images || src.images,
                ..self.touched()
            }
        }
    }

    /// The frame after its row metadata is replaced by that of `src`.
    pub open spec fn with_metadata_of(self, src: Self) -> Self {
        let wrapped = if self.soft_wraps == src.soft_wraps {
            self
        } else {
            FrameView { soft_wraps: src.soft_wraps, ..self.touched() }
        };
        if self.prompt_starts == src.prompt_starts && self.prompt_ends == src.prompt_ends {
            wrapped
        } else {
            FrameView {
                prompt_starts: src.prompt_starts,
                prompt_ends: src.prompt_ends,
                ..wrapped.touched()
            }
        }
    }
}

/// The views of a list of color lists.
pub open spec fn color_rows(colors: Seq<Vec<Color>>) -> Seq<Seq<Color>> {
    colors.map_values(|row: Vec<Color>| row@)
}

/// Whether `colors` has one color for each cell of the clipped region.
pub open spec fn ramp_covers(area: Rect, colors: Seq<Seq<Color>>) -> bool {
    &&& colors.len() >= area.height
    &&& forall|y: int| 0 <= y < area.height ==> (#[trigger] colors[y]).len() >= area.width
}

impl Frame {
    /// Changes the document height, preserving retained rows and filling growth
    /// with styled blanks.
    pub fn resize_height(&mut self, height: u16, style: Style)
        requires
            old(self).wf(),
        ensures
            final(self).wf(),
            final(self).source() == old(self).source(),
            final(self)@ == old(self)@.resized(height, style),
    {
        if height == self.size.height {
            return;
        }
        let ghost before = self@;
        self.touch();
        if height < self.size.height {
            self.rows.truncate(height as usize);
            self.decors = Frame::keep_decors_above(&self.decors, height);
            self.noselect = Frame::keep_above(&self.noselect, height);
        }
        let ghost middle = *self;
        assert forall|i: int| 0 <= i < self.rows.len() implies (#[trigger] self.rows@[i])@
            == before.rows[i] && row_ok(before.rows[i]) by {
            assert(before.rows[i].len() == before.width);
        }
        while self.rows.len() < height as usize
            invariant
                *self == (Frame { rows: self.rows, ..middle }),
                self.size.width == before.width,
                self.rows.len() <= height,
                self.rows.len() < height ==> self.rows.len() >= before.rows.len(),
                before.wf(),
                forall|i: int|
                    0 <= i < self.rows.len() ==> (#[trigger] self.rows@[i])@ == (if i
                        < before.rows.len() {
                        before.rows[i]
                    } else {
                        blanks(before.width as nat, style)
                    }) && row_ok(self.rows@[i]@),
            decreases height - self.rows.len(),
        {
            let width: u16 = self.size.width;
            self.rows.push(Row::blank(width, style));
        }
        // Boundary flags at and beyond the new final row are meaningless;
        // drop them so a later regrowth cannot resurrect stale joins.
        bits_retain_below(&mut self.soft_wraps, height.saturating_sub(1) as usize);
        bits_retain_below(&mut self.prompt_starts, height as usize);
        bits_retain_below(&mut self.prompt_ends, height as usize);
        self.size = Size::new(self.size.width, height);
        match self.cursor {
            Some((_, y)) => {
                if y >= height {
                    self.cursor = None;
                }
            },
            None => {},
        }
        proof {
            let goal = before.resized(height, style);
            assert(self@.soft_wraps =~= goal.soft_wraps);
            assert(self@.prompt_starts =~= goal.prompt_starts);
            assert(self@.prompt_ends =~= goal.prompt_ends);
            assert(self@.rows =~= goal.rows);
            assert(self@ =~= goal);
        }
    }

    /// The regions that end at or above row `height`.
    fn keep_above(rects: &Vec<Rect>, height: u16) -> (kept: Vec<Rect>)
        ensures
            kept@ == rects@.filter(|rect: Rect| rect.bottom_edge() <= height),
    {
        let ghost keep = |rect: Rect| rect.bottom_edge() <= height;
        let mut kept: Vec<Rect> = Vec::new();
        let mut at: usize = 0;
        assert(rects@.take(0).filter(keep) =~= Seq::<Rect>::empty()) by {
            reveal(Seq::filter);
        }
        while at < rects.len()
            invariant
                at <= rects.len(),
                keep == |rect: Rect| rect.bottom_edge() <= height,
                kept@ == rects@.take(at as int).filter(keep),
            decreases rects.len() - at,
        {
            proof {
                filter_step(rects@, keep, at as int);
            }
            if rects[at].bottom() <= height {
                kept.push(rects[at]);
            }
            at += 1;
        }
        assert(rects@.take(at as int) =~= rects@);
        kept
    }

    /// The decorations that end at or above row `height`.
    fn keep_decors_above(decors: &Vec<Decor>, height: u16) -> (kept: Vec<Decor>)
        ensures
            kept@ == decors@.filter(|decor: Decor| decor.rect.bottom_edge() <= height),
    {
        let ghost keep = |decor: Decor| decor.rect.bottom_edge() <= height;
        let mut kept: Vec<Decor> = Vec::new();
        let mut at: usize = 0;
        assert(decors@.take(0).filter(keep) =~= Seq::<Decor>::empty()) by {
            reveal(Seq::filter);
        }
        while at < decors.len()
            invariant
                at <= decors.len(),
                keep == |decor: Decor| decor.rect.bottom_edge() <= height,
                kept@ == decors@.take(at as int).filter(keep),
            decreases decors.len() - at,
        {
            proof {
                filter_step(decors@, keep, at as int);
            }
            if decors[at].rect.bottom() <= height {
                kept.push(decors[at]);
            }
            at += 1;
        }
        assert(decors@.take(at as int) =~= decors@);
        kept
    }

    /// Paints a gradient behind cells that did not name their own background;
    /// `colors` holds the ramp's color for every cell of the clipped region.
    pub fn underlay_gradient(&mut self, rect: Rect, colors: &Vec<Vec<Color>>)
        requires
            old(self).wf(),
            ramp_covers(
                inside(rect, old(self)@.width, old(self)@.height() as u16),
                color_rows(colors@),
            ),
        ensures
            final(self).wf(),
            final(self).source() == old(self).source(),
            final(self)@ == old(self)@.ramp_underlaid(rect, color_rows(colors@)),
    {
        let ghost before = self@;
        self.touch();
        let left: u16 = smaller(rect.x, self.size.width);
        let right: u16 = smaller(rect.right(), self.size.width);
        let top: u16 = smaller(rect.y, self.size.height);
        let bottom: u16 = smaller(rect.bottom(), self.size.height);
        let ghost area = inside(rect, before.width, before.height() as u16);
        let ghost ramp = color_rows(colors@);
        let ghost middle = *self;
        let mut y: u16 = top;
        while y < bottom
            invariant
                top <= y,
                y <= bottom || y == top,
                bottom <= before.rows.len(),
                right <= before.width,
                left <= before.width,
                before.wf(),
                area.y == top,
                area.height == sat_sub(bottom, top),
                area.width == sat_sub(right, left),
                ramp == color_rows(colors@),
                ramp_covers(area, ramp),
                self.rows.len() == before.rows.len(),
                *self == (Frame { rows: self.rows, ..middle }),
                forall|i: int|
                    0 <= i < before.rows.len() ==> (#[trigger] self.rows@[i])@ == (if top <= i < y {
                        ramp_underlaid(before.rows[i], left as int, right as int, ramp[i - top])
                    } else {
                        before.rows[i]
                    }) && row_ok(self.rows@[i]@),
            decreases bottom - y,
        {
            assert(before.rows[y as int].len() == before.width);
            assert(ramp[y - top] == colors@[y - top]@);
            self.rows[y as usize].underlay_ramp(left, right, &colors[(y - top) as usize]);
            y += 1;
        }
        proof {
            let goal = before.ramp_underlaid(rect, ramp);
            assert forall|i: int| 0 <= i < before.rows.len() implies self@.rows[i] =~= goal.rows[i] by {
                assert(self@.rows[i] == self.rows@[i]@);
                if top <= i < bottom && left > right {
                    assert(goal.rows[i] =~= before.rows[i]) by {
                        assert forall|x: int| 0 <= x < before.rows[i].len() implies goal.rows[i][x]
                            == before.rows[i][x] by {
                            crate::row::head_facts(before.rows[i], x);
                        }
                    }
                    assert(self@.rows[i] =~= before.rows[i]) by {
                        assert forall|x: int| 0 <= x < before.rows[i].len() implies self@.rows[i][x]
                            == before.rows[i][x] by {
                            crate::row::head_facts(before.rows[i], x);
                        }
                    }
                }
            }
            assert(self@.rows =~= goal.rows);
            assert(self@ =~= goal);
        }
    }

    /// Tints visible glyphs that inherit their foreground from this node;
    /// `colors` holds the ramp's color for every cell of the clipped region.
    pub fn gradient_foreground(&mut self, rect: Rect, colors: &Vec<Vec<Color>>)
        requires
            old(self).wf(),
            ramp_covers(
                inside(rect, old(self)@.width, old(self)@.height() as u16),
                color_rows(colors@),
            ),
        ensures
            final(self).wf(),
            final(self).source() == old(self).source(),
            final(self)@ == old(self)@.ramp_inked(rect, color_rows(colors@)),
    {
        let ghost before = self@;
        self.touch();
        let left: u16 = smaller(rect.x, self.size.width);
        let right: u16 = smaller(rect.right(), self.size.width);
        let top: u16 = smaller(rect.y, self.size.height);
        let bottom: u16 = smaller(rect.bottom(), self.size.height);
        let ghost area = inside(rect, before.width, before.height() as u16);
        let ghost ramp = color_rows(colors@);
        let ghost middle = *self;
        let mut y: u16 = top;
        while y < bottom
            invariant
                top <= y,
                y <= bottom || y == top,
                bottom <= before.rows.len(),
                right <= before.width,
                left <= before.width,
                before.wf(),
                area.y == top,
                area.height == sat_sub(bottom, top),
                area.width == sat_sub(right, left),
                ramp == color_rows(colors@),
                ramp_covers(area, ramp),
                self.rows.len() == before.rows.len(),
                *self == (Frame { rows: self.rows, ..middle }),
                forall|i: int|
                    0 <= i < before.rows.len() ==> (#[trigger] self.rows@[i])@ == (if top <= i < y {
                        ramp_inked(before.rows[i], left as int, right as int, ramp[i - top])
                    } else {
                        before.rows[i]
                    }) && row_ok(self.rows@[i]@),
            decreases bottom - y,
        {
            assert(before.rows[y as int].len() == before.width);
            assert(ramp[y - top] == colors@[y - top]@);
            self.rows[y as usize].ink_ramp(left, right, &colors[(y - top) as usize]);
            y += 1;
        }
        proof {
            let goal = before.ramp_inked(rect, ramp);
            assert forall|i: int| 0 <= i < before.rows.len() implies self@.rows[i] =~= goal.rows[i] by {
                assert(self@.rows[i] == self.rows@[i]@);
                if top <= i < bottom && left > right {
                    assert(goal.rows[i] =~= before.rows[i]) by {
                        assert forall|x: int| 0 <= x < before.rows[i].len() implies goal.rows[i][x]
                            == before.rows[i][x] by {
                            crate::row::head_facts(before.rows[i], x);
                        }
                    }
                    assert(self@.rows[i] =~= before.rows[i]) by {
                        assert forall|x: int| 0 <= x < before.rows[i].len() implies self@.rows[i][x]
                            == before.rows[i][x] by {
                            crate::row::head_facts(before.rows[i], x);
                        }
                    }
                }
            }
            assert(self@.rows =~= goal.rows);
            assert(self@ =~= goal);
        }
    }

    /// Whether two frames show the same grid, cursor and row metadata.
    pub fn same_grid(&self, other: &Self) -> (same: bool)
        requires
            self.wf(),
            other.wf(),
        ensures
            same == self@.same_grid(other@),
    {
        assert(self@.rows.len() == self.rows@.len() && other@.rows.len() == other.rows@.len());
        if self.size != other.size {
            return false;
        }
        let cursors: bool = match (self.cursor, other.cursor) {
            (Some((ax, ay)), Some((bx, by))) => ax == bx && ay == by,
            (None, None) => true,
            _ => false,
        };
        if !cursors || !bits_eq(&self.soft_wraps, &other.soft_wraps) || !bits_eq(
            &self.prompt_starts,
            &other.prompt_starts,
        ) || !bits_eq(&self.prompt_ends, &other.prompt_ends) {
            return false;
        }
        let mut y: usize = 0;
        while y < self.rows.len()
            invariant
                y <= self.rows.len(),
                self.rows.len() == other.rows.len(),
                forall|i: int| 0 <= i < y ==> (#[trigger] self.rows@[i])@ == other.rows@[i]@,
            decreases self.rows.len() - y,
        {
            if !self.rows[y].same(&other.rows[y]) {
                assert(self@.rows[y as int] != other@.rows[y as int]);
                return false;
            }
            y += 1;
        }
        assert(self@.rows =~= other@.rows);
        true
    }

    /// Whether a row looks like a row of another frame and carries the same
    /// metadata.
    pub fn row_equals(&self, row: u16, other: &Self, other_row: u16) -> (same: bool)
        requires
            self.wf(),
            other.wf(),
        ensures
            same == self@.same_row(row as int, other@, other_row as int),
    {
        if self.size.width != other.size.width || row >= self.size.height || other_row
            >= other.size.height {
            return false;
        }
        assert(self@.rows[row as int] == self.rows@[row as int]@);
        assert(other@.rows[other_row as int] == other.rows@[other_row as int]@);
        self.rows[row as usize].same(&other.rows[other_row as usize]) && self.soft_wrap(row)
            == other.soft_wrap(other_row) && self.row_mark(row, RowMark::PromptStart)
            == other.row_mark(other_row, RowMark::PromptStart) && self.row_mark(
            row,
            RowMark::PromptEnd,
        ) == other.row_mark(other_row, RowMark::PromptEnd)
    }

    /// Copies one row's cells from `src` (same width required). The
    /// damage-snapshot primitive: presenters copy only rows a caller
    /// reported dirty instead of cloning the whole grid.
    pub fn copy_row_from(&mut self, src: &Self, row: u16)
        requires
            old(self).wf(),
            src.wf(),
        ensures
            final(self).wf(),
            final(self).source() == old(self).source(),
            final(self)@ == old(self)@.with_row_of(src@, row),
    {
        if row >= self.size.height || row >= src.size.height || self.size.width != src.size.width {
            return;
        }
        let ghost before = self@;
        self.touch();
        assert(src@.rows[row as int] == src.rows@[row as int]@);
        let copy: Row = src.rows[row as usize].copy();
        self.rows.set(row as usize, copy);
        self.may_have_images = self.may_have_images || src.may_have_images;
        assert(self@ =~= before.with_row_of(src@, row));
    }

    /// Mirrors `src`'s soft-wrap boundary flags wholesale — the snapshot
    /// primitive for damage-based presenters: flags are layout metadata
    /// that can change on rows no cell damage covers.
    pub fn sync_soft_wraps(&mut self, src: &Self)
        requires
            old(self).wf(),
        ensures
            final(self).wf(),
            final(self).source() == old(self).source(),
            final(self)@ == old(self)@.with_metadata_of(src@),
    {
        if !bits_eq(&self.soft_wraps, &src.soft_wraps) {
            self.touch();
            self.soft_wraps = bits_clone(&src.soft_wraps);
        }
        if !bits_eq(&self.prompt_starts, &src.prompt_starts) || !bits_eq(
            &self.prompt_ends,
            &src.prompt_ends,
        ) {
            self.touch();
            self.prompt_starts = bits_clone(&src.prompt_starts);
            self.prompt_ends = bits_clone(&src.prompt_ends);
        }
        assert(self@ =~= old(self)@.with_metadata_of(src@));
    }
}

impl Frame {
    /// The regions of a copied band, where they land.
    fn moved_rects(rects: &Vec<Rect>, band: Rect, src_top: u16, dst_x: u16, dst_y: u16) -> (landed:
        Vec<Rect>)
        ensures
            landed@ == rects@.filter(|rect: Rect| band.covers(rect)).map_values(
                |rect: Rect| moved(rect, src_top, dst_x, dst_y),
            ),
    {
        let ghost keep = |rect: Rect| band.covers(rect);
        let ghost shift = |rect: Rect| moved(rect, src_top, dst_x, dst_y);
        let mut landed: Vec<Rect> = Vec::new();
        let mut at: usize = 0;
        assert(rects@.take(0).filter(keep) =~= Seq::<Rect>::empty()) by {
            reveal(Seq::filter);
        }
        while at < rects.len()
            invariant
                at <= rects.len(),
                keep == |rect: Rect| band.covers(rect),
                shift == |rect: Rect| moved(rect, src_top, dst_x, dst_y),
                landed@ =~= rects@.take(at as int).filter(keep).map_values(shift),
            decreases rects.len() - at,
        {
            proof {
                filter_step(rects@, keep, at as int);
            }
            let rect: Rect = rects[at];
            if band.contains_rect(rect) {
                landed.push(
                    Rect::new(
                        rect.x.saturating_add(dst_x),
                        dst_y.saturating_add(rect.y.saturating_sub(src_top)),
                        rect.width,
                        rect.height,
                    ),
                );
            }
            at += 1;
        }
        assert(rects@.take(at as int) =~= rects@);
        landed
    }

    /// The decorations of a copied band, where they land.
    fn moved_decors(decors: &Vec<Decor>, band: Rect, src_top: u16, dst_x: u16, dst_y: u16) -> (landed:
        Vec<Decor>)
        ensures
            landed@ == decors@.filter(|decor: Decor| band.covers(decor.rect)).map_values(
                |decor: Decor| moved_decor(decor, src_top, dst_x, dst_y),
            ),
    {
        let ghost keep = |decor: Decor| band.covers(decor.rect);
        let ghost shift = |decor: Decor| moved_decor(decor, src_top, dst_x, dst_y);
        let mut landed: Vec<Decor> = Vec::new();
        let mut at: usize = 0;
        assert(decors@.take(0).filter(keep) =~= Seq::<Decor>::empty()) by {
            reveal(Seq::filter);
        }
        while at < decors.len()
            invariant
                at <= decors.len(),
                keep == |decor: Decor| band.covers(decor.rect),
                shift == |decor: Decor| moved_decor(decor, src_top, dst_x, dst_y),
                landed@ =~= decors@.take(at as int).filter(keep).map_values(shift),
            decreases decors.len() - at,
        {
            proof {
                filter_step(decors@, keep, at as int);
            }
            let decor: Decor = decors[at];
            if band.contains_rect(decor.rect) {
                let rect: Rect = Rect::new(
                    decor.rect.x.saturating_add(dst_x),
                    dst_y.saturating_add(decor.rect.y.saturating_sub(src_top)),
                    decor.rect.width,
                    decor.rect.height,
                );
                landed.push(Decor { rect, kind: decor.kind });
            }
            at += 1;
        }
        assert(decors@.take(at as int) =~= decors@);
        landed
    }

    /// Carries the marks of copied rows along.
    fn carry_marks(
        bits: &mut SmolBitmap,
        src: &Frame,
        src_top: u16,
        dst_y: u16,
        copied: u16,
        full: bool,
        mark: RowMark,
    )
        requires
            src.wf(),
            src_top + copied <= src@.height(),
            dst_y + copied <= 65535,
        ensures
            set_bits(*final(bits)) == ({
                let kept = if full {
                    without_range(set_bits(*old(bits)), dst_y as int, dst_y + copied)
                } else {
                    set_bits(*old(bits))
                };
                kept.union(
                    Set::new(
                        |y: usize|
                            dst_y <= y < dst_y + copied && src@.marked(
                                src_top + y - dst_y,
                                mark,
                            ),
                    ),
                )
            }),
    {
        let ghost before = set_bits(*bits);
        if full {
            Frame::clear_bits(bits, dst_y as usize, (dst_y + copied) as usize);
        }
        let ghost kept = set_bits(*bits);
        let mut offset: u16 = 0;
        while offset < copied
            invariant
                offset <= copied,
                src.wf(),
                src_top + copied <= src@.height(),
                src@.height() <= 65535,
                dst_y + copied <= 65535,
                set_bits(*bits) =~= kept.union(
                    Set::new(
                        |y: usize|
                            dst_y <= y < dst_y + offset && src@.marked(
                                src_top + y - dst_y,
                                mark,
                            ),
                    ),
                ),
            decreases copied - offset,
        {
            if src.row_mark(src_top + offset, mark) {
                bits_set(bits, (dst_y + offset) as usize, true);
            }
            offset += 1;
        }
    }

    /// Copies the cells of `copied` rows.
    fn blit_cells(
        &mut self,
        src: &Self,
        src_top: u16,
        copied: u16,
        dst_x: u16,
        dst_y: u16,
        width: u16,
    )
        requires
            old(self).wf(),
            src.wf(),
            0 < width <= src@.width,
            dst_x + width <= old(self)@.width,
            src_top + copied <= src@.height(),
            dst_y + copied <= old(self)@.height(),
        ensures
            final(self).wf(),
            final(self).source() == old(self).source(),
            final(self)@ == (FrameView {
                rows: old(self)@.copied_cells(src@, src_top, copied as int, dst_x, dst_y, width as int),
                images: old(self)@.images || FrameView::copies_image(
                    src@,
                    src_top,
                    width as int,
                    copied as int,
                ),
                ..old(self)@
            }),
    {
        let ghost before = self@;
        let ghost middle = *self;
        assert(before.rows.len() == self.rows@.len());
        assert(src@.rows.len() == src.rows@.len());
        assert forall|i: int| 0 <= i < self.rows.len() implies (#[trigger] self.rows@[i])@
            == before.rows[i] && row_ok(before.rows[i]) by {
            assert(before.rows[i].len() == before.width);
        }
        let mut images: bool = self.may_have_images;
        let mut row: u16 = 0;
        while row < copied
            invariant
                row <= copied,
                0 < width <= src@.width,
                dst_x + width <= before.width,
                src_top + copied <= src@.height(),
                dst_y + copied <= before.height(),
                before.wf(),
                src.wf(),
                src@.rows.len() == src.rows@.len(),
                src@.rows.len() <= 65535,
                self.rows.len() == before.rows.len(),
                *self == (Frame { rows: self.rows, ..middle }),
                images == (before.images || FrameView::copies_image(
                    src@,
                    src_top,
                    width as int,
                    row as int,
                )),
                forall|i: int|
                    0 <= i < before.rows.len() ==> (#[trigger] self.rows@[i])@ == (if dst_y <= i
                        < dst_y + row {
                        overwrite(
                            before.rows[i],
                            dst_x as int,
                            clipped(src@.rows[src_top + i - dst_y], width as int),
                        )
                    } else {
                        before.rows[i]
                    }) && row_ok(self.rows@[i]@),
            decreases copied - row,
        {
            let from_y: u16 = src_top + row;
            let to_y: u16 = dst_y + row;
            assert(before.rows[to_y as int].len() == before.width);
            assert(src@.rows[from_y as int].len() == src@.width);
            assert(src@.rows[from_y as int] == src.rows@[from_y as int]@);
            let found: bool = self.rows[to_y as usize].blit(
                dst_x,
                &src.rows[from_y as usize],
                width,
            );
            proof {
                let earlier = FrameView::copies_image(src@, src_top, width as int, row as int);
                let later = FrameView::copies_image(src@, src_top, width as int, row + 1);
                if found {
                    let x = choose|i: int|
                        0 <= i < width && (#[trigger] src@.rows[from_y as int][i]).content is Image;
                    assert(src@.rows[from_y as int][x].content is Image);
                    assert(later);
                }
                if earlier {
                    assert(later);
                }
                if later && !earlier {
                    assert(found);
                }
            }
            images = images || found;
            row += 1;
        }
        self.may_have_images = images;
        assert(self@.rows =~= before.copied_cells(
            src@,
            src_top,
            copied as int,
            dst_x,
            dst_y,
            width as int,
        ));
    }

    /// Copies the decorations and selection regions of a band.
    fn blit_regions(&mut self, src: &Self, destination: Rect, band: Rect)
        requires
            old(self).wf(),
        ensures
            final(self).wf(),
            final(self).source() == old(self).source(),
            final(self)@ == (FrameView {
                decors: old(self)@.copied_decors(src@, destination, band),
                noselect: old(self)@.copied_noselect(src@, destination, band),
                ..old(self)@
            }),
    {
        let (src_top, dst_x, dst_y): (u16, u16, u16) = (band.y, destination.x, destination.y);
        let mut kept: Vec<Decor> = keep_decors_outside(&self.decors, destination);
        let mut landed: Vec<Decor> = Frame::moved_decors(&src.decors, band, src_top, dst_x, dst_y);
        kept.append(&mut landed);
        let mut kept_rects: Vec<Rect> = keep_outside(&self.noselect, destination);
        let mut landed_rects: Vec<Rect> = Frame::moved_rects(
            &src.noselect,
            band,
            src_top,
            dst_x,
            dst_y,
        );
        kept_rects.append(&mut landed_rects);
        self.decors = kept;
        self.noselect = kept_rects;
        assert(self@.decors =~= old(self)@.copied_decors(src@, destination, band));
        assert(self@.noselect =~= old(self)@.copied_noselect(src@, destination, band));
    }

    /// Hardens the wrap boundaries of the rewritten rows, and carries those
    /// between the copied rows along when whole rows were copied.
    fn blit_wraps(&mut self, src: &Self, src_top: u16, dst_y: u16, copied: u16, full: bool)
        requires
            old(self).wf(),
            src.wf(),
            copied > 0 ==> src_top + copied <= src@.height() && dst_y + copied <= old(
                self,
            )@.height(),
        ensures
            final(self).wf(),
            final(self).source() == old(self).source(),
            final(self)@ == (FrameView {
                soft_wraps: old(self)@.copied_wraps(src@, src_top, dst_y, copied as int, full),
                ..old(self)@
            }),
    {
        let ghost before = self@;
        let bottom: u16 = smaller(dst_y.saturating_add(copied), self.size.height);
        Frame::clear_bits(&mut self.soft_wraps, dst_y.saturating_sub(1) as usize, bottom as usize);
        let ghost kept = set_bits(self.soft_wraps);
        assert(kept =~= without_range(
            before.soft_wraps,
            dst_y - 1,
            if dst_y + copied <= before.height() {
                dst_y + copied
            } else {
                before.height()
            },
        ));
        let ghost hardened = *self;
        if full && copied > 0 {
            let mut offset: u16 = 0;
            while offset < copied - 1
                invariant
                    0 < copied,
                    offset < copied,
                    src.wf(),
                    src_top + copied <= src@.height() <= 65535,
                    dst_y + copied <= before.height() <= 65535,
                    *self == (Frame { soft_wraps: self.soft_wraps, ..hardened }),
                    set_bits(self.soft_wraps) =~= kept.union(
                        Set::new(
                            |y: usize|
                                dst_y <= y < dst_y + offset && y + 1 < dst_y + copied && src@.wraps(
                                    src_top + y - dst_y,
                                ),
                        ),
                    ),
                decreases copied - offset,
            {
                if src.soft_wrap(src_top + offset) {
                    bits_set(&mut self.soft_wraps, (dst_y + offset) as usize, true);
                }
                offset += 1;
            }
        }
        assert(set_bits(self.soft_wraps) =~= before.copied_wraps(
            src@,
            src_top,
            dst_y,
            copied as int,
            full,
        ));
    }

    /// Counts the image cells, wrap flags and marks that a copy brings along.
    fn count_changes(src: &Self, src_top: u16, width: u16, copied: u16, full: bool) -> (count: u64)
        requires
            src.wf(),
            width <= src@.width,
            copied > 0 ==> src_top + copied <= src@.height(),
        ensures
            count == FrameView::carried_changes(
                src@,
                src_top,
                width as int,
                copied as int,
                full,
            ),
    {
        let ghost view = src@;
        let mut images: u64 = 0;
        let mut wraps: u64 = 0;
        let mut starts: u64 = 0;
        let mut ends: u64 = 0;
        let mut row: u16 = 0;
        while row < copied
            invariant
                row <= copied,
                src.wf(),
                view == src@,
                width <= view.width,
                copied > 0 ==> src_top + copied <= view.height(),
                0 <= images <= row * 65535,
                0 <= wraps <= row,
                0 <= starts <= row,
                0 <= ends <= row,
                images == FrameView::copied_images(view, src_top, width as int, row as int),
                wraps == FrameView::carried_wraps(
                    view,
                    src_top,
                    if row < copied {
                        row as int
                    } else {
                        copied - 1
                    },
                ),
                starts == FrameView::carried_marks(
                    view,
                    src_top,
                    row as int,
                    RowMark::PromptStart,
                ),
                ends == FrameView::carried_marks(view, src_top, row as int, RowMark::PromptEnd),
            decreases copied - row,
        {
            let y: u16 = src_top + row;
            let mut x: u16 = 0;
            let mut found: u64 = 0;
            while x < width
                invariant
                    x <= width,
                    src.wf(),
                    view == src@,
                    width <= view.width,
                    y < view.height(),
                    found <= x,
                    found == image_cells(view.rows[y as int], x as int),
                decreases width - x,
            {
                if let CellContent::Image { .. } = src.cell(x, y).content() {
                    found += 1;
                }
                x += 1;
            }
            images += found;
            if row + 1 < copied && src.soft_wrap(y) {
                wraps += 1;
            }
            if src.row_mark(y, RowMark::PromptStart) {
                starts += 1;
            }
            if src.row_mark(y, RowMark::PromptEnd) {
                ends += 1;
            }
            row += 1;
        }
        if full {
            images + wraps + starts + ends
        } else {
            images + starts + ends
        }
    }

    /// Copies a cell region from `src` into this frame — the scroll
    /// viewport blit, and the way an embedder composites a sub-document
    /// into a hand-painted frame.
    /// `src` rows `[src_top, src_top + rows)` land at `(dst_x, dst_y)`,
    /// clipped to both frames. Wide glyphs whose lead cell falls outside
    /// the copied span degrade to blanks rather than leaving orphan
    /// continuations.
    /// A cursor set on `src` inside the copied region is translated into
    /// this frame's coordinates; outside it, this frame's cursor is kept.
    pub fn blit(&mut self, src: &Self, src_top: u16, rows: u16, dst_x: u16, dst_y: u16)
        requires
            old(self).wf(),
            src.wf(),
        ensures
            final(self).wf(),
            final(self).source() == old(self).source(),
            final(self)@ == old(self)@.blitted(src@, src_top, rows, dst_x, dst_y),
    {
        let ghost before = self@;
        self.touch();
        let width: u16 = smaller(src.size.width, self.size.width.saturating_sub(dst_x));
        match src.cursor {
            Some((cx, cy)) => {
                if cx < width && cy >= src_top && cy < src_top.saturating_add(rows) {
                    let to_y: u16 = dst_y.saturating_add(cy - src_top);
                    if to_y < self.size.height {
                        self.cursor = Some((dst_x.saturating_add(cx), to_y));
                    }
                }
            },
            None => {},
        }
        let there: u16 = src.size.height.saturating_sub(src_top);
        let here: u16 = self.size.height.saturating_sub(dst_y);
        let copied: u16 = smaller(rows, smaller(there, here));
        assert(copied == before.copied_rows(src@, src_top, rows, dst_y));
        assert(self@ == (FrameView {
            cursor: before.copied_cursor(src@, src_top, rows, dst_x, dst_y),
            ..before.touched()
        }));
        let full: bool = dst_x == 0 && width == self.size.width && width == src.size.width;
        if width > 0 && copied > 0 {
            self.blit_cells(src, src_top, copied, dst_x, dst_y, width);
            let destination: Rect = Rect::new(dst_x, dst_y, width, copied);
            let band: Rect = Rect::new(0, src_top, src.size.width, rows);
            self.blit_regions(src, destination, band);
        }
        self.blit_wraps(src, src_top, dst_y, copied, full);
        // Zone marks are row metadata, so every copied row carries them —
        // including the single-row blits that retire history. A full-width
        // copy replaces the rows' zone marks outright.
        if copied > 0 {
            Frame::carry_marks(
                &mut self.prompt_starts,
                src,
                src_top,
                dst_y,
                copied,
                full,
                RowMark::PromptStart,
            );
            Frame::carry_marks(
                &mut self.prompt_ends,
                src,
                src_top,
                dst_y,
                copied,
                full,
                RowMark::PromptEnd,
            );
        }
        let changes: u64 = Frame::count_changes(src, src_top, width, copied, full);
        self.revision = self.revision.wrapping_add(changes);
        proof {
            let goal = before.blitted(src@, src_top, rows, dst_x, dst_y);
            assert(self@.prompt_starts =~= goal.prompt_starts);
            assert(self@.prompt_ends =~= goal.prompt_ends);
            assert(self@.rows =~= goal.rows);
            assert(self@ =~= goal);
        }
    }
}

/// A frame of blanks in the plain style.
pub open spec fn blank_frame(size: Size) -> FrameView {
    FrameView {
        width: size.width,
        rows: Seq::new(size.height as nat, |y: int| blanks(size.width as nat, plain())),
        decors: Seq::empty(),
        noselect: Seq::empty(),
        cursor: None,
        images: false,
        revision: 0,
        soft_wraps: Set::empty(),
        prompt_starts: Set::empty(),
        prompt_ends: Set::empty(),
    }
}

/// A frame that shrinks and grows again brings no wrap flag back at or below
/// the row it shrank to.
pub proof fn regrowth_resurrects_no_wrap(
    frame: FrameView,
    small: u16,
    large: u16,
    style: Style,
    y: usize,
)
    requires
        small < frame.height(),
        y + 1 >= small,
    ensures
        !frame.resized(small, style).resized(large, style).soft_wraps.contains(y),
{
}

/// Shrinking and growing back keeps the rows that stayed and blanks the rest.
pub proof fn regrowth_blanks_lost_rows(frame: FrameView, small: u16, style: Style, y: int)
    requires
        frame.wf(),
        small < frame.height(),
        0 <= y < frame.height(),
    ensures
        frame.resized(small, style).resized(frame.height() as u16, style).rows[y] == (if y < small {
            frame.rows[y]
        } else {
            blanks(frame.width as nat, style)
        }),
{
}

/// Copying a whole frame of the same size copies what every cell shows.
pub proof fn whole_blit_copies_contents(frame: FrameView, src: FrameView, y: int, x: int)
    requires
        frame.wf(),
        src.wf(),
        frame.width == src.width,
        frame.height() == src.height(),
        0 <= y < frame.height(),
        0 <= x < frame.width,
    ensures
        frame.blitted(src, 0, src.height() as u16, 0, 0).rows[y][x].content
            == src.rows[y][x].content,
{
    let row = src.rows[y];
    assert(row.len() == src.width);
    assert(frame.rows[y].len() == frame.width);
    crate::row::head_facts(row, x);
}

/// Drawing in one row leaves every other row alone.
pub proof fn drawing_is_local(
    frame: FrameView,
    x: u16,
    y: u16,
    text: Seq<ClusterView>,
    style: Style,
    other: int,
)
    requires
        frame.wf(),
        0 <= other < frame.height(),
        other != y,
    ensures
        frame.put(x, y, text, style).rows[other] == frame.rows[other],
{
}

/// Drawing never runs past the frame's right edge.
pub proof fn drawing_stays_inside(frame: FrameView, x: u16, y: u16, text: Seq<ClusterView>)
    requires
        frame.wf(),
        x <= frame.width,
    ensures
        x <= frame.end(x, y, text) <= frame.width,
{
    let room = frame.room(x, sat_sub(frame.width, x));
    crate::text::drawing_fits(text, room, all_ascii(text));
}

} // verus!
