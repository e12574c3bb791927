//! The terminal frame buffer and the table painter that writes into it.
//!
//! The frame buffer and the painter belong to `tui`. Nothing here is proved of
//! them: the contracts in this file are what the rest of the library takes on
//! trust, and each says which function of `tui` it speaks for.

use crate::render::row_texts;
use crate::text::texts;
use tui::buffer::Buffer;
use tui::layout::{Constraint, Rect};
use tui::style::Style;
use tui::widgets::{Row, Table, Widget};
use vstd::prelude::*;

verus! {

/// `tui::buffer::Buffer`, the frame buffer: a grid of cells, each with a
/// symbol and a style. The library sees of it what `frame_symbols` and
/// `frame_bounds` name.
#[verifier::external_type_specification]
#[verifier::external_body]
pub struct ExBuffer(Buffer);

/// `tui::style::Style`, the colours and modifiers of a cell. The library
/// hands styles on and reads nothing of them.
#[verifier::external_type_specification]
#[verifier::external_body]
pub struct ExStyle(Style);

/// A rectangle of terminal cells: its top left corner and its size.
#[derive(Clone, Copy, Debug, PartialEq, Eq, Structural)]
pub struct Area {
    pub x: u16,
    pub y: u16,
    pub width: u16,
    pub height: u16,
}

/// The symbols that the cells of a frame buffer hold, row after row.
pub uninterp spec fn frame_symbols(buf: Buffer) -> Seq<Seq<char>>;

/// The rectangle that a frame buffer covers, as `(x, y, width, height)`.
pub uninterp spec fn frame_bounds(buf: Buffer) -> (u16, u16, u16, u16);

/// The symbols of a frame buffer after `tui`'s table widget has drawn into
/// it, from the symbols and bounds it had before, the target rectangle, the
/// header labels, the rows of cells, the column widths and the spacing between
/// columns.
pub uninterp spec fn painted_symbols(
    before: Seq<Seq<char>>,
    bounds: (u16, u16, u16, u16),
    target: (u16, u16, u16, u16),
    header: Seq<Seq<char>>,
    rows: Seq<Seq<Seq<char>>>,
    widths: Seq<u16>,
    spacing: u16,
) -> Seq<Seq<char>>;

/// The sum of the given column widths.
pub open spec fn column_total(widths: Seq<u16>) -> int
    decreases widths.len(),
{
    if widths.len() == 0 {
        0
    } else {
        column_total(widths.drop_last()) + widths.last()
    }
}

impl Area {
    /// The rectangle as `(x, y, width, height)`.
    pub open spec fn tuple(&self) -> (u16, u16, u16, u16) {
        (self.x, self.y, self.width, self.height)
    }

    /// The cell at column `x` and line `y` is a cell of `self`.
    pub open spec fn holds(&self, x: int, y: int) -> bool {
        &&& self.x <= x < self.x + self.width
        &&& self.y <= y < self.y + self.height
    }

    /// Every cell of `self` is a cell of a frame with the given bounds.
    pub open spec fn inside(&self, bounds: (u16, u16, u16, u16)) -> bool {
        &&& bounds.0 <= self.x
        &&& bounds.1 <= self.y
        &&& self.x + self.width <= bounds.0 + bounds.2
        &&& self.y + self.height <= bounds.1 + bounds.3
    }
}

/// Where a frame with the given bounds keeps the cell at column `x` and line
/// `y`: the cells stand line after line.
pub open spec fn cell_index(bounds: (u16, u16, u16, u16), x: int, y: int) -> int {
    (y - bounds.1) * bounds.2 + (x - bounds.0)
}

/// Every cell of the frame that is no cell of `target` holds after what it
/// held before.
pub open spec fn same_outside(
    before: Seq<Seq<char>>,
    after: Seq<Seq<char>>,
    bounds: (u16, u16, u16, u16),
    target: Area,
) -> bool {
    &&& after.len() == before.len()
    &&& forall|x: int, y: int|
        bounds.0 <= x < bounds.0 + bounds.2 && bounds.1 <= y < bounds.1 + bounds.3 && !target.holds(
            x,
            y,
        ) ==> after[#[trigger] cell_index(bounds, x, y)] == before[cell_index(bounds, x, y)]
}

/// A frame buffer holds one cell for each position of its bounds, and its
/// coordinates and cell count fit the 16-bit arithmetic that `tui` does with
/// them.
pub open spec fn frame_sound(cells: nat, bounds: (u16, u16, u16, u16)) -> bool {
    &&& cells == bounds.2 * bounds.3
    &&& bounds.2 * bounds.3 <= u16::MAX
    &&& bounds.0 + bounds.2 <= u16::MAX
    &&& bounds.1 + bounds.3 <= u16::MAX
}

/// The columns, with the spacing between them and the two cells that `tui`
/// keeps for a border, fit the target's width, and neither their number nor
/// any coordinate that the painter computes leaves the 16-bit range.
pub open spec fn columns_fit(target: Area, widths: Seq<u16>, spacing: u16) -> bool {
    &&& 1 <= widths.len() <= u16::MAX
    &&& column_total(widths) + spacing * (widths.len() - 1) + 2 <= target.width
    &&& target.x + column_total(widths) + spacing * widths.len() <= u16::MAX
    &&& target.y + 2 <= u16::MAX
}

/// The painter can reach every cell of `target` in a frame buffer with that
/// many cells and those bounds.
pub open spec fn addressable(target: Area, cells: nat, bounds: (u16, u16, u16, u16)) -> bool {
    &&& frame_sound(cells, bounds)
    &&& target.inside(bounds)
    &&& target.y + 2 <= u16::MAX
}

/// Reads `Buffer::area`.
#[verifier::external_body]
pub(crate) fn bounds_of(buf: &Buffer) -> (bounds: Area)
    ensures
        bounds.tuple() == frame_bounds(*buf),
{
    let rect = buf.area();
    Area { x: rect.x, y: rect.y, width: rect.width, height: rect.height }
}

/// Reads the length of `Buffer::content`: the number of cells that the frame
/// buffer holds.
#[verifier::external_body]
pub(crate) fn cell_count(buf: &Buffer) -> (count: usize)
    ensures
        count == frame_symbols(*buf).len(),
{
    buf.content().len()
}

/// Whether the painter can reach every cell of `target` in `buf`.
pub fn can_address(target: Area, buf: &Buffer) -> (reachable: bool)
    ensures
        reachable == addressable(target, frame_symbols(*buf).len(), frame_bounds(*buf)),
{
    let bounds = bounds_of(buf);
    let cells = cell_count(buf);
    assert(bounds.width * bounds.height <= 65535 * 65535) by (nonlinear_arith)
        requires
            bounds.width <= 65535,
            bounds.height <= 65535,
    ;
    let area: u32 = bounds.width as u32 * bounds.height as u32;
    let right: u32 = bounds.x as u32 + bounds.width as u32;
    let bottom: u32 = bounds.y as u32 + bounds.height as u32;
    cells as u64 == area as u64 && area <= 65535 && right <= 65535 && bottom <= 65535 && bounds.x
        <= target.x && bounds.y <= target.y && target.x as u32 + target.width as u32 <= right
        && target.y as u32 + target.height as u32 <= bottom && target.y <= 65533
}

/// Draws a `tui::widgets::Table` without a surrounding block into `buf`:
/// `Table::new` with the header labels and the rows, then `header_style`,
/// `widths` with one `Constraint::Length` per column, `column_spacing` and
/// `Widget::draw` on the target.
///
/// The table widget indexes the buffer at every cell of the target, and it
/// subtracts the spacing and a border of two cells from the target's width in
/// 16-bit arithmetic: hence the target has to lie inside a sound frame and
/// the columns have to fit. With columns that fit, all the width constraints
/// can be met at once, so the layout does not hang on how the constraint
/// solver orders its work.
///
/// The contract claims three things. The bounds of the frame stay as they
/// were. No symbol changes outside the target: the widget writes the header
/// into the target's first line and the rows into the lines from the third
/// on, as many as the target has, each cell from its column's start and no
/// further than its column's width; elsewhere it sets background colours
/// only. And the symbols afterwards are determined by the symbols and bounds
/// before, the target, the labels, the rows, the widths and the spacing: the
/// two styles colour cells and choose no symbol.
#[verifier::external_body]
pub(crate) fn paint_table(
    buf: &mut Buffer,
    target: Area,
    header: &Vec<String>,
    rows: &Vec<Vec<String>>,
    widths: &Vec<u16>,
    spacing: u16,
    text: Style,
    emphasis: Style,
)
    requires
        frame_sound(frame_symbols(*old(buf)).len(), frame_bounds(*old(buf))),
        target.inside(frame_bounds(*old(buf))),
        columns_fit(target, widths@, spacing),
    ensures
        frame_bounds(*final(buf)) == frame_bounds(*old(buf)),
        same_outside(
            frame_symbols(*old(buf)),
            frame_symbols(*final(buf)),
            frame_bounds(*old(buf)),
            target,
        ),
        frame_symbols(*final(buf)) == painted_symbols(
            frame_symbols(*old(buf)),
            frame_bounds(*old(buf)),
            target.tuple(),
            texts(header@),
            row_texts(rows@),
            widths@,
            spacing,
        ),
{
    let columns: Vec<Constraint> = widths.iter().map(|w| Constraint::Length(*w)).collect();
    let lines = rows.iter().map(|cells| Row::StyledData(cells.iter(), text));
    Table::new(header.iter(), lines)
        .header_style(emphasis)
        .widths(&columns)
        .column_spacing(spacing)
        .draw(Rect { x: target.x, y: target.y, width: target.width, height: target.height }, buf);
}

} // verus!
