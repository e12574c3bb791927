//! The table: what stands in each cell, and which columns a given width shows.
//!
//! The columns have fixed widths, so that the table keeps its shape from one
//! redraw to the next whatever the figures are. Where the target is too
//! narrow for all of them, columns are left out from the right.

use crate::frame::column_total;
use crate::interval::{rate_per_second, UpdateInterval};
use crate::partition::{views, Partition, PartitionView};
use crate::text::texts;
use vstd::arithmetic::div_mod::lemma_div_denominator;
use vstd::arithmetic::power::{lemma_pow0, lemma_pow_positive, pow};
use vstd::prelude::*;
use vstd::string::*;

verus! {

/// How byte counts are written.
#[derive(Clone, Copy, Debug, PartialEq, Eq, Structural)]
pub enum ByteUnits {
    /// The plain number of bytes.
    RawBytes,
    /// The number in the largest binary unit that it fills: `B`, then `K`
    /// for 1024 bytes, `M`, `G` and so on, rounded down.
    HumanScaled,
}

/// The number of columns of the full table.
pub const COLUMNS: usize = 6;

/// The blank cells between two columns.
pub const COLUMN_SPACING: u16 = 1;

/// The labels of the header row.
pub open spec fn header_labels() -> Seq<Seq<char>> {
    seq!["Disk"@, "Mount"@, "Used"@, "Free"@, "R/s"@, "W/s"@]
}

/// The width of each column.
pub open spec fn column_widths() -> Seq<u16> {
    seq![20u16, 20u16, 10u16, 10u16, 10u16, 10u16]
}

/// The width that the first `columns` columns take: the columns, the spacing
/// between them, and two cells for a border.
pub open spec fn width_needed(columns: nat) -> int {
    if columns == 0 {
        0
    } else if columns == 1 {
        22
    } else if columns == 2 {
        43
    } else if columns == 3 {
        54
    } else if columns == 4 {
        65
    } else if columns == 5 {
        76
    } else {
        87
    }
}

/// The number of columns that a target of the given width shows: as many of
/// the leading columns as fit.
pub open spec fn columns_shown(width: u16) -> nat {
    if width >= width_needed(6) {
        6
    } else if width >= width_needed(5) {
        5
    } else if width >= width_needed(4) {
        4
    } else if width >= width_needed(3) {
        3
    } else if width >= width_needed(2) {
        2
    } else if width >= width_needed(1) {
        1
    } else {
        0
    }
}

/// The character for a digit.
pub open spec fn digit(d: nat) -> char {
    if d == 0 {
        '0'
    } else if d == 1 {
        '1'
    } else if d == 2 {
        '2'
    } else if d == 3 {
        '3'
    } else if d == 4 {
        '4'
    } else if d == 5 {
        '5'
    } else if d == 6 {
        '6'
    } else if d == 7 {
        '7'
    } else if d == 8 {
        '8'
    } else {
        '9'
    }
}

/// A number in decimal notation.
pub open spec fn decimal(n: nat) -> Seq<char>
    decreases n,
{
    if n < 10 {
        seq![digit(n)]
    } else {
        decimal(n / 10).push(digit(n % 10))
    }
}

/// A text with blanks before it, as many as it falls short of `width`.
pub open spec fn right_aligned(text: Seq<char>, width: nat) -> Seq<char> {
    if text.len() >= width {
        text
    } else {
        Seq::new((width - text.len()) as nat, |i: int| ' ') + text
    }
}

/// A share in percent: the number, right-aligned in three places, and the
/// percent sign.
pub open spec fn percent_text(percent: u8) -> Seq<char> {
    right_aligned(decimal(percent as nat), 3).push('%')
}

/// The most steps of 1024 that a byte count is scaled down by.
pub open spec fn largest_unit() -> nat {
    10
}

/// The symbol of the unit of 1024 to the power of `steps` bytes.
pub open spec fn unit_symbol(steps: nat) -> char {
    if steps == 0 {
        'B'
    } else if steps == 1 {
        'K'
    } else if steps == 2 {
        'M'
    } else if steps == 3 {
        'G'
    } else if steps == 4 {
        'T'
    } else if steps == 5 {
        'P'
    } else if steps == 6 {
        'E'
    } else if steps == 7 {
        'Z'
    } else if steps == 8 {
        'Y'
    } else if steps == 9 {
        'R'
    } else {
        'Q'
    }
}

/// How often `n` is divided by 1024 until it is below 1024, with at most
/// `limit` divisions.
pub open spec fn unit_steps(n: nat, limit: nat) -> nat
    decreases limit,
{
    if n < 1024 || limit == 0 {
        0
    } else {
        1 + unit_steps(n / 1024, (limit - 1) as nat)
    }
}

/// What is left of `n` after those divisions.
pub open spec fn scaled_down(n: nat, limit: nat) -> nat
    decreases limit,
{
    if n < 1024 || limit == 0 {
        n
    } else {
        scaled_down(n / 1024, (limit - 1) as nat)
    }
}

/// Scaling down divides by a power of 1024: what is left is the byte count
/// divided by 1024 to the number of steps, rounded down. Below the largest
/// unit it is less than 1024, and in every unit above the byte it is at
/// least one.
pub proof fn law_scaled_down(n: nat, limit: nat)
    ensures
        unit_steps(n, limit) <= limit,
        pow(1024, unit_steps(n, limit)) > 0,
        scaled_down(n, limit) == n as int / pow(1024, unit_steps(n, limit)),
        unit_steps(n, limit) < limit ==> scaled_down(n, limit) < 1024,
        unit_steps(n, limit) > 0 ==> scaled_down(n, limit) >= 1,
    decreases limit,
{
    lemma_pow_positive(1024, unit_steps(n, limit));
    if n < 1024 || limit == 0 {
        lemma_pow0(1024);
    } else {
        let rest = n / 1024;
        let steps = unit_steps(rest, (limit - 1) as nat);
        law_scaled_down(rest, (limit - 1) as nat);
        lemma_pow_positive(1024, steps);
        lemma_div_denominator(n as int, 1024, pow(1024, steps));
        assert(pow(1024, (steps + 1) as nat) == 1024 * pow(1024, steps)) by {
            reveal(pow);
        }
    }
}

/// A byte count in the largest unit that it fills.
pub open spec fn human_text(n: nat) -> Seq<char> {
    decimal(scaled_down(n, largest_unit())).push(unit_symbol(unit_steps(n, largest_unit())))
}

/// A byte count as the given units write it.
pub open spec fn size_text(units: ByteUnits, n: nat) -> Seq<char> {
    match units {
        ByteUnits::RawBytes => decimal(n),
        ByteUnits::HumanScaled => human_text(n),
    }
}

/// The cells of the row for one record: the name, the mount point, the used
/// share, the free bytes, and the bytes read and written per second.
pub open spec fn row_cells(record: PartitionView, interval: UpdateInterval, units: ByteUnits) -> Seq<
    Seq<char>,
> {
    seq![
        record.name,
        record.mountpoint,
        percent_text(record.used_percent),
        size_text(units, record.bytes_free as nat),
        size_text(
            units,
            rate_per_second(
                record.bytes_read_recently as int,
                interval.numer as int,
                interval.denom as int,
            ) as nat,
        ),
        size_text(
            units,
            rate_per_second(
                record.bytes_written_recently as int,
                interval.numer as int,
                interval.denom as int,
            ) as nat,
        ),
    ]
}

/// The rows of the table for the listed records, each cut to the leading
/// `columns` cells.
pub open spec fn table_rows(
    list: Seq<PartitionView>,
    interval: UpdateInterval,
    units: ByteUnits,
    columns: nat,
) -> Seq<Seq<Seq<char>>> {
    Seq::new(list.len(), |i: int| row_cells(list[i], interval, units).take(columns as int))
}

/// The texts of a list of rows of strings.
pub open spec fn row_texts(rows: Seq<Vec<String>>) -> Seq<Seq<Seq<char>>> {
    Seq::new(rows.len(), |i: int| texts(rows[i]@))
}

/// The first `columns` widths add up, with the spacing and the border, to
/// `width_needed`.
pub proof fn lemma_width_needed(columns: nat)
    requires
        1 <= columns <= COLUMNS,
    ensures
        column_total(column_widths().take(columns as int)) + COLUMN_SPACING * (columns - 1) + 2
            == width_needed(columns),
    decreases columns,
{
    let shown = column_widths().take(columns as int);
    if columns == 1 {
        assert(shown.drop_last() =~= Seq::empty());
        assert(column_total(shown.drop_last()) == 0);
    } else {
        lemma_width_needed((columns - 1) as nat);
        assert(shown.drop_last() =~= column_widths().take(columns - 1));
    }
}

/// How many columns a target of the given width shows.
pub fn visible_columns(width: u16) -> (columns: usize)
    ensures
        columns == columns_shown(width),
        columns <= COLUMNS,
        width_needed(columns as nat) <= width,
        columns < COLUMNS ==> width < width_needed((columns + 1) as nat),
{
    if width >= 87 {
        6
    } else if width >= 76 {
        5
    } else if width >= 65 {
        4
    } else if width >= 54 {
        3
    } else if width >= 43 {
        2
    } else if width >= 22 {
        1
    } else {
        0
    }
}

fn digit_text(d: u8) -> (text: &'static str)
    requires
        d < 10,
    ensures
        text@ == seq![digit(d as nat)],
{
    proof {
        reveal_strlit("0");
        reveal_strlit("1");
        reveal_strlit("2");
        reveal_strlit("3");
        reveal_strlit("4");
        reveal_strlit("5");
        reveal_strlit("6");
        reveal_strlit("7");
        reveal_strlit("8");
        reveal_strlit("9");
    }
    let text = if d == 0 {
        "0"
    } else if d == 1 {
        "1"
    } else if d == 2 {
        "2"
    } else if d == 3 {
        "3"
    } else if d == 4 {
        "4"
    } else if d == 5 {
        "5"
    } else if d == 6 {
        "6"
    } else if d == 7 {
        "7"
    } else if d == 8 {
        "8"
    } else {
        "9"
    };
    assert(text@ =~= seq![digit(d as nat)]);
    text
}

fn unit_text(steps: u8) -> (text: &'static str)
    ensures
        text@ == seq![unit_symbol(steps as nat)],
{
    proof {
        reveal_strlit("B");
        reveal_strlit("K");
        reveal_strlit("M");
        reveal_strlit("G");
        reveal_strlit("T");
        reveal_strlit("P");
        reveal_strlit("E");
        reveal_strlit("Z");
        reveal_strlit("Y");
        reveal_strlit("R");
        reveal_strlit("Q");
    }
    let text = if steps == 0 {
        "B"
    } else if steps == 1 {
        "K"
    } else if steps == 2 {
        "M"
    } else if steps == 3 {
        "G"
    } else if steps == 4 {
        "T"
    } else if steps == 5 {
        "P"
    } else if steps == 6 {
        "E"
    } else if steps == 7 {
        "Z"
    } else if steps == 8 {
        "Y"
    } else if steps == 9 {
        "R"
    } else {
        "Q"
    };
    assert(text@ =~= seq![unit_symbol(steps as nat)]);
    text
}

fn append_decimal(out: &mut String, n: u128)
    ensures
        final(out)@ == old(out)@ + decimal(n as nat),
    decreases n,
{
    if n >= 10 {
        append_decimal(out, n / 10);
    }
    let ghost before = out@;
    out.append(digit_text((n % 10) as u8));
    assert(out@ =~= old(out)@ + decimal(n as nat));
}

/// A number in decimal notation.
pub fn decimal_text(n: u128) -> (text: String)
    ensures
        text@ == decimal(n as nat),
{
    let mut text = String::new();
    append_decimal(&mut text, n);
    assert(text@ =~= decimal(n as nat));
    text
}

/// The cell for a used share.
pub fn percent_cell(percent: u8) -> (cell: String)
    ensures
        cell@ == percent_text(percent),
{
    let mut cell = String::new();
    proof {
        reveal_strlit(" ");
        reveal_strlit("  ");
        reveal_strlit("%");
        reveal_with_fuel(decimal, 3);
    }
    if percent < 10 {
        cell.append("  ");
    } else if percent < 100 {
        cell.append(" ");
    }
    append_decimal(&mut cell, percent as u128);
    cell.append("%");
    assert(cell@ =~= percent_text(percent));
    cell
}

/// The cell for a byte count.
pub fn size_cell(units: ByteUnits, n: u128) -> (cell: String)
    ensures
        cell@ == size_text(units, n as nat),
{
    match units {
        ByteUnits::RawBytes => decimal_text(n),
        ByteUnits::HumanScaled => {
            let mut left: u128 = n;
            let mut steps: u8 = 0;
            while left >= 1024 && steps < 10
                invariant
                    steps <= 10,
                    unit_steps(n as nat, largest_unit()) == steps + unit_steps(
                        left as nat,
                        (largest_unit() - steps) as nat,
                    ),
                    scaled_down(n as nat, largest_unit()) == scaled_down(
                        left as nat,
                        (largest_unit() - steps) as nat,
                    ),
                decreases 10 - steps,
            {
                left = left / 1024;
                steps += 1;
            }
            let mut cell = decimal_text(left);
            cell.append(unit_text(steps));
            assert(cell@ =~= human_text(n as nat));
            cell
        },
    }
}

/// The row for one record.
pub fn row(record: &Partition, interval: UpdateInterval, units: ByteUnits) -> (cells: Vec<String>)
    requires
        interval.wf(),
    ensures
        cells@.len() == COLUMNS,
        texts(cells@) == row_cells(record@, interval, units),
{
    let mut cells: Vec<String> = Vec::new();
    cells.push(record.name.clone());
    cells.push(record.mountpoint.clone());
    cells.push(percent_cell(record.used_percent));
    cells.push(size_cell(units, record.bytes_free as u128));
    cells.push(size_cell(units, interval.per_second(record.bytes_read_recently)));
    cells.push(size_cell(units, interval.per_second(record.bytes_written_recently)));
    assert(texts(cells@) =~= row_cells(record@, interval, units));
    cells
}

/// What is handed to the painter: the header labels, the rows and the column
/// widths, all cut to the columns that are shown.
pub struct TableLayout {
    pub header: Vec<String>,
    pub rows: Vec<Vec<String>>,
    pub widths: Vec<u16>,
    pub spacing: u16,
}

impl TableLayout {
    /// This is the table for the listed records at the given number of
    /// columns.
    pub open spec fn shows(
        &self,
        list: Seq<PartitionView>,
        interval: UpdateInterval,
        units: ByteUnits,
        columns: nat,
    ) -> bool {
        &&& texts(self.header@) == header_labels().take(columns as int)
        &&& row_texts(self.rows@) == table_rows(list, interval, units, columns)
        &&& self.widths@ == column_widths().take(columns as int)
        &&& self.spacing == COLUMN_SPACING
    }
}

/// Cuts a list of cells to its leading `columns` cells.
fn leading<T: Clone>(cells: Vec<T>, columns: usize) -> (cut: Vec<T>)
    requires
        columns <= cells.len(),
    ensures
        cut@ == cells@.take(columns as int),
{
    let mut cut = cells;
    cut.truncate(columns);
    assert(cut@ =~= cells@.take(columns as int));
    cut
}

/// Lays the table out for a target of the given width: one row for each of
/// the listed records, in their order.
pub fn layout(list: &Vec<Partition>, interval: UpdateInterval, units: ByteUnits, width: u16) -> (table:
    TableLayout)
    requires
        interval.wf(),
    ensures
        table.shows(views(list@), interval, units, columns_shown(width)),
{
    let columns = visible_columns(width);
    let mut header: Vec<String> = Vec::new();
    header.push("Disk".to_owned());
    header.push("Mount".to_owned());
    header.push("Used".to_owned());
    header.push("Free".to_owned());
    header.push("R/s".to_owned());
    header.push("W/s".to_owned());
    assert(texts(header@) =~= header_labels());
    let header = leading(header, columns);
    assert(texts(header@) =~= header_labels().take(columns as int));
    let mut widths: Vec<u16> = Vec::new();
    widths.push(20);
    widths.push(20);
    widths.push(10);
    widths.push(10);
    widths.push(10);
    widths.push(10);
    assert(widths@ =~= column_widths());
    let widths = leading(widths, columns);
    let mut rows: Vec<Vec<String>> = Vec::new();
    let mut i: usize = 0;
    while i < list.len()
        invariant
            i <= list.len(),
            interval.wf(),
            columns <= COLUMNS,
            rows@.len() == i,
            forall|k: int|
                0 <= k < i ==> texts((#[trigger] rows@[k])@) == row_cells(
                    list@[k]@,
                    interval,
                    units,
                ).take(columns as int),
        decreases list.len() - i,
    {
        let full = row(&list[i], interval, units);
        let cells = leading(full, columns);
        assert(texts(cells@) =~= row_cells(list@[i as int]@, interval, units).take(columns as int));
        rows.push(cells);
        i += 1;
    }
    assert(row_texts(rows@) =~= table_rows(views(list@), interval, units, columns as nat));
    TableLayout { header, rows, widths, spacing: COLUMN_SPACING }
}

} // verus!
