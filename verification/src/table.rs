//! Table layout.
//!
//! A row is a text whose cells are separated by a delimiter.  A table is
//! laid out by padding every cell but the last of each row to the width of
//! its column, so that the columns line up.  Widths are counted in
//! characters of the cell as it stands: colour codes in a cell count too.

use crate::text::{chars_of, pad_end, push_chars, push_spaces, spaces, texts_of};
use vstd::prelude::*;

verus! {

/// The character that separates the cells of a row.
pub const DELIMITER: char = ';';

/// The cells of a row.  A row without a delimiter is one cell; each
/// delimiter ends a cell and begins the next, so a row that ends in a
/// delimiter ends in an empty cell.
pub open spec fn cells_of(row: Seq<char>) -> Seq<Seq<char>>
    decreases row.len(),
{
    if row.len() == 0 {
        seq![Seq::empty()]
    } else {
        let before = cells_of(row.drop_last());
        if row.last() == DELIMITER {
            before.push(Seq::empty())
        } else {
            before.update(before.len() - 1, before.last().push(row.last()))
        }
    }
}

/// The cells of every row.
pub open spec fn table_of(rows: Seq<Seq<char>>) -> Seq<Seq<Seq<char>>> {
    rows.map_values(|row: Seq<char>| cells_of(row))
}

/// Every row has `count` cells.
pub open spec fn has_columns(table: Seq<Seq<Seq<char>>>, count: nat) -> bool {
    forall|r: int| 0 <= r < table.len() ==> (#[trigger] table[r]).len() == count
}

/// All rows have the same number of cells.
pub open spec fn is_uniform(table: Seq<Seq<Seq<char>>>) -> bool {
    table.len() > 0 ==> has_columns(table, table[0].len())
}

/// The width of column `col`: the length of its longest cell.
pub open spec fn column_width(table: Seq<Seq<Seq<char>>>, col: int) -> nat
    decreases table.len(),
{
    if table.len() == 0 {
        0
    } else {
        let above = column_width(table.drop_last(), col);
        let here = table.last()[col].len();
        if above < here {
            here
        } else {
            above
        }
    }
}

/// The width of every column of a table: as many as the first row has
/// cells, none for an empty table.
pub open spec fn column_widths(table: Seq<Seq<Seq<char>>>) -> Seq<nat> {
    if table.len() == 0 {
        Seq::empty()
    } else {
        Seq::new(table[0].len(), |col: int| column_width(table, col))
    }
}

/// The first `count` cells of a row, each padded to its width and followed
/// by one blank.
pub open spec fn leading_cells(cells: Seq<Seq<char>>, sizes: Seq<nat>, count: nat) -> Seq<char>
    decreases count,
{
    if count == 0 {
        Seq::empty()
    } else {
        leading_cells(cells, sizes, (count - 1) as nat) + pad_end(
            cells[count - 1],
            sizes[count - 1],
        ) + seq![' ']
    }
}

/// One line of the table: the cells but the last padded to their widths and
/// followed by a blank, then the last cell as it is.
pub open spec fn row_line(cells: Seq<Seq<char>>, sizes: Seq<nat>) -> Seq<char> {
    if cells.len() == 0 {
        Seq::empty()
    } else {
        leading_cells(cells, sizes, (cells.len() - 1) as nat) + cells.last()
    }
}

/// One line of the table, ended by a line feed.
pub open spec fn row_text(cells: Seq<Seq<char>>, sizes: Seq<nat>) -> Seq<char> {
    row_line(cells, sizes).push('\n')
}

/// The lines of the table, one for each row.
pub open spec fn table_lines(table: Seq<Seq<Seq<char>>>, sizes: Seq<nat>) -> Seq<Seq<char>> {
    table.map_values(|cells: Seq<Seq<char>>| row_line(cells, sizes))
}

/// The lines of the table, one after the other.
pub open spec fn table_text(table: Seq<Seq<Seq<char>>>, sizes: Seq<nat>) -> Seq<char>
    decreases table.len(),
{
    if table.len() == 0 {
        Seq::empty()
    } else {
        table_text(table.drop_last(), sizes) + row_text(table.last(), sizes)
    }
}

/// The widths that a slice of sizes stands for.
pub open spec fn widths_of(sizes: Seq<usize>) -> Seq<nat> {
    sizes.map_values(|size: usize| size as nat)
}

/// The contents of a vector of cells.
pub open spec fn cell_views(cells: Seq<Vec<char>>) -> Seq<Seq<char>> {
    cells.map_values(|cell: Vec<char>| cell@)
}

/// Where column `col` begins in a line: behind the columns before it, each
/// with its width and one blank.
pub open spec fn column_start(sizes: Seq<nat>, col: nat) -> nat
    decreases col,
{
    if col == 0 {
        0
    } else {
        column_start(sizes, (col - 1) as nat) + sizes[col - 1] + 1
    }
}

/// No cell of a column is longer than the column is wide.
pub proof fn lemma_column_width_covers(table: Seq<Seq<Seq<char>>>, row: int, col: int)
    requires
        0 <= row < table.len(),
    ensures
        table[row][col].len() <= column_width(table, col),
    decreases table.len(),
{
    if row < table.len() - 1 {
        lemma_column_width_covers(table.drop_last(), row, col);
    }
}

/// A column of a table with rows is as wide as one of its cells is long.
pub proof fn lemma_column_width_attained(table: Seq<Seq<Seq<char>>>, col: int)
    requires
        table.len() > 0,
    ensures
        exists|row: int| 0 <= row < table.len() && (#[trigger] table[row])[col].len() == column_width(
            table,
            col,
        ),
    decreases table.len(),
{
    let above = table.drop_last();
    let last = table.len() - 1;
    if above.len() == 0 || column_width(above, col) < table.last()[col].len() {
        assert(column_width(above, col) <= table.last()[col].len()) by {
            if above.len() == 0 {
                assert(column_width(above, col) == 0);
            }
        }
        assert(table[last][col].len() == column_width(table, col));
    } else {
        lemma_column_width_attained(above, col);
        let row = choose|row: int|
            0 <= row < above.len() && (#[trigger] above[row])[col].len() == column_width(above, col);
        assert(table[row] == above[row]);
        assert(table[row][col].len() == column_width(table, col));
    }
}

/// The columns line up: laid out with the widths of its table, a row's cell
/// of column `col` begins at the same place in every row.
pub proof fn lemma_columns_line_up(table: Seq<Seq<Seq<char>>>, row: int, col: nat)
    requires
        is_uniform(table),
        0 <= row < table.len(),
        col <= table[row].len(),
    ensures
        leading_cells(table[row], column_widths(table), col).len() == column_start(
            column_widths(table),
            col,
        ),
    decreases col,
{
    if col > 0 {
        lemma_columns_line_up(table, row, (col - 1) as nat);
        lemma_column_width_covers(table, row, col - 1);
        assert(table[row].len() == table[0].len());
    }
}

/// A row always has at least one cell.
pub proof fn lemma_cells_nonempty(row: Seq<char>)
    ensures
        cells_of(row).len() >= 1,
    decreases row.len(),
{
    if row.len() > 0 {
        lemma_cells_nonempty(row.drop_last());
    }
}

/// The cells with a delimiter between each two of them.
pub open spec fn joined_cells(cells: Seq<Seq<char>>) -> Seq<char>
    decreases cells.len(),
{
    if cells.len() == 0 {
        Seq::empty()
    } else if cells.len() == 1 {
        cells[0]
    } else {
        joined_cells(cells.drop_last()).push(DELIMITER) + cells.last()
    }
}

/// Splitting loses nothing and leaves no delimiter behind: the cells of a
/// row, joined by delimiters, are the row, and no cell holds a delimiter.
pub proof fn lemma_cells_rejoin(row: Seq<char>)
    ensures
        joined_cells(cells_of(row)) == row,
        forall|i: int, k: int|
            0 <= i < cells_of(row).len() && 0 <= k < cells_of(row)[i].len() ==> cells_of(row)[i][k]
                != DELIMITER,
    decreases row.len(),
{
    let cells = cells_of(row);
    if row.len() > 0 {
        let before = cells_of(row.drop_last());
        lemma_cells_rejoin(row.drop_last());
        lemma_cells_nonempty(row.drop_last());
        if row.last() == DELIMITER {
            assert(cells.drop_last() == before);
            assert(joined_cells(cells) =~= row);
        } else {
            let grown = before.last().push(row.last());
            assert(cells.last() == grown);
            if before.len() == 1 {
                assert(joined_cells(before) == before[0]);
                assert(joined_cells(cells) =~= row);
            } else {
                assert(cells.drop_last() == before.drop_last());
                assert(joined_cells(cells) =~= joined_cells(before).push(row.last()));
                assert(joined_cells(cells) =~= row);
            }
            assert forall|i: int, k: int|
                0 <= i < cells.len() && 0 <= k < cells[i].len() implies cells[i][k]
                != DELIMITER by {
                if i < cells.len() - 1 {
                    assert(cells[i] == before[i]);
                } else if k < before.last().len() {
                    assert(cells[i][k] == before.last()[k]);
                }
            }
        }
    } else {
        assert(joined_cells(cells) =~= row);
    }
}

/// The cells of a row.
pub fn split_row(row: &str) -> (cells: Vec<Vec<char>>)
    ensures
        cell_views(cells@) == cells_of(row@),
        cells.len() >= 1,
{
    let chars = chars_of(row);
    let mut done: Vec<Vec<char>> = Vec::new();
    let mut current: Vec<char> = Vec::new();
    let mut i: usize = 0;
    assert(chars@.take(0) == Seq::<char>::empty());
    assert(cell_views(done@).push(current@) =~= cells_of(chars@.take(0)));
    while i < chars.len()
        invariant
            i <= chars.len(),
            cell_views(done@).push(current@) == cells_of(chars@.take(i as int)),
        decreases chars.len() - i,
    {
        let c = chars[i];
        let ghost before = cells_of(chars@.take(i as int));
        proof {
            assert(chars@.take(i + 1).drop_last() == chars@.take(i as int));
            assert(chars@.take(i + 1).last() == c);
            assert(before.last() == current@);
            assert(before.len() == done@.len() + 1);
        }
        if c == DELIMITER {
            let ghost closed = cell_views(done@).push(current@);
            done.push(current);
            current = Vec::new();
            assert(cell_views(done@) =~= closed);
        } else {
            current.push(c);
            assert(cell_views(done@).push(current@) =~= before.update(
                before.len() - 1,
                before.last().push(c),
            ));
        }
        i += 1;
    }
    assert(chars@.take(i as int) == chars@);
    let ghost all = cell_views(done@).push(current@);
    done.push(current);
    assert(cell_views(done@) =~= all);
    done
}

/// Do all rows have the same number of cells?
pub fn uniform_cells(rows: &[String]) -> (ok: bool)
    ensures
        ok == is_uniform(table_of(texts_of(rows@))),
{
    if rows.len() == 0 {
        return true;
    }
    let ghost table = table_of(texts_of(rows@));
    let first = split_row(rows[0].as_str());
    let count = first.len();
    assert(cell_views(first@).len() == first@.len());
    let mut r: usize = 1;
    while r < rows.len()
        invariant
            1 <= r <= rows.len(),
            table == table_of(texts_of(rows@)),
            count == table[0].len(),
            forall|k: int| 0 <= k < r ==> (#[trigger] table[k]).len() == count,
        decreases rows.len() - r,
    {
        let cells = split_row(rows[r].as_str());
        assert(cell_views(cells@).len() == cells@.len());
        if cells.len() != count {
            assert(table[r as int].len() != count);
            return false;
        }
        r += 1;
    }
    true
}

/// The width of every column of a table.
pub fn measure_columns(rows: &[String]) -> (widths: Vec<usize>)
    requires
        is_uniform(table_of(texts_of(rows@))),
    ensures
        widths_of(widths@) == column_widths(table_of(texts_of(rows@))),
{
    let ghost table = table_of(texts_of(rows@));
    let mut widths: Vec<usize> = Vec::new();
    if rows.len() == 0 {
        assert(widths_of(widths@) =~= column_widths(table));
        return widths;
    }
    let first = split_row(rows[0].as_str());
    let count = first.len();
    assert(cell_views(first@).len() == first@.len());
    let mut c: usize = 0;
    while c < count
        invariant
            c <= count,
            widths.len() == c,
            forall|k: int| 0 <= k < c ==> widths[k] == 0,
        decreases count - c,
    {
        widths.push(0);
        c += 1;
    }
    let mut r: usize = 0;
    assert(table.take(0) == Seq::<Seq<Seq<char>>>::empty());
    while r < rows.len()
        invariant
            r <= rows.len(),
            table == table_of(texts_of(rows@)),
            has_columns(table, count as nat),
            widths.len() == count,
            forall|k: int| 0 <= k < count ==> widths[k] == column_width(table.take(r as int), k),
        decreases rows.len() - r,
    {
        let cells = split_row(rows[r].as_str());
        let ghost above = table.take(r as int);
        let ghost with_row = table.take(r + 1);
        proof {
            assert(with_row.drop_last() == above);
            assert(with_row.last() == table[r as int]);
            assert(cell_views(cells@) == table[r as int]);
            assert(cell_views(cells@).len() == cells@.len());
        }
        let mut c: usize = 0;
        while c < count
            invariant
                c <= count,
                widths.len() == count,
                cells.len() == count,
                with_row.len() > 0,
                with_row.drop_last() == above,
                with_row.last() == cell_views(cells@),
                forall|k: int| 0 <= k < c ==> widths[k] == column_width(with_row, k),
                forall|k: int| c <= k < count ==> widths[k] == column_width(above, k),
            decreases count - c,
        {
            let len = cells[c].len();
            proof {
                assert(cell_views(cells@)[c as int] == cells@[c as int]@);
                assert(with_row.last()[c as int].len() == len);
                assert(widths[c as int] == column_width(with_row.drop_last(), c as int));
            }
            if widths[c] < len {
                widths.set(c, len);
            }
            assert(widths[c as int] == column_width(with_row, c as int));
            c += 1;
        }
        r += 1;
    }
    assert(table.take(r as int) == table);
    assert(widths_of(widths@) =~= column_widths(table));
    widths
}

/// Appends one line of the table, without a line feed.
fn push_row_line(out: &mut String, cells: &Vec<Vec<char>>, sizes: &[usize])
    requires
        1 <= cells.len() <= sizes.len(),
    ensures
        final(out)@ == old(out)@ + row_line(cell_views(cells@), widths_of(sizes@)),
{
    let ghost texts = cell_views(cells@);
    let ghost widths = widths_of(sizes@);
    let last: usize = cells.len() - 1;
    let mut c: usize = 0;
    assert(old(out)@ + leading_cells(texts, widths, 0) == old(out)@);
    while c < last
        invariant
            c <= last,
            last == cells.len() - 1,
            cells.len() <= sizes.len(),
            texts == cell_views(cells@),
            widths == widths_of(sizes@),
            out@ == old(out)@ + leading_cells(texts, widths, c as nat),
        decreases last - c,
    {
        let ghost so_far = out@;
        let len = cells[c].len();
        push_chars(out, &cells[c]);
        if len < sizes[c] {
            push_spaces(out, sizes[c] - len);
        } else {
            assert(out@ + spaces(0) == out@);
        }
        out.push(' ');
        proof {
            assert(texts[c as int] == cells@[c as int]@);
            assert(widths[c as int] == sizes@[c as int]);
            assert(out@ =~= so_far + (pad_end(texts[c as int], widths[c as int]) + seq![' ']));
            assert(out@ =~= old(out)@ + leading_cells(texts, widths, (c + 1) as nat));
        }
        c += 1;
    }
    push_chars(out, &cells[last]);
    proof {
        assert(texts.last() == cells@[last as int]@);
        assert(texts.len() == cells@.len());
        assert(out@ =~= old(out)@ + row_line(texts, widths));
    }
}

/// Lays out `rows` with the given column widths.
///
/// Each line holds the cells of one row: every cell but the last padded
/// with blanks to the width of its column and followed by one blank, then
/// the last cell, then a line feed.  A cell longer than its column is
/// written whole.  No rows give an empty text.
pub fn sized_rows(rows: &[String], sizes: &[usize]) -> (out: String)
    requires
        has_columns(table_of(texts_of(rows@)), sizes@.len()),
    ensures
        out@ == table_text(table_of(texts_of(rows@)), widths_of(sizes@)),
{
    let ghost table = table_of(texts_of(rows@));
    let mut out = String::new();
    let mut r: usize = 0;
    assert(table.take(0) == Seq::<Seq<Seq<char>>>::empty());
    while r < rows.len()
        invariant
            r <= rows.len(),
            table == table_of(texts_of(rows@)),
            has_columns(table, sizes@.len()),
            out@ == table_text(table.take(r as int), widths_of(sizes@)),
        decreases rows.len() - r,
    {
        let cells = split_row(rows[r].as_str());
        proof {
            assert(table.take(r + 1).drop_last() == table.take(r as int));
            assert(table.take(r + 1).last() == table[r as int]);
            assert(cell_views(cells@) == table[r as int]);
            assert(cell_views(cells@).len() == cells@.len());
        }
        let ghost above = out@;
        push_row_line(&mut out, &cells, sizes);
        out.push('\n');
        assert(out@ =~= above + row_text(table[r as int], widths_of(sizes@)));
        r += 1;
    }
    assert(table.take(r as int) == table);
    out
}

/// Lays out `lines` so that the columns line up: each column is as wide as
/// its longest cell.
pub fn rows(lines: &[String]) -> (out: String)
    requires
        is_uniform(table_of(texts_of(lines@))),
    ensures
        out@ == table_text(table_of(texts_of(lines@)), column_widths(table_of(texts_of(lines@)))),
{
    let widths = measure_columns(lines);
    proof {
        let table = table_of(texts_of(lines@));
        assert(widths_of(widths@).len() == widths@.len());
        if table.len() > 0 {
            assert(column_widths(table).len() == table[0].len());
        }
    }
    sized_rows(lines, widths.as_slice())
}

/// The lines of `rows` laid out with the given column widths, one string
/// for each row and without line feeds.
pub fn sized_lines(rows: &[String], sizes: &[usize]) -> (out: Vec<String>)
    requires
        has_columns(table_of(texts_of(rows@)), sizes@.len()),
    ensures
        texts_of(out@) == table_lines(table_of(texts_of(rows@)), widths_of(sizes@)),
{
    let ghost table = table_of(texts_of(rows@));
    let mut out: Vec<String> = Vec::new();
    let mut r: usize = 0;
    while r < rows.len()
        invariant
            r <= rows.len(),
            table == table_of(texts_of(rows@)),
            has_columns(table, sizes@.len()),
            out.len() == r,
            forall|k: int| 0 <= k < r ==> (#[trigger] out[k])@ == row_line(table[k], widths_of(sizes@)),
        decreases rows.len() - r,
    {
        let cells = split_row(rows[r].as_str());
        proof {
            assert(cell_views(cells@) == table[r as int]);
            assert(cell_views(cells@).len() == cells@.len());
        }
        let mut line = String::new();
        push_row_line(&mut line, &cells, sizes);
        assert(line@ =~= row_line(table[r as int], widths_of(sizes@)));
        out.push(line);
        r += 1;
    }
    assert(texts_of(out@) =~= table_lines(table, widths_of(sizes@)));
    out
}

/// The lines of `rows` laid out so that the columns line up.
pub fn aligned_lines(rows: &[String]) -> (out: Vec<String>)
    requires
        is_uniform(table_of(texts_of(rows@))),
    ensures
        texts_of(out@) == table_lines(
            table_of(texts_of(rows@)),
            column_widths(table_of(texts_of(rows@))),
        ),
{
    let widths = measure_columns(rows);
    proof {
        let table = table_of(texts_of(rows@));
        assert(widths_of(widths@).len() == widths@.len());
        if table.len() > 0 {
            assert(column_widths(table).len() == table[0].len());
        }
    }
    sized_lines(rows, widths.as_slice())
}

} // verus!
