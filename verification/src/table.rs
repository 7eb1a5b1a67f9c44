//! A grid of text with borders.

use vstd::prelude::*;

use crate::text::{
    group_text, pad_left, pad_right, push_padded_left, push_padded_right,
    push_repeated, repeated, views,
};

verus! {

/// Where a cell's text stands in its column.
#[derive(Copy, Clone, Debug, PartialEq, Eq, Structural)]
pub enum Align {
    Left,
    Center,
    Right,
}

/// A header row and some rows of as many cells.
pub struct Grid {
    pub headers: Seq<Seq<char>>,
    pub align: Align,
    pub rows: Seq<Seq<Seq<char>>>,
}

/// `cell` with as many blanks as it takes to fill `width` characters.
pub open spec fn aligned(cell: Seq<char>, width: nat, align: Align) -> Seq<char> {
    match align {
        Align::Left => pad_right(cell, ' ', width),
        Align::Right => pad_left(cell, ' ', width),
        Align::Center => {
            let pad = if cell.len() < width {
                (width - cell.len()) as nat
            } else {
                0
            };
            repeated(' ', pad / 2) + (cell + repeated(' ', (pad - pad / 2) as nat))
        },
    }
}

/// The first `n` cells of a row between bars.
pub open spec fn row_text(cells: Seq<Seq<char>>, widths: Seq<nat>, align: Align, n: int) -> Seq<
    char,
>
    decreases n,
{
    if n <= 0 {
        "|"@
    } else {
        row_text(cells, widths, align, n - 1) + (" "@ + (aligned(
            cells[n - 1],
            widths[n - 1],
            align,
        ) + " |"@))
    }
}

/// A line of dashes under the first `n` columns, with a cross at each border.
pub open spec fn separator(widths: Seq<nat>, n: int) -> Seq<char>
    decreases n,
{
    if n <= 0 {
        "+"@
    } else {
        separator(widths, n - 1) + (repeated('-', widths[n - 1] + 2) + "+"@)
    }
}

impl Grid {
    /// The longest text of column `i` in the headers and the first `n` rows.
    pub open spec fn width(self, i: int, n: int) -> nat
        decreases n,
    {
        if n <= 0 {
            self.headers[i].len()
        } else if self.rows[n - 1][i].len() > self.width(i, n - 1) {
            self.rows[n - 1][i].len()
        } else {
            self.width(i, n - 1)
        }
    }

    /// The width of every column.
    pub open spec fn widths(self) -> Seq<nat> {
        Seq::new(self.headers.len(), |i: int| self.width(i, self.rows.len() as int))
    }

    /// The first `n` rows, one line each.
    pub open spec fn rows_text(self, n: int) -> Seq<char>
        decreases n,
    {
        if n <= 0 {
            Seq::empty()
        } else {
            self.rows_text(n - 1) + (row_text(
                self.rows[n - 1],
                self.widths(),
                self.align,
                self.headers.len() as int,
            ) + "\n"@)
        }
    }

    /// The whole grid: the headers, centred, between two lines of dashes, then
    /// the rows and a last line of dashes. Nothing when there is no column.
    pub open spec fn text(self) -> Seq<char> {
        let cols = self.headers.len() as int;
        let line = separator(self.widths(), cols) + "\n"@;
        if cols == 0 {
            Seq::empty()
        } else {
            line + (row_text(self.headers, self.widths(), Align::Center, cols) + ("\n"@ + (line + (
            self.rows_text(self.rows.len() as int) + line))))
        }
    }

    /// Whether all rows have as many cells as there are headers.
    pub open spec fn rectangular(self) -> bool {
        forall|i: int|
            0 <= i < self.rows.len() ==> (#[trigger] self.rows[i]).len() == self.headers.len()
    }
}

/// `cells`, cut or filled up with empty ones to `n` cells.
pub open spec fn fitted(cells: Seq<Seq<char>>, n: nat) -> Seq<Seq<char>> {
    Seq::new(
        n,
        |i: int|
            if i < cells.len() {
                cells[i]
            } else {
                Seq::<char>::empty()
            },
    )
}

/// A table that is filled row by row and then rendered.
pub struct Table {
    headers: Vec<String>,
    align: Align,
    rows: Vec<Vec<String>>,
}

spec fn row_views(rows: Seq<Vec<String>>) -> Seq<Seq<Seq<char>>> {
    rows.map_values(|row: Vec<String>| views(row@))
}

impl View for Table {
    type V = Grid;

    closed spec fn view(&self) -> Grid {
        Grid { headers: views(self.headers@), align: self.align, rows: row_views(self.rows@) }
    }
}

impl Table {
    #[verifier::type_invariant]
    spec fn is_rectangular(self) -> bool {
        self@.rectangular()
    }

    /// A table without rows. `default_align` holds for the cells of all rows.
    pub fn new(headers: Vec<String>, default_align: Align) -> (r: Self)
        ensures
            r@ == (Grid { headers: views(headers@), align: default_align, rows: Seq::empty() }),
    {
        let rows: Vec<Vec<String>> = Vec::new();
        assert(row_views(rows@) =~= Seq::<Seq<Seq<char>>>::empty());
        Table { headers, align: default_align, rows }
    }

    /// Add a row, with cells cut off or added so that it fits the headers.
    pub fn add_row(&mut self, cells: Vec<String>)
        ensures
            final(self)@.headers == old(self)@.headers,
            final(self)@.align == old(self)@.align,
            final(self)@.rows == old(self)@.rows.push(
                fitted(views(cells@), old(self)@.headers.len()),
            ),
    {
        proof {
            use_type_invariant(&*self);
        }
        let cols: usize = self.headers.len();
        let mut row = cells;
        let ghost given = views(cells@);
        row.truncate(cols);
        while row.len() < cols
            invariant
                row@.len() <= cols,
                given.len() <= row@.len() || row@.len() == cols,
                forall|i: int|
                    0 <= i < row@.len() ==> #[trigger] views(row@)[i] == fitted(given, cols as nat)[i],
            decreases cols - row@.len(),
        {
            let ghost before = row@;
            row.push(String::new());
            assert forall|i: int| 0 <= i < row@.len() implies #[trigger] views(row@)[i] == fitted(
                given,
                cols as nat,
            )[i] by {
                if i < before.len() {
                    assert(views(row@)[i] == views(before)[i]);
                }
            }
        }
        assert(views(row@) =~= fitted(given, cols as nat));
        let ghost old_rows = self@.rows;
        let ghost headers = self@.headers;
        let mut rows: Vec<Vec<String>> = Vec::new();
        std::mem::swap(&mut rows, &mut self.rows);
        let ghost before = rows@;
        rows.push(row);
        assert(row_views(rows@) =~= old_rows.push(fitted(given, cols as nat)));
        self.rows = rows;
    }

    fn column_widths(&self) -> (r: Vec<usize>)
        requires
            self@.rectangular(),
        ensures
            r@.len() == self@.headers.len(),
            forall|i: int| 0 <= i < r@.len() ==> #[trigger] r@[i] == self@.widths()[i],
    {
        let cols: usize = self.headers.len();
        let mut widths: Vec<usize> = Vec::new();
        let mut i: usize = 0;
        while i < cols
            invariant
                i <= cols,
                cols == self.headers@.len(),
                cols == self@.headers.len(),
                self@.rectangular(),
                widths@.len() == i,
                forall|j: int| 0 <= j < i ==> #[trigger] widths@[j] == self@.widths()[j],
            decreases cols - i,
        {
            assert(self@.headers[i as int] == self.headers@[i as int]@);
            let mut width: usize = self.headers[i].as_str().unicode_len();
            let mut k: usize = 0;
            while k < self.rows.len()
                invariant
                    k <= self.rows@.len(),
                    i < cols,
                    cols == self@.headers.len(),
                    self@.rectangular(),
                    width == self@.width(i as int, k as int),
                decreases self.rows@.len() - k,
            {
                let row = &self.rows[k];
                assert(self@.rows[k as int] == views(row@));
                assert(self@.rows[k as int].len() == cols);
                assert(views(row@)[i as int] == row@[i as int]@);
                let cell: usize = row[i].as_str().unicode_len();
                if cell > width {
                    width = cell;
                }
                k += 1;
            }
            widths.push(width);
            i += 1;
        }
        widths
    }

    fn push_rows(&self, widths: &Vec<usize>, out: &mut String)
        requires
            self@.rectangular(),
            widths@.len() == self@.headers.len(),
            forall|i: int| 0 <= i < widths@.len() ==> #[trigger] widths@[i] == self@.widths()[i],
        ensures
            final(out)@ == old(out)@ + self@.rows_text(self@.rows.len() as int),
    {
        let ghost model = self@.widths();
        let ghost start = out@;
        let mut k: usize = 0;
        assert(start + self@.rows_text(0) =~= start);
        while k < self.rows.len()
            invariant
                k <= self.rows@.len(),
                self@.rectangular(),
                model == self@.widths(),
                widths@.len() == self@.headers.len(),
                model.len() == widths@.len(),
                forall|i: int| 0 <= i < widths@.len() ==> #[trigger] widths@[i] == model[i],
                out@ == start + self@.rows_text(k as int),
            decreases self.rows@.len() - k,
        {
            broadcast use group_text;

            assert(self@.rows[k as int] == views(self.rows@[k as int]@));
            push_row(&self.rows[k], widths, self.align, out, Ghost(model));
            out.append("\n");
            k += 1;
        }
    }

    /// The table as text, one line for each row.
    pub fn render(&self) -> (r: String)
        ensures
            r@ == self@.text(),
    {
        broadcast use group_text;

        proof {
            use_type_invariant(self);
        }
        let cols: usize = self.headers.len();
        let mut out = String::new();
        if cols == 0 {
            return out;
        }
        let widths = self.column_widths();
        let ghost model = self@.widths();
        push_separator(&widths, &mut out, Ghost(model));
        push_row(&self.headers, &widths, Align::Center, &mut out, Ghost(model));
        out.append("\n");
        push_separator(&widths, &mut out, Ghost(model));
        self.push_rows(&widths, &mut out);
        push_separator(&widths, &mut out, Ghost(model));
        out
    }
}

fn push_separator(widths: &Vec<usize>, out: &mut String, Ghost(model): Ghost<Seq<nat>>)
    requires
        model.len() == widths@.len(),
        forall|i: int| 0 <= i < widths@.len() ==> #[trigger] widths@[i] == model[i],
    ensures
        final(out)@ == old(out)@ + (separator(model, model.len() as int) + "\n"@),
{
    broadcast use group_text;

    let ghost start = out@;
    out.append("+");
    let mut i: usize = 0;
    while i < widths.len()
        invariant
            i <= widths@.len(),
            model.len() == widths@.len(),
            forall|j: int| 0 <= j < widths@.len() ==> #[trigger] widths@[j] == model[j],
            out@ == start + separator(model, i as int),
        decreases widths@.len() - i,
    {
        broadcast use group_text;

        push_repeated('-', widths[i], out);
        push_repeated('-', 2, out);
        out.append("+");
        assert(repeated('-', model[i as int]) + repeated('-', 2) =~= repeated(
            '-',
            model[i as int] + 2,
        ));
        assert(repeated('-', model[i as int]) + (repeated('-', 2) + "+"@) == repeated(
            '-',
            model[i as int] + 2,
        ) + "+"@);
        i += 1;
    }
    out.append("\n");
}

fn push_cell(cell: &str, width: usize, align: Align, out: &mut String)
    ensures
        final(out)@ == old(out)@ + aligned(cell@, width as nat, align),
{
    broadcast use group_text;

    match align {
        Align::Left => push_padded_right(cell, ' ', width, out),
        Align::Right => push_padded_left(cell, ' ', width, out),
        Align::Center => {
            let len: usize = cell.unicode_len();
            let pad: usize = if len < width {
                width - len
            } else {
                0
            };
            let left: usize = pad / 2;
            push_repeated(' ', left, out);
            out.append(cell);
            push_repeated(' ', pad - left, out);
        },
    }
}

fn push_row(
    cells: &Vec<String>,
    widths: &Vec<usize>,
    align: Align,
    out: &mut String,
    Ghost(model): Ghost<Seq<nat>>,
)
    requires
        cells@.len() == widths@.len(),
        model.len() == widths@.len(),
        forall|i: int| 0 <= i < widths@.len() ==> #[trigger] widths@[i] == model[i],
    ensures
        final(out)@ == old(out)@ + row_text(views(cells@), model, align, model.len() as int),
{
    broadcast use group_text;

    let ghost start = out@;
    out.append("|");
    let mut i: usize = 0;
    while i < cells.len()
        invariant
            i <= cells@.len(),
            cells@.len() == widths@.len(),
            model.len() == widths@.len(),
            forall|j: int| 0 <= j < widths@.len() ==> #[trigger] widths@[j] == model[j],
            out@ == start + row_text(views(cells@), model, align, i as int),
        decreases cells@.len() - i,
    {
        broadcast use group_text;

        assert(views(cells@)[i as int] == cells@[i as int]@);
        out.append(" ");
        push_cell(cells[i].as_str(), widths[i], align, out);
        out.append(" |");
        i += 1;
    }
}

proof fn lemma_aligned_len(cell: Seq<char>, width: nat, align: Align)
    requires
        cell.len() <= width,
    ensures
        aligned(cell, width, align).len() == width,
{
}

proof fn lemma_width_holds_all(grid: Grid, i: int, n: int)
    requires
        0 <= n <= grid.rows.len(),
    ensures
        grid.headers[i].len() <= grid.width(i, n),
        forall|k: int| 0 <= k < n ==> (#[trigger] grid.rows[k])[i].len() <= grid.width(i, n),
    decreases n,
{
    if n > 0 {
        lemma_width_holds_all(grid, i, n - 1);
    }
}

proof fn lemma_row_len(cells: Seq<Seq<char>>, widths: Seq<nat>, align: Align, n: int)
    requires
        0 <= n <= cells.len(),
        cells.len() == widths.len(),
        forall|i: int| 0 <= i < n ==> (#[trigger] cells[i]).len() <= widths[i],
    ensures
        row_text(cells, widths, align, n).len() == separator(widths, n).len(),
    decreases n,
{
    reveal_strlit("|");
    reveal_strlit("+");
    reveal_strlit(" ");
    reveal_strlit(" |");
    if n > 0 {
        lemma_row_len(cells, widths, align, n - 1);
        lemma_aligned_len(cells[n - 1], widths[n - 1], align);
    }
}

/// The lines of a grid are all as long as its lines of dashes.
pub proof fn lemma_lines_align(grid: Grid)
    requires
        grid.rectangular(),
    ensures
        row_text(
            grid.headers,
            grid.widths(),
            Align::Center,
            grid.headers.len() as int,
        ).len() == separator(grid.widths(), grid.headers.len() as int).len(),
        forall|k: int|
            0 <= k < grid.rows.len() ==> row_text(
                #[trigger] grid.rows[k],
                grid.widths(),
                grid.align,
                grid.headers.len() as int,
            ).len() == separator(grid.widths(), grid.headers.len() as int).len(),
{
    let cols = grid.headers.len() as int;
    let count = grid.rows.len() as int;
    assert forall|i: int| 0 <= i < cols implies (#[trigger] grid.headers[i]).len()
        <= grid.widths()[i] by {
        lemma_width_holds_all(grid, i, count);
    }
    lemma_row_len(grid.headers, grid.widths(), Align::Center, cols);
    assert forall|k: int| 0 <= k < grid.rows.len() implies row_text(
        #[trigger] grid.rows[k],
        grid.widths(),
        grid.align,
        cols,
    ).len() == separator(grid.widths(), cols).len() by {
        assert forall|i: int| 0 <= i < cols implies (#[trigger] grid.rows[k][i]).len()
            <= grid.widths()[i] by {
            lemma_width_holds_all(grid, i, count);
        }
        lemma_row_len(grid.rows[k], grid.widths(), grid.align, cols);
    }
}

/// A cell stands whole in its column, with blanks and nothing else around it: at
/// the left edge, at the right edge, or with as many blanks on both sides, where
/// one that is left over goes to the right.
pub proof fn lemma_cell_in_column(cell: Seq<char>, width: nat, align: Align)
    requires
        cell.len() <= width,
    ensures
        ({
            let text = aligned(cell, width, align);
            let spare = width - cell.len();
            let ahead = match align {
                Align::Left => 0,
                Align::Center => spare / 2,
                Align::Right => spare,
            };
            &&& text.len() == width
            &&& forall|j: int| 0 <= j < cell.len() ==> #[trigger] text[ahead + j] == cell[j]
            &&& forall|j: int|
                0 <= j < width && !(ahead <= j < ahead + cell.len()) ==> #[trigger] text[j] == ' '
        }),
{
}

/// Every cell of a row stands in its line, between a bar and a blank in front and a
/// blank and a bar behind, in the order of the columns.
pub proof fn lemma_cells_of_row(
    cells: Seq<Seq<char>>,
    widths: Seq<nat>,
    align: Align,
    n: int,
    i: int,
)
    requires
        0 <= i < n <= cells.len(),
    ensures
        exists|behind: Seq<char>|
            row_text(cells, widths, align, n) == #[trigger] (row_text(cells, widths, align, i)
                + " "@ + aligned(cells[i], widths[i], align) + " |"@ + behind),
        row_text(cells, widths, align, i).last() == '|',
    decreases n,
{
    reveal_strlit("|");
    reveal_strlit(" |");
    let front = row_text(cells, widths, align, i) + " "@ + aligned(cells[i], widths[i], align)
        + " |"@;
    if i == n - 1 {
        assert(row_text(cells, widths, align, n) =~= front + Seq::<char>::empty());
    } else {
        lemma_cells_of_row(cells, widths, align, n - 1, i);
        let behind = choose|behind: Seq<char>|
            row_text(cells, widths, align, n - 1) == #[trigger] (front + behind);
        let more = behind + (" "@ + (aligned(cells[n - 1], widths[n - 1], align) + " |"@));
        assert(row_text(cells, widths, align, n) =~= front + more);
    }
}

/// Every row has its line in a grid, behind those of the rows before it.
pub proof fn lemma_rows_of_grid(grid: Grid, n: int, k: int)
    requires
        0 <= k < n <= grid.rows.len(),
    ensures
        exists|behind: Seq<char>|
            grid.rows_text(n) == #[trigger] (grid.rows_text(k) + row_text(
                grid.rows[k],
                grid.widths(),
                grid.align,
                grid.headers.len() as int,
            ) + "\n"@ + behind),
    decreases n,
{
    let cols = grid.headers.len() as int;
    let front = grid.rows_text(k) + row_text(grid.rows[k], grid.widths(), grid.align, cols)
        + "\n"@;
    if k == n - 1 {
        assert(grid.rows_text(n) =~= front + Seq::<char>::empty());
    } else {
        lemma_rows_of_grid(grid, n - 1, k);
        let behind = choose|behind: Seq<char>|
            grid.rows_text(n - 1) == #[trigger] (front + behind);
        let more = behind + (row_text(grid.rows[n - 1], grid.widths(), grid.align, cols) + "\n"@);
        assert(grid.rows_text(n) =~= front + more);
    }
}

/// A column is as wide as its longest text: no text of it is longer, and one is as
/// long.
pub proof fn lemma_column_width(grid: Grid, i: int)
    requires
        grid.rectangular(),
        0 <= i < grid.headers.len(),
    ensures
        grid.headers[i].len() <= grid.widths()[i],
        forall|k: int|
            0 <= k < grid.rows.len() ==> (#[trigger] grid.rows[k])[i].len() <= grid.widths()[i],
        grid.widths()[i] == grid.headers[i].len() || exists|k: int|
            0 <= k < grid.rows.len() && (#[trigger] grid.rows[k])[i].len() == grid.widths()[i],
{
    lemma_width_holds_all(grid, i, grid.rows.len() as int);
    lemma_width_is_met(grid, i, grid.rows.len() as int);
}

proof fn lemma_width_is_met(grid: Grid, i: int, n: int)
    requires
        0 <= n <= grid.rows.len(),
    ensures
        grid.width(i, n) == grid.headers[i].len() || exists|k: int|
            0 <= k < n && (#[trigger] grid.rows[k])[i].len() == grid.width(i, n),
    decreases n,
{
    if n > 0 {
        lemma_width_is_met(grid, i, n - 1);
        if grid.rows[n - 1][i].len() > grid.width(i, n - 1) {
            assert(grid.rows[n - 1][i].len() == grid.width(i, n));
        }
    }
}

} // verus!
