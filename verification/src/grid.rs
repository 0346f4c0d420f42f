//! A row-major grid of cells and the full rendering pass: per-row heights,
//! per-column widths, per-cell border suppression at interior seams, and the
//! composition of the formatted blocks into one block of text.

use vstd::prelude::*;

use crate::cell::{cell_height, cell_weight, default_cell, Cell, CellModel};
use crate::formatter::{edge_fits, format_spec, CellFormatter, PlanModel};
use crate::text::{
    chars_of, copy_chars, join_lines, join_lines_exec, lines_model, nl, push_all, push_char,
    split_lines, split_lines_exec, string_of,
};

verus! {

/// The mathematical value of a [`Grid`]: its shape and the value of every
/// cell, row-major.
#[verifier::ext_equal]
pub ghost struct GridModel {
    pub rows: nat,
    pub cols: nat,
    pub cells: Seq<CellModel>,
}

/// The views of a sequence of cells.
pub open spec fn cells_model(s: Seq<Cell>) -> Seq<CellModel> {
    Seq::new(s.len(), |k: int| s[k]@)
}

/// The views of a sequence of strings.
pub open spec fn strs_model(s: Seq<String>) -> Seq<Seq<char>> {
    Seq::new(s.len(), |k: int| s[k]@)
}

/// The backing store holds exactly rows x columns cells.
pub open spec fn grid_wf(g: GridModel) -> bool {
    g.cells.len() == g.rows * g.cols
}

/// The cell at row `i`, column `j`.
pub open spec fn cell_at(g: GridModel, i: int, j: int) -> CellModel {
    g.cells[i * g.cols + j]
}

/// The largest cell height among the first `m` cells of row `i`.
pub open spec fn row_height_upto(g: GridModel, i: int, m: int) -> nat
    decreases m,
{
    if m <= 0 {
        0
    } else {
        let rest = row_height_upto(g, i, m - 1);
        let h = cell_height(cell_at(g, i, m - 1));
        if h > rest {
            h
        } else {
            rest
        }
    }
}

/// The height row `i` is stretched to: the largest cell height in it.
pub open spec fn row_height(g: GridModel, i: int) -> nat {
    row_height_upto(g, i, g.cols as int)
}

/// The largest cell weight among the first `m` cells of column `j`.
pub open spec fn col_weight_upto(g: GridModel, j: int, m: int) -> nat
    decreases m,
{
    if m <= 0 {
        0
    } else {
        let rest = col_weight_upto(g, j, m - 1);
        let w = cell_weight(cell_at(g, m - 1, j));
        if w > rest {
            w
        } else {
            rest
        }
    }
}

/// The width column `j` is stretched to: the largest cell weight in it.
pub open spec fn col_weight(g: GridModel, j: int) -> nat {
    col_weight_upto(g, j, g.rows as int)
}

/// The plan cell `(i, j)` is formatted under: boxed, stretched to its row's
/// height and its column's width, with the top edge suppressed below the
/// first row and the left edge and left connection suppressed right of the
/// first column, so interior seams are drawn once.
pub open spec fn grid_plan(g: GridModel, i: int, j: int) -> PlanModel {
    PlanModel {
        left: j == 0,
        right: true,
        top: i == 0,
        bottom: true,
        left_connection: j == 0,
        right_connection: true,
        weight: col_weight(g, j),
        height: row_height(g, i),
    }
}

/// The block cell `(i, j)` contributes to the output.
pub open spec fn fmt_cell(g: GridModel, i: int, j: int) -> Seq<char> {
    format_spec(cell_at(g, i, j), grid_plan(g, i, j))
}

/// The formatted blocks of row `i`, in column order.
pub open spec fn row_fmt(g: GridModel, i: int) -> Seq<Seq<char>> {
    Seq::new(g.cols, |j: int| fmt_cell(g, i, j))
}

/// Two blocks merged line by line.
pub open spec fn zip_cat(a: Seq<Seq<char>>, b: Seq<Seq<char>>) -> Seq<Seq<char>> {
    Seq::new(a.len(), |k: int| a[k] + b[k])
}

/// Two multi-line texts merged line by line and joined back.
pub open spec fn concat_lines_spec(a: Seq<char>, b: Seq<char>) -> Seq<char> {
    join_lines(zip_cat(split_lines(a), split_lines(b)))
}

/// The first `m` blocks of a row merged left to right.
pub open spec fn concat_row_upto(ss: Seq<Seq<char>>, m: int) -> Seq<char>
    decreases m,
{
    if m <= 0 {
        Seq::empty()
    } else if m == 1 {
        ss[0]
    } else {
        concat_lines_spec(concat_row_upto(ss, m - 1), ss[m - 1])
    }
}

/// A whole row of blocks merged left to right; empty for an empty row.
pub open spec fn concat_row_spec(ss: Seq<Seq<char>>) -> Seq<char> {
    concat_row_upto(ss, ss.len() as int)
}

/// At every merge step the two sides have the same number of lines; merging
/// texts of different line counts is a programming error that aborts.
pub open spec fn row_compatible(ss: Seq<Seq<char>>) -> bool {
    forall|k: int|
        1 <= k < ss.len() ==> split_lines(#[trigger] concat_row_upto(ss, k)).len() == split_lines(
            ss[k],
        ).len()
}

/// One row of the output: its cells' blocks merged left to right.
pub open spec fn row_string(g: GridModel, i: int) -> Seq<char> {
    concat_row_spec(row_fmt(g, i))
}

/// The output from row `i` on: each row's merged block followed by a line
/// break.
pub open spec fn render_from(g: GridModel, i: int) -> Seq<char>
    decreases g.rows - i,
{
    if i < 0 || i >= g.rows {
        Seq::empty()
    } else {
        row_string(g, i) + seq![nl()] + render_from(g, i + 1)
    }
}

/// The whole output; a grid with no rows or no columns renders to the empty
/// text.
pub open spec fn render_spec(g: GridModel) -> Seq<char> {
    if g.rows == 0 || g.cols == 0 {
        Seq::empty()
    } else {
        render_from(g, 0)
    }
}

/// Rendering neither aborts nor overflows: every row merges blocks of equal
/// line counts, and every border line's span fits the machine word.
pub open spec fn render_ok(g: GridModel) -> bool {
    &&& forall|i: int| 0 <= i < g.rows ==> row_compatible(#[trigger] row_fmt(g, i))
    &&& forall|i: int, j: int|
        0 <= i < g.rows && 0 <= j < g.cols ==> edge_fits(
            #[trigger] cell_at(g, i, j),
            grid_plan(g, i, j),
        )
}

broadcast proof fn lemma_cells_model_update(s: Seq<Cell>, k: int, v: Cell)
    requires
        0 <= k < s.len(),
    ensures
        #[trigger] cells_model(s.update(k, v)) == cells_model(s).update(k, v@),
{
    assert(cells_model(s.update(k, v)) =~= cells_model(s).update(k, v@));
}

/// A row-major matrix of cells with a fixed shape.
pub struct Grid {
    size: (usize, usize),
    cells: Vec<Cell>,
}

impl View for Grid {
    type V = GridModel;

    closed spec fn view(&self) -> GridModel {
        GridModel {
            rows: self.size.0 as nat,
            cols: self.size.1 as nat,
            cells: cells_model(self.cells@),
        }
    }
}

impl Grid {
    /// A grid of `rows` x `columns` default cells; either count may be 0.
    pub fn new(rows: usize, columns: usize) -> (r: Self)
        requires
            rows * columns <= usize::MAX,
        ensures
            r@.rows == rows,
            r@.cols == columns,
            grid_wf(r@),
            forall|k: int| 0 <= k < r@.cells.len() ==> r@.cells[k] == default_cell(),
    {
        let total: usize = rows * columns;
        let mut cells: Vec<Cell> = Vec::new();
        let mut k: usize = 0;
        while k < total
            invariant
                k <= total,
                cells@.len() == k,
                forall|x: int| 0 <= x < k ==> cells@[x]@ == default_cell(),
            decreases total - k,
        {
            cells.push(Cell::new());
            k += 1;
        }
        Grid { size: (rows, columns), cells }
    }

    /// The number of rows.
    pub fn count_rows(&self) -> (r: usize)
        ensures
            r as nat == self@.rows,
    {
        self.size.0
    }

    /// The number of columns.
    pub fn count_columns(&self) -> (r: usize)
        ensures
            r as nat == self@.cols,
    {
        self.size.1
    }

    /// A mutable handle on the cell at `(i, j)`; the position must be in
    /// range.
    pub fn cell(&mut self, i: usize, j: usize) -> (c: &mut Cell)
        requires
            grid_wf(old(self)@),
            i < old(self)@.rows,
            j < old(self)@.cols,
        ensures
            (*c)@ == cell_at(old(self)@, i as int, j as int),
            final(self)@.rows == old(self)@.rows,
            final(self)@.cols == old(self)@.cols,
            final(self)@.cells == old(self)@.cells.update(
                i as int * old(self)@.cols + j,
                (*final(c))@,
            ),
            grid_wf(final(self)@),
    {
        let n = self.cells.len();
        proof {
            broadcast use lemma_cells_model_update;

            let r = self.size.0 as int;
            let cc = self.size.1 as int;
            assert(cells_model(self.cells@).len() == self.cells@.len());
            assert(n == r * cc);
            assert(cc * (i as int) + j < r * cc && cc * (i as int) >= 0) by (nonlinear_arith)
                requires
                    0 <= (i as int) < r,
                    0 <= (j as int) < cc,
            ;
        }
        let index: usize = self.size.1 * i + j;
        &mut self.cells[index]
    }

    /// Borrows the cell at `(i, j)`.
    pub fn cell_ref(&self, i: usize, j: usize) -> (c: &Cell)
        requires
            grid_wf(self@),
            i < self@.rows,
            j < self@.cols,
        ensures
            c@ == cell_at(self@, i as int, j as int),
    {
        let n = self.cells.len();
        proof {
            let r = self.size.0 as int;
            let cc = self.size.1 as int;
            assert(cells_model(self.cells@).len() == self.cells@.len());
            assert(n == r * cc);
            assert(cc * (i as int) + j < r * cc && cc * (i as int) >= 0) by (nonlinear_arith)
                requires
                    0 <= (i as int) < r,
                    0 <= (j as int) < cc,
            ;
        }
        let index: usize = self.size.1 * i + j;
        &self.cells[index]
    }

    /// The cells of row `i`, in column order.
    pub fn row(&self, i: usize) -> (r: Vec<Cell>)
        requires
            grid_wf(self@),
            i < self@.rows,
        ensures
            r@.len() == self@.cols,
            forall|j: int| 0 <= j < self@.cols ==> r@[j]@ == cell_at(self@, i as int, j),
    {
        let cols = self.size.1;
        let mut r: Vec<Cell> = Vec::new();
        let mut j: usize = 0;
        while j < cols
            invariant
                j <= cols,
                grid_wf(self@),
                i < self@.rows,
                cols as nat == self@.cols,
                r@.len() == j,
                forall|x: int| 0 <= x < j ==> r@[x]@ == cell_at(self@, i as int, x),
            decreases cols - j,
        {
            r.push(self.cell_ref(i, j).clone());
            j += 1;
        }
        r
    }

    /// The cells of column `j`, in row order.
    pub fn column(&self, j: usize) -> (r: Vec<Cell>)
        requires
            grid_wf(self@),
            j < self@.cols,
        ensures
            r@.len() == self@.rows,
            forall|i: int| 0 <= i < self@.rows ==> r@[i]@ == cell_at(self@, i, j as int),
    {
        let rows = self.size.0;
        let mut r: Vec<Cell> = Vec::new();
        let mut i: usize = 0;
        while i < rows
            invariant
                i <= rows,
                grid_wf(self@),
                j < self@.cols,
                rows as nat == self@.rows,
                r@.len() == i,
                forall|x: int| 0 <= x < i ==> r@[x]@ == cell_at(self@, x, j as int),
            decreases rows - i,
        {
            r.push(self.cell_ref(i, j).clone());
            i += 1;
        }
        r
    }

    /// Every row of cells, in row order.
    pub fn rows(&self) -> (r: Vec<Vec<Cell>>)
        requires
            grid_wf(self@),
        ensures
            r@.len() == self@.rows,
            forall|i: int| 0 <= i < self@.rows ==> (#[trigger] r@[i])@.len() == self@.cols,
            forall|i: int, j: int|
                0 <= i < self@.rows && 0 <= j < self@.cols ==> (#[trigger] r@[i]@[j])@ == cell_at(
                    self@,
                    i,
                    j,
                ),
    {
        let rows = self.size.0;
        let mut r: Vec<Vec<Cell>> = Vec::new();
        let mut i: usize = 0;
        while i < rows
            invariant
                i <= rows,
                grid_wf(self@),
                rows as nat == self@.rows,
                r@.len() == i,
                forall|x: int| 0 <= x < i ==> (#[trigger] r@[x])@.len() == self@.cols,
                forall|x: int, j: int|
                    0 <= x < i && 0 <= j < self@.cols ==> (#[trigger] r@[x]@[j])@ == cell_at(
                        self@,
                        x,
                        j,
                    ),
            decreases rows - i,
        {
            let ghost before = r@;
            let rw = self.row(i);
            r.push(rw);
            proof {
                assert forall|x: int, j: int|
                    0 <= x < i + 1 && 0 <= j < self@.cols implies (#[trigger] r@[x]@[j])@
                    == cell_at(self@, x, j) by {
                    if x == i {
                        assert(r@[x] == rw);
                    } else {
                        assert(r@[x] == before[x]);
                    }
                }
            }
            i += 1;
        }
        r
    }

    /// Every column of cells, in column order.
    pub fn columns(&self) -> (r: Vec<Vec<Cell>>)
        requires
            grid_wf(self@),
        ensures
            r@.len() == self@.cols,
            forall|j: int| 0 <= j < self@.cols ==> (#[trigger] r@[j])@.len() == self@.rows,
            forall|j: int, i: int|
                0 <= j < self@.cols && 0 <= i < self@.rows ==> (#[trigger] r@[j]@[i])@ == cell_at(
                    self@,
                    i,
                    j,
                ),
    {
        let cols = self.size.1;
        let mut r: Vec<Vec<Cell>> = Vec::new();
        let mut j: usize = 0;
        while j < cols
            invariant
                j <= cols,
                grid_wf(self@),
                cols as nat == self@.cols,
                r@.len() == j,
                forall|x: int| 0 <= x < j ==> (#[trigger] r@[x])@.len() == self@.rows,
                forall|x: int, i: int|
                    0 <= x < j && 0 <= i < self@.rows ==> (#[trigger] r@[x]@[i])@ == cell_at(
                        self@,
                        i,
                        x,
                    ),
            decreases cols - j,
        {
            let ghost before = r@;
            let cl = self.column(j);
            r.push(cl);
            proof {
                assert forall|x: int, i: int|
                    0 <= x < j + 1 && 0 <= i < self@.rows implies (#[trigger] r@[x]@[i])@
                    == cell_at(self@, i, x) by {
                    if x == j {
                        assert(r@[x] == cl);
                    } else {
                        assert(r@[x] == before[x]);
                    }
                }
            }
            j += 1;
        }
        r
    }

    /// Renders the grid: row heights and column widths are computed, every
    /// cell is formatted under its seam-suppressing plan, each row's blocks
    /// are merged line by line, and the rows are joined, each followed by a
    /// line break.
    pub fn render(&self) -> (r: String)
        requires
            grid_wf(self@),
            render_ok(self@),
        ensures
            r@ == render_spec(self@),
    {
        let ghost g = self@;
        let rows = self.size.0;
        let cols = self.size.1;
        if rows == 0 || cols == 0 {
            return String::new();
        }

        // Row heights.
        let mut heights: Vec<usize> = Vec::new();
        let mut i: usize = 0;
        while i < rows
            invariant
                i <= rows,
                g == self@,
                grid_wf(g),
                rows as nat == g.rows,
                cols as nat == g.cols,
                cols >= 1,
                heights@.len() == i,
                forall|x: int| 0 <= x < i ==> heights@[x] as nat == row_height(g, x),
            decreases rows - i,
        {
            let mut h: usize = 0;
            let mut j: usize = 0;
            while j < cols
                invariant
                    j <= cols,
                    i < rows,
                    g == self@,
                    grid_wf(g),
                    rows as nat == g.rows,
                    cols as nat == g.cols,
                    h as nat == row_height_upto(g, i as int, j as int),
                decreases cols - j,
            {
                let ch = self.cell_ref(i, j).height();
                if ch > h {
                    h = ch;
                }
                j += 1;
            }
            heights.push(h);
            i += 1;
        }

        // Column widths.
        let mut widths: Vec<usize> = Vec::new();
        let mut j: usize = 0;
        while j < cols
            invariant
                j <= cols,
                g == self@,
                grid_wf(g),
                rows as nat == g.rows,
                cols as nat == g.cols,
                rows >= 1,
                widths@.len() == j,
                forall|x: int| 0 <= x < j ==> widths@[x] as nat == col_weight(g, x),
            decreases cols - j,
        {
            let mut w: usize = 0;
            let mut i2: usize = 0;
            while i2 < rows
                invariant
                    i2 <= rows,
                    j < cols,
                    g == self@,
                    grid_wf(g),
                    rows as nat == g.rows,
                    cols as nat == g.cols,
                    w as nat == col_weight_upto(g, j as int, i2 as int),
                decreases rows - i2,
            {
                let cw = self.cell_ref(i2, j).weight();
                if cw > w {
                    w = cw;
                }
                i2 += 1;
            }
            widths.push(w);
            j += 1;
        }

        // Format every cell, merge each row, join the rows.
        let mut out = String::new();
        let mut i: usize = 0;
        proof {
            assert(Seq::<char>::empty() + render_from(g, 0) =~= render_from(g, 0));
        }
        while i < rows
            invariant
                i <= rows,
                g == self@,
                grid_wf(g),
                render_ok(g),
                rows as nat == g.rows,
                cols as nat == g.cols,
                rows >= 1,
                cols >= 1,
                heights@.len() == rows,
                widths@.len() == cols,
                forall|x: int| 0 <= x < rows ==> heights@[x] as nat == row_height(g, x),
                forall|x: int| 0 <= x < cols ==> widths@[x] as nat == col_weight(g, x),
                out@ + render_from(g, i as int) == render_from(g, 0),
            decreases rows - i,
        {
            let mut fmt_row: Vec<String> = Vec::new();
            let mut j: usize = 0;
            while j < cols
                invariant
                    j <= cols,
                    i < rows,
                    g == self@,
                    grid_wf(g),
                    render_ok(g),
                    rows as nat == g.rows,
                    cols as nat == g.cols,
                    heights@.len() == rows,
                    widths@.len() == cols,
                    forall|x: int| 0 <= x < rows ==> heights@[x] as nat == row_height(g, x),
                    forall|x: int| 0 <= x < cols ==> widths@[x] as nat == col_weight(g, x),
                    fmt_row@.len() == j,
                    forall|x: int| 0 <= x < j ==> fmt_row@[x]@ == fmt_cell(g, i as int, x),
                decreases cols - j,
            {
                let mut f = CellFormatter::new().weight(widths[j]).height(heights[i]).boxed();
                if j != 0 {
                    f = f.un_left().un_left_connection();
                }
                if i != 0 {
                    f = f.un_top();
                }
                proof {
                    assert(f@ =~= grid_plan(g, i as int, j as int));
                }
                let block = f.format(self.cell_ref(i, j));
                fmt_row.push(block);
                j += 1;
            }
            proof {
                assert(strs_model(fmt_row@) =~= row_fmt(g, i as int));
            }
            let merged = concat_row(&fmt_row);
            let ghost before = out@;
            out.append(merged.as_str());
            push_char(&mut out, '\n');
            proof {
                assert(render_from(g, i as int) == row_string(g, i as int) + seq![nl()]
                    + render_from(g, i + 1));
                assert(before + (row_string(g, i as int) + seq![nl()] + render_from(g, i + 1))
                    =~= out@ + render_from(g, i + 1));
            }
            i += 1;
        }
        proof {
            assert(render_from(g, rows as int) =~= Seq::<char>::empty());
            assert(out@ + Seq::<char>::empty() =~= out@);
        }
        out
    }
}

/// Merges two multi-line texts line by line: the k-th output line is the k-th
/// line of `a` followed by the k-th line of `b`. The two texts must hold the
/// same number of lines.
pub fn concat_lines(a: &str, b: &str) -> (r: String)
    requires
        split_lines(a@).len() == split_lines(b@).len(),
    ensures
        r@ == concat_lines_spec(a@, b@),
{
    let av = chars_of(a);
    let bv = chars_of(b);
    let al = split_lines_exec(&av);
    let bl = split_lines_exec(&bv);
    let mut merged: Vec<Vec<char>> = Vec::new();
    let mut k: usize = 0;
    while k < al.len()
        invariant
            k <= al.len(),
            al@.len() == bl@.len(),
            lines_model(al@) == split_lines(a@),
            lines_model(bl@) == split_lines(b@),
            merged@.len() == k,
            forall|x: int| 0 <= x < k ==> merged@[x]@ == zip_cat(split_lines(a@), split_lines(b@))[x],
        decreases al.len() - k,
    {
        let mut m = copy_chars(&al[k]);
        push_all(&mut m, &bl[k]);
        merged.push(m);
        k += 1;
    }
    proof {
        assert(lines_model(merged@) =~= zip_cat(split_lines(a@), split_lines(b@)));
    }
    let joined = join_lines_exec(&merged);
    string_of(&joined)
}

/// Merges a whole row of multi-line texts left to right; an empty row merges
/// to the empty text. Every merge step needs equal line counts.
pub fn concat_row(row: &Vec<String>) -> (r: String)
    requires
        row_compatible(strs_model(row@)),
    ensures
        r@ == concat_row_spec(strs_model(row@)),
{
    let ghost model = strs_model(row@);
    if row.len() == 0 {
        return String::new();
    }
    let mut acc: String = row[0].clone();
    let mut k: usize = 1;
    while k < row.len()
        invariant
            1 <= k <= row.len(),
            model == strs_model(row@),
            model.len() == row@.len(),
            row_compatible(model),
            acc@ == concat_row_upto(model, k as int),
        decreases row.len() - k,
    {
        acc = concat_lines(acc.as_str(), row[k].as_str());
        k += 1;
    }
    acc
}

} // verus!
