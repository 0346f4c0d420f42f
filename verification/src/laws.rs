//! General properties of the renderer, stated over the same models the
//! functions' contracts use and proved once and for all.

use vstd::prelude::*;

use crate::cell::{cell_height, cell_weight, CellModel};
use crate::formatter::{
    align_spec, body_lines, decorate_line, edge_line, format_lines, format_spec, height_pad,
    padded_content, PlanModel,
};
use crate::grid::{
    cell_at, col_weight, col_weight_upto, concat_lines_spec, concat_row_upto, fmt_cell, grid_plan,
    grid_wf, render_from, render_spec, row_compatible, row_fmt, row_height, row_height_upto,
    row_string, zip_cat, GridModel,
};
use crate::text::{
    empty_lines, join_lines, lemma_nl_free_concat, lemma_repeat_seq_nl_free,
    lemma_split_append_nls, lemma_split_from_append, lemma_split_join, lemma_split_join_terminated,
    lemma_split_lines_nl_free, nl, nl_free, nl_free_all, repeat_char, split_lines,
};

verus! {

/// A cell whose vertical extent is exactly its line count: no vertical
/// padding, no trailing line break, border glyphs free of line breaks, a
/// drawable corner, and empty content only where the whole row is empty.
pub open spec fn plain_cell(c: CellModel, h: nat) -> bool {
    &&& c.ident_top == 0
    &&& c.ident_bottom == 0
    &&& (c.content.len() > 0 ==> c.content.last() != nl())
    &&& (c.content.len() == 0 ==> h == 0)
    &&& nl_free(c.top)
    &&& nl_free(c.bottom)
    &&& nl_free(c.left)
    &&& nl_free(c.right)
    &&& nl_free(c.corner)
    &&& c.corner.len() > 0
}

/// Every cell of the grid is plain with respect to its row's height.
pub open spec fn plain_rows(g: GridModel) -> bool {
    forall|i: int, j: int|
        0 <= i < g.rows && 0 <= j < g.cols ==> plain_cell(
            #[trigger] cell_at(g, i, j),
            row_height(g, i),
        )
}

/// The heights of the rows from row `i` on, added up.
pub open spec fn sum_heights_from(g: GridModel, i: int) -> nat
    decreases g.rows - i,
{
    if i < 0 || i >= g.rows {
        0
    } else {
        row_height(g, i) + sum_heights_from(g, i + 1)
    }
}

/// How many lines every block of row `i` holds: the row's height, a bottom
/// border line, and a top border line on the first row only.
pub open spec fn row_block_lines(g: GridModel, i: int) -> nat {
    (if i == 0 {
        1nat
    } else {
        0nat
    }) + row_height(g, i) + 1
}

/// A multi-line text of exactly `l` lines that round-trips through its
/// lines: joining them gives the text back, and the last one is nonempty.
pub open spec fn block_ok(t: Seq<char>, l: nat) -> bool {
    &&& split_lines(t).len() == l
    &&& l >= 1
    &&& split_lines(t).last().len() > 0
    &&& join_lines(split_lines(t)) == t
}

proof fn lemma_spaces_nl_free(n: nat)
    ensures
        nl_free(repeat_char(' ', n)),
{
}

proof fn lemma_align_nl_free(l: Seq<char>, a: crate::cell::Alignment, w: nat)
    requires
        nl_free(l),
    ensures
        nl_free(align_spec(l, a, w)),
{
    if l.len() >= w {
    } else {
        let pad = (w - l.len()) as nat;
        lemma_spaces_nl_free(pad);
        lemma_spaces_nl_free(pad / 2);
        lemma_spaces_nl_free((pad - pad / 2) as nat);
        lemma_nl_free_concat(l, repeat_char(' ', pad));
        lemma_nl_free_concat(repeat_char(' ', pad), l);
        lemma_nl_free_concat(repeat_char(' ', pad / 2), l);
        lemma_nl_free_concat(
            repeat_char(' ', pad / 2) + l,
            repeat_char(' ', (pad - pad / 2) as nat),
        );
    }
}

proof fn lemma_decorate_nl_free(l: Seq<char>, c: CellModel, p: PlanModel)
    requires
        nl_free(l),
        nl_free(c.left),
        nl_free(c.right),
    ensures
        nl_free(decorate_line(l, c, p)),
{
    let aligned = align_spec(l, c.alignment, crate::formatter::effective_width(c, p));
    lemma_align_nl_free(l, c.alignment, crate::formatter::effective_width(c, p));
    lemma_spaces_nl_free(c.ident_left);
    lemma_spaces_nl_free(c.ident_right);
    lemma_nl_free_concat(repeat_char(' ', c.ident_left), aligned);
    lemma_nl_free_concat(repeat_char(' ', c.ident_left) + aligned, repeat_char(' ', c.ident_right));
    let inner = repeat_char(' ', c.ident_left) + aligned + repeat_char(' ', c.ident_right);
    let lb = if p.left {
        c.left
    } else {
        Seq::<char>::empty()
    };
    let rb = if p.right {
        c.right
    } else {
        Seq::<char>::empty()
    };
    assert(nl_free(lb));
    assert(nl_free(rb));
    lemma_nl_free_concat(lb, inner);
    lemma_nl_free_concat(lb + inner, rb);
}

proof fn lemma_edge_nl_free(glyph: Seq<char>, c: CellModel, p: PlanModel)
    requires
        nl_free(glyph),
        nl_free(c.corner),
    ensures
        nl_free(edge_line(glyph, c, p)),
{
    let lhs = if p.left_connection {
        c.corner
    } else {
        Seq::<char>::empty()
    };
    let rhs = if p.right_connection {
        c.corner
    } else {
        Seq::<char>::empty()
    };
    lemma_repeat_seq_nl_free(glyph, crate::formatter::edge_span(c, p));
    lemma_nl_free_concat(lhs, crate::text::repeat_seq(glyph, crate::formatter::edge_span(c, p)));
    lemma_nl_free_concat(
        lhs + crate::text::repeat_seq(glyph, crate::formatter::edge_span(c, p)),
        rhs,
    );
}

/// A formatted block with a bottom border and a right connection splits back
/// into exactly the lines it was joined from.
proof fn lemma_format_block(c: CellModel, p: PlanModel)
    requires
        p.bottom,
        p.right_connection,
        nl_free(c.top),
        nl_free(c.bottom),
        nl_free(c.left),
        nl_free(c.right),
        nl_free(c.corner),
        c.corner.len() > 0,
    ensures
        split_lines(format_spec(c, p)) == format_lines(c, p),
        format_lines(c, p).len() == (if p.top {
            1int
        } else {
            0int
        }) + split_lines(padded_content(c, p)).len() + 1,
        nl_free_all(format_lines(c, p)),
        format_lines(c, p).last().len() > 0,
{
    let src = split_lines(padded_content(c, p));
    let body = body_lines(c, p);
    lemma_split_lines_nl_free(padded_content(c, p));
    assert forall|k: int| 0 <= k < body.len() implies nl_free(#[trigger] body[k]) by {
        lemma_decorate_nl_free(src[k], c, p);
    }
    lemma_edge_nl_free(c.top, c, p);
    lemma_edge_nl_free(c.bottom, c, p);
    let fl = format_lines(c, p);
    let bottom = edge_line(c.bottom, c, p);
    assert(bottom.len() > 0) by {
        let rhs = c.corner;
        assert(bottom.len() >= rhs.len());
    }
    assert(fl.last() == bottom);
    assert(nl_free_all(fl)) by {
        let with_top = if p.top {
            seq![edge_line(c.top, c, p)] + body
        } else {
            body
        };
        assert forall|k: int| 0 <= k < fl.len() implies nl_free(#[trigger] fl[k]) by {
            if k == fl.len() - 1 {
                assert(fl[k] == bottom);
            } else {
                assert(fl[k] == with_top[k]);
                if p.top {
                    if k == 0 {
                        assert(with_top[k] == edge_line(c.top, c, p));
                    } else {
                        assert(with_top[k] == body[k - 1]);
                    }
                }
            }
        }
    }
    lemma_split_join(fl);
}

/// A plain cell stretched to a height at least its own line count has
/// exactly the target number of content lines after padding.
proof fn lemma_padded_count(c: CellModel, p: PlanModel)
    requires
        c.ident_top == 0,
        c.ident_bottom == 0,
        c.content.len() > 0 ==> c.content.last() != nl(),
        c.content.len() == 0 ==> p.height == 0,
        cell_height(c) <= p.height,
    ensures
        split_lines(padded_content(c, p)).len() == p.height,
{
    let n = split_lines(c.content).len();
    assert(padded_content(c, p) =~= c.content + repeat_char(nl(), height_pad(c, p)));
    if n < p.height {
        assert(c.content.len() > 0);
        let pad = height_pad(c, p);
        assert(pad == p.height - n + 1);
        lemma_split_append_nls(c.content, pad);
        assert(split_lines(c.content + repeat_char(nl(), pad)).len() == n + pad - 1);
    } else {
        assert(height_pad(c, p) == 0);
        assert(padded_content(c, p) =~= c.content);
    }
}

/// No cell of a row is taller than the row.
proof fn lemma_row_height_bound(g: GridModel, i: int, j: int, m: int)
    requires
        0 <= j < m,
    ensures
        cell_height(cell_at(g, i, j)) <= row_height_upto(g, i, m),
    decreases m,
{
    if j < m - 1 {
        lemma_row_height_bound(g, i, j, m - 1);
    }
}

/// Merging two blocks of `l` lines line by line gives a block of `l` lines
/// whose lines are the pairwise concatenations.
proof fn lemma_concat_blocks(a: Seq<char>, b: Seq<char>, l: nat)
    requires
        block_ok(a, l),
        block_ok(b, l),
    ensures
        block_ok(concat_lines_spec(a, b), l),
        split_lines(concat_lines_spec(a, b)) == zip_cat(split_lines(a), split_lines(b)),
{
    let za = split_lines(a);
    let zb = split_lines(b);
    let z = zip_cat(za, zb);
    lemma_split_lines_nl_free(a);
    lemma_split_lines_nl_free(b);
    assert forall|k: int| 0 <= k < z.len() implies nl_free(#[trigger] z[k]) by {
        lemma_nl_free_concat(za[k], zb[k]);
    }
    assert(z.last() == za.last() + zb.last());
    assert(z.last().len() > 0);
    lemma_split_join(z);
}

/// Merging the first `m` blocks of a row of `l`-line blocks gives an
/// `l`-line block.
proof fn lemma_concat_row_blocks(ss: Seq<Seq<char>>, l: nat, m: int)
    requires
        1 <= m <= ss.len(),
        forall|j: int| 0 <= j < ss.len() ==> block_ok(#[trigger] ss[j], l),
    ensures
        block_ok(concat_row_upto(ss, m), l),
    decreases m,
{
    if m == 1 {
        assert(concat_row_upto(ss, 1) == ss[0]);
    } else {
        lemma_concat_row_blocks(ss, l, m - 1);
        lemma_concat_blocks(concat_row_upto(ss, m - 1), ss[m - 1], l);
    }
}

/// Every block of row `i` of a plain grid holds `row_block_lines(g, i)`
/// lines and round-trips through its lines.
proof fn lemma_grid_block(g: GridModel, i: int, j: int)
    requires
        grid_wf(g),
        plain_rows(g),
        0 <= i < g.rows,
        0 <= j < g.cols,
    ensures
        block_ok(fmt_cell(g, i, j), row_block_lines(g, i)),
{
    let c = cell_at(g, i, j);
    let p = grid_plan(g, i, j);
    assert(plain_cell(c, row_height(g, i)));
    lemma_row_height_bound(g, i, j, g.cols as int);
    lemma_padded_count(c, p);
    lemma_format_block(c, p);
    assert(join_lines(split_lines(format_spec(c, p))) == format_spec(c, p));
}

/// Each row of a plain grid merges blocks of equal line counts into a block
/// of that same line count.
proof fn lemma_row_block(g: GridModel, i: int)
    requires
        grid_wf(g),
        plain_rows(g),
        g.cols >= 1,
        0 <= i < g.rows,
    ensures
        block_ok(row_string(g, i), row_block_lines(g, i)),
        row_compatible(row_fmt(g, i)),
{
    let ss = row_fmt(g, i);
    let l = row_block_lines(g, i);
    assert forall|j: int| 0 <= j < ss.len() implies block_ok(#[trigger] ss[j], l) by {
        lemma_grid_block(g, i, j);
    }
    lemma_concat_row_blocks(ss, l, g.cols as int);
    assert forall|k: int| 1 <= k < ss.len() implies split_lines(
        #[trigger] concat_row_upto(ss, k),
    ).len() == split_lines(ss[k]).len() by {
        lemma_concat_row_blocks(ss, l, k);
    }
}

/// A plain grid merges cleanly: in every row, all formatted blocks hold the
/// same number of lines, so rendering never trips over a line-count
/// mismatch.
pub proof fn lemma_plain_rows_compatible(g: GridModel)
    requires
        grid_wf(g),
        plain_rows(g),
        g.cols >= 1,
    ensures
        forall|i: int| 0 <= i < g.rows ==> row_compatible(#[trigger] row_fmt(g, i)),
{
    assert forall|i: int| 0 <= i < g.rows implies row_compatible(#[trigger] row_fmt(g, i)) by {
        lemma_row_block(g, i);
    }
}

proof fn lemma_col_weight_upto_bounded(g: GridModel, j: int, m: int, b: nat)
    requires
        forall|i: int| 0 <= i < m ==> cell_weight(#[trigger] cell_at(g, i, j)) <= b,
    ensures
        col_weight_upto(g, j, m) <= b,
    decreases m,
{
    if m > 0 {
        lemma_col_weight_upto_bounded(g, j, m - 1, b);
    }
}

/// A column is no wider than any bound that holds for every cell in it.
pub proof fn lemma_col_weight_bounded(g: GridModel, j: int, b: nat)
    requires
        forall|i: int| 0 <= i < g.rows ==> cell_weight(#[trigger] cell_at(g, i, j)) <= b,
    ensures
        col_weight(g, j) <= b,
{
    lemma_col_weight_upto_bounded(g, j, g.rows as int, b);
}

/// The line count of every block of every row of a plain grid, added up
/// from row `i` on.
spec fn sum_blocks_from(g: GridModel, i: int) -> nat
    decreases g.rows - i,
{
    if i < 0 || i >= g.rows {
        0
    } else {
        row_block_lines(g, i) + sum_blocks_from(g, i + 1)
    }
}

proof fn lemma_render_from_count(g: GridModel, i: int)
    requires
        grid_wf(g),
        plain_rows(g),
        g.rows >= 1,
        g.cols >= 1,
        0 <= i <= g.rows,
    ensures
        split_lines(render_from(g, i)).len() == sum_blocks_from(g, i),
    decreases g.rows - i,
{
    if i >= g.rows {
        assert(render_from(g, i) == Seq::<char>::empty());
    } else {
        lemma_row_block(g, i);
        let rs = row_string(g, i);
        let u = rs + seq![nl()];
        let rest = render_from(g, i + 1);
        assert(u.last() == nl());
        lemma_split_from_append(Seq::empty(), u, rest);
        assert(u + rest =~= render_from(g, i));
        lemma_split_lines_nl_free(rs);
        lemma_split_join_terminated(split_lines(rs));
        assert(join_lines(split_lines(rs)) + seq![nl()] == u);
        assert(split_lines(u).len() == row_block_lines(g, i));
        lemma_render_from_count(g, i + 1);
    }
}

proof fn lemma_sum_blocks(g: GridModel, i: int)
    requires
        1 <= i <= g.rows,
    ensures
        sum_blocks_from(g, i) == sum_heights_from(g, i) + (g.rows - i),
    decreases g.rows - i,
{
    if i >= g.rows {
    } else {
        lemma_sum_blocks(g, i + 1);
    }
}

/// For every nonempty plain grid, the rendered output holds one line per
/// unit of row height, plus one border line before the first row and one
/// after every row.
pub proof fn lemma_render_line_count(g: GridModel)
    requires
        grid_wf(g),
        g.rows >= 1,
        g.cols >= 1,
        plain_rows(g),
    ensures
        split_lines(render_spec(g)).len() == sum_heights_from(g, 0) + g.rows + 1,
{
    lemma_render_from_count(g, 0);
    lemma_sum_blocks(g, 1);
}

/// Rendering is a pure function of the grid: the same unmodified grid
/// renders to the same output, however often it is rendered.
pub proof fn lemma_render_deterministic(g1: GridModel, g2: GridModel)
    requires
        g1 == g2,
    ensures
        render_spec(g1) == render_spec(g2),
{
}

/// Every border glyph of the cell is one character wide.
pub open spec fn unit_glyphs(c: CellModel) -> bool {
    &&& c.top.len() == 1
    &&& c.bottom.len() == 1
    &&& c.left.len() == 1
    &&& c.right.len() == 1
    &&& c.corner.len() == 1
}

/// A plain grid drawn with one-character glyphs whose horizontal padding is
/// the same down each column, so every column has one fixed drawn width.
pub open spec fn uniform_grid(g: GridModel) -> bool {
    &&& plain_rows(g)
    &&& forall|i: int, j: int|
        0 <= i < g.rows && 0 <= j < g.cols ==> unit_glyphs(#[trigger] cell_at(g, i, j))
    &&& forall|i: int, j: int|
        0 <= i < g.rows && 0 <= j < g.cols ==> (#[trigger] cell_at(g, i, j)).ident_left == cell_at(
            g,
            0,
            j,
        ).ident_left && cell_at(g, i, j).ident_right == cell_at(g, 0, j).ident_right
}

/// The drawn width of column `j`: its left border on the first column only,
/// its padding and content width, and its right border.
pub open spec fn seg_width(g: GridModel, j: int) -> nat {
    (if j == 0 {
        1nat
    } else {
        0nat
    }) + cell_at(g, 0, j).ident_left + col_weight(g, j) + cell_at(g, 0, j).ident_right + 1
}

/// The character index where column `j` starts in every rendered line.
pub open spec fn col_start(g: GridModel, j: int) -> nat
    decreases j,
{
    if j <= 0 {
        0
    } else {
        col_start(g, j - 1) + seg_width(g, j - 1)
    }
}

/// No cell of a column is wider than the column.
proof fn lemma_col_weight_bound(g: GridModel, j: int, i: int, m: int)
    requires
        0 <= i < m,
    ensures
        cell_weight(cell_at(g, i, j)) <= col_weight_upto(g, j, m),
    decreases m,
{
    if i < m - 1 {
        lemma_col_weight_bound(g, j, i, m - 1);
    }
}

/// An aligned line spans exactly the target width when it does not exceed
/// it.
proof fn lemma_align_len(l: Seq<char>, a: crate::cell::Alignment, w: nat)
    requires
        l.len() <= w,
    ensures
        align_spec(l, a, w).len() == w,
{
}

/// No line of the padded content is wider than the cell's own width.
proof fn lemma_padded_line_bound(c: CellModel, p: PlanModel)
    requires
        c.ident_top == 0,
        c.ident_bottom == 0,
        c.content.len() > 0 ==> c.content.last() != nl(),
        c.content.len() == 0 ==> p.height == 0,
        cell_height(c) <= p.height,
    ensures
        forall|k: int|
            0 <= k < split_lines(padded_content(c, p)).len() ==> split_lines(
                padded_content(c, p),
            )[k].len() <= cell_weight(c),
{
    let n = split_lines(c.content).len();
    assert(padded_content(c, p) =~= c.content + repeat_char(nl(), height_pad(c, p)));
    let lines = split_lines(padded_content(c, p));
    if n < p.height {
        assert(c.content.len() > 0);
        let pad = height_pad(c, p);
        lemma_split_append_nls(c.content, pad);
        assert forall|k: int| 0 <= k < lines.len() implies lines[k].len() <= cell_weight(c) by {
            if k < n {
                assert(lines[k] == split_lines(c.content)[k]);
                crate::text::lemma_max_width_bound(split_lines(c.content), k);
            } else {
                assert(lines[k] == empty_lines((pad - 1) as nat)[k - n]);
            }
        }
    } else {
        assert(height_pad(c, p) == 0);
        assert(padded_content(c, p) =~= c.content);
        assert forall|k: int| 0 <= k < lines.len() implies lines[k].len() <= cell_weight(c) by {
            crate::text::lemma_max_width_bound(split_lines(c.content), k);
        }
    }
}

/// In a uniform grid every line of the block of cell `(i, j)` is exactly
/// `seg_width(g, j)` characters wide.
proof fn lemma_cell_line_widths(g: GridModel, i: int, j: int)
    requires
        grid_wf(g),
        uniform_grid(g),
        0 <= i < g.rows,
        0 <= j < g.cols,
    ensures
        forall|k: int|
            0 <= k < split_lines(fmt_cell(g, i, j)).len() ==> split_lines(
                fmt_cell(g, i, j),
            )[k].len() == seg_width(g, j),
{
    let c = cell_at(g, i, j);
    let p = grid_plan(g, i, j);
    assert(plain_cell(c, row_height(g, i)));
    assert(unit_glyphs(c));
    lemma_row_height_bound(g, i, j, g.cols as int);
    lemma_col_weight_bound(g, j, i, g.rows as int);
    lemma_format_block(c, p);
    lemma_padded_line_bound(c, p);
    let w = crate::formatter::effective_width(c, p);
    assert(w == col_weight(g, j));
    let src = split_lines(padded_content(c, p));
    let body = body_lines(c, p);
    let inner = (c.ident_left + w + c.ident_right) as nat;
    assert forall|k: int| 0 <= k < body.len() implies #[trigger] body[k].len() == (if j == 0 {
        1nat
    } else {
        0nat
    }) + inner + 1 by {
        lemma_align_len(src[k], c.alignment, w);
    }
    let spanned = crate::formatter::edge_span(c, p);
    assert(spanned == inner);
    crate::text::lemma_repeat_seq_len(c.top, spanned);
    crate::text::lemma_repeat_seq_len(c.bottom, spanned);
    assert(spanned * c.top.len() == spanned) by (nonlinear_arith)
        requires
            c.top.len() == 1,
    ;
    assert(spanned * c.bottom.len() == spanned) by (nonlinear_arith)
        requires
            c.bottom.len() == 1,
    ;
    assert(edge_line(c.top, c, p).len() == (if j == 0 {
        1nat
    } else {
        0nat
    }) + inner + 1);
    assert(edge_line(c.bottom, c, p).len() == (if j == 0 {
        1nat
    } else {
        0nat
    }) + inner + 1);
    let fl = format_lines(c, p);
    let with_top = if p.top {
        seq![edge_line(c.top, c, p)] + body
    } else {
        body
    };
    assert forall|k: int| 0 <= k < fl.len() implies #[trigger] fl[k].len() == seg_width(g, j) by {
        if k == fl.len() - 1 {
            assert(fl[k] == edge_line(c.bottom, c, p));
        } else {
            assert(fl[k] == with_top[k]);
            if p.top {
                if k == 0 {
                    assert(with_top[k] == edge_line(c.top, c, p));
                } else {
                    assert(with_top[k] == body[k - 1]);
                }
            }
        }
    }
}

/// The line `k` of the first `m` blocks of row `i`, merged left to right.
spec fn row_line_upto(g: GridModel, i: int, k: int, m: int) -> Seq<char>
    decreases m,
{
    if m <= 0 {
        Seq::empty()
    } else {
        row_line_upto(g, i, k, m - 1) + split_lines(fmt_cell(g, i, m - 1))[k]
    }
}

proof fn lemma_row_line_decomp(g: GridModel, i: int, k: int, m: int)
    requires
        grid_wf(g),
        plain_rows(g),
        0 <= i < g.rows,
        1 <= m <= g.cols,
        0 <= k < row_block_lines(g, i),
    ensures
        split_lines(concat_row_upto(row_fmt(g, i), m))[k] == row_line_upto(g, i, k, m),
    decreases m,
{
    let ss = row_fmt(g, i);
    let l = row_block_lines(g, i);
    assert forall|x: int| 0 <= x < ss.len() implies block_ok(#[trigger] ss[x], l) by {
        lemma_grid_block(g, i, x);
    }
    if m == 1 {
        assert(concat_row_upto(ss, 1) == ss[0]);
        assert(row_line_upto(g, i, k, 0) == Seq::<char>::empty());
        assert(Seq::<char>::empty() + split_lines(fmt_cell(g, i, 0))[k] =~= split_lines(
            fmt_cell(g, i, 0),
        )[k]);
    } else {
        lemma_row_line_decomp(g, i, k, m - 1);
        lemma_concat_row_blocks(ss, l, m - 1);
        lemma_concat_blocks(concat_row_upto(ss, m - 1), ss[m - 1], l);
    }
}

proof fn lemma_row_line_len(g: GridModel, i: int, k: int, m: int)
    requires
        grid_wf(g),
        uniform_grid(g),
        0 <= i < g.rows,
        0 <= m <= g.cols,
        0 <= k < row_block_lines(g, i),
    ensures
        row_line_upto(g, i, k, m).len() == col_start(g, m),
    decreases m,
{
    if m > 0 {
        lemma_row_line_len(g, i, k, m - 1);
        lemma_grid_block(g, i, m - 1);
        lemma_cell_line_widths(g, i, m - 1);
    }
}

proof fn lemma_row_line_segment(g: GridModel, i: int, k: int, j: int, m: int)
    requires
        grid_wf(g),
        uniform_grid(g),
        0 <= i < g.rows,
        0 <= j < m <= g.cols,
        0 <= k < row_block_lines(g, i),
    ensures
        row_line_upto(g, i, k, m).subrange(col_start(g, j) as int, col_start(g, j + 1) as int)
            == split_lines(fmt_cell(g, i, j))[k],
    decreases m,
{
    lemma_row_line_len(g, i, k, j);
    lemma_row_line_len(g, i, k, m - 1);
    lemma_grid_block(g, i, m - 1);
    lemma_cell_line_widths(g, i, m - 1);
    if m == j + 1 {
        let prefix = row_line_upto(g, i, k, j);
        let seg = split_lines(fmt_cell(g, i, j))[k];
        assert((prefix + seg).subrange(col_start(g, j) as int, col_start(g, j + 1) as int)
            =~= seg);
    } else {
        lemma_row_line_segment(g, i, k, j, m - 1);
        let prefix = row_line_upto(g, i, k, m - 1);
        let seg = split_lines(fmt_cell(g, i, m - 1))[k];
        lemma_col_start_mono(g, j + 1, m - 1);
        assert((prefix + seg).subrange(col_start(g, j) as int, col_start(g, j + 1) as int)
            =~= prefix.subrange(col_start(g, j) as int, col_start(g, j + 1) as int));
    }
}

proof fn lemma_col_start_mono(g: GridModel, a: int, b: int)
    requires
        0 <= a <= b,
    ensures
        col_start(g, a) <= col_start(g, b),
    decreases b,
{
    if a < b {
        lemma_col_start_mono(g, a, b - 1);
    }
}

/// Columns abut on a shared seam: in every line of a rendered row of a
/// uniform grid, the block of column `j` spans exactly the characters
/// `[col_start(j), col_start(j) + seg_width(j))`, so the next column starts
/// one character after this column's right border, with no border doubled.
pub proof fn lemma_columns_abut(g: GridModel, i: int, k: int, j: int)
    requires
        grid_wf(g),
        g.rows >= 1,
        g.cols >= 1,
        uniform_grid(g),
        0 <= i < g.rows,
        0 <= j < g.cols,
        0 <= k < split_lines(row_string(g, i)).len(),
    ensures
        split_lines(row_string(g, i)).len() == row_block_lines(g, i),
        split_lines(row_string(g, i))[k].len() == col_start(g, g.cols as int),
        col_start(g, j + 1) == col_start(g, j) + seg_width(g, j),
        split_lines(row_string(g, i))[k].subrange(
            col_start(g, j) as int,
            col_start(g, j + 1) as int,
        ) == split_lines(fmt_cell(g, i, j))[k],
{
    lemma_row_block(g, i);
    let ss = row_fmt(g, i);
    assert(ss.len() == g.cols);
    assert(row_string(g, i) == concat_row_upto(ss, g.cols as int));
    lemma_row_line_decomp(g, i, k, g.cols as int);
    lemma_row_line_len(g, i, k, g.cols as int);
    lemma_row_line_segment(g, i, k, j, g.cols as int);
}

} // verus!
