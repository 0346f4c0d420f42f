//! Renders one cell into a bordered multi-line block, given a plan that says
//! which edges and corner connections to draw and which width and height to
//! stretch the content to.

use vstd::prelude::*;

use crate::cell::{cell_weight, Alignment, Cell, CellModel};
use crate::text::{
    chars_of, copy_chars, join_lines, join_lines_exec, lines_model, nl, push_all, push_repeat_char,
    push_repeat_seq, repeat_char, repeat_seq, split_lines, split_lines_exec, string_of,
};

verus! {

/// The mathematical value of a [`CellFormatter`]: which edges and corner
/// connections are drawn, and the target width and height (0 means "derive
/// from the content").
#[verifier::ext_equal]
pub ghost struct PlanModel {
    pub left: bool,
    pub right: bool,
    pub top: bool,
    pub bottom: bool,
    pub left_connection: bool,
    pub right_connection: bool,
    pub weight: nat,
    pub height: nat,
}

/// A plan that draws nothing and derives width and height from the content.
pub open spec fn blank_plan() -> PlanModel {
    PlanModel {
        left: false,
        right: false,
        top: false,
        bottom: false,
        left_connection: false,
        right_connection: false,
        weight: 0,
        height: 0,
    }
}

/// The width content lines are aligned to: the plan's, or the cell's own
/// intrinsic width when the plan leaves it at 0.
pub open spec fn effective_width(c: CellModel, p: PlanModel) -> nat {
    if p.weight == 0 {
        cell_weight(c)
    } else {
        p.weight
    }
}

/// Line breaks appended to stretch the content to the target height: one more
/// than the deficit whenever the content is short of the target.
pub open spec fn height_pad(c: CellModel, p: PlanModel) -> nat {
    let n = split_lines(c.content).len();
    if n < p.height {
        (p.height - n + 1) as nat
    } else {
        0
    }
}

/// The content with the height stretch and the vertical padding applied:
/// `ident_top` blank lines before it, the height deficit and `ident_bottom`
/// line breaks after it.
pub open spec fn padded_content(c: CellModel, p: PlanModel) -> Seq<char> {
    repeat_char(nl(), c.ident_top) + c.content + repeat_char(
        nl(),
        height_pad(c, p) + c.ident_bottom,
    )
}

/// A line aligned to `width`: a line already that wide or wider is kept, a
/// shorter one is padded with spaces as the alignment directs, a centered
/// line putting the odd space on the right.
pub open spec fn align_spec(l: Seq<char>, a: Alignment, width: nat) -> Seq<char> {
    if l.len() >= width {
        l
    } else {
        let pad = (width - l.len()) as nat;
        match a {
            Alignment::Left => l + repeat_char(' ', pad),
            Alignment::Right => repeat_char(' ', pad) + l,
            Alignment::Center => repeat_char(' ', pad / 2) + l + repeat_char(
                ' ',
                (pad - pad / 2) as nat,
            ),
        }
    }
}

/// One content line dressed for output: aligned, wrapped in the horizontal
/// padding, then in the left and right border glyphs the plan enables.
pub open spec fn decorate_line(l: Seq<char>, c: CellModel, p: PlanModel) -> Seq<char> {
    let aligned = align_spec(l, c.alignment, effective_width(c, p));
    let inner = repeat_char(' ', c.ident_left) + aligned + repeat_char(' ', c.ident_right);
    let lb = if p.left {
        c.left
    } else {
        Seq::<char>::empty()
    };
    let rb = if p.right {
        c.right
    } else {
        Seq::<char>::empty()
    };
    lb + inner + rb
}

/// How many repetitions of an edge glyph a border line holds: the effective
/// width plus the horizontal padding.
pub open spec fn edge_span(c: CellModel, p: PlanModel) -> nat {
    effective_width(c, p) + c.ident_left + c.ident_right
}

/// A horizontal border line: the corner glyph at each connected end, the edge
/// glyph repeated over the whole inner width between them.
pub open spec fn edge_line(glyph: Seq<char>, c: CellModel, p: PlanModel) -> Seq<char> {
    let lhs = if p.left_connection {
        c.corner
    } else {
        Seq::<char>::empty()
    };
    let rhs = if p.right_connection {
        c.corner
    } else {
        Seq::<char>::empty()
    };
    lhs + repeat_seq(glyph, edge_span(c, p)) + rhs
}

/// The dressed content lines of the block, in order.
pub open spec fn body_lines(c: CellModel, p: PlanModel) -> Seq<Seq<char>> {
    let src = split_lines(padded_content(c, p));
    Seq::new(src.len(), |k: int| decorate_line(src[k], c, p))
}

/// Every line of the finished block: the top border line if drawn, the
/// dressed content lines, the bottom border line if drawn.
pub open spec fn format_lines(c: CellModel, p: PlanModel) -> Seq<Seq<char>> {
    let with_top = if p.top {
        seq![edge_line(c.top, c, p)] + body_lines(c, p)
    } else {
        body_lines(c, p)
    };
    if p.bottom {
        with_top.push(edge_line(c.bottom, c, p))
    } else {
        with_top
    }
}

/// The finished block: its lines joined with line breaks, none at the end.
pub open spec fn format_spec(c: CellModel, p: PlanModel) -> Seq<char> {
    join_lines(format_lines(c, p))
}

/// The border lines' width fits the machine word that the repetition count
/// is held in.
pub open spec fn edge_fits(c: CellModel, p: PlanModel) -> bool {
    edge_span(c, p) <= usize::MAX
}

/// Formats one [`Cell`] into a bordered multi-line block.
pub struct CellFormatter {
    left: bool,
    right: bool,
    top: bool,
    bottom: bool,
    left_connection: bool,
    right_connection: bool,
    weight: usize,
    height: usize,
}

impl View for CellFormatter {
    type V = PlanModel;

    closed spec fn view(&self) -> PlanModel {
        PlanModel {
            left: self.left,
            right: self.right,
            top: self.top,
            bottom: self.bottom,
            left_connection: self.left_connection,
            right_connection: self.right_connection,
            weight: self.weight as nat,
            height: self.height as nat,
        }
    }
}

impl CellFormatter {
    /// A formatter that draws no edge and derives width and height from the
    /// content.
    pub fn new() -> (r: Self)
        ensures
            r@ == blank_plan(),
    {
        let r = CellFormatter {
            left: false,
            right: false,
            top: false,
            bottom: false,
            left_connection: false,
            right_connection: false,
            weight: 0,
            height: 0,
        };
        proof {
            assert(r@ =~= blank_plan());
        }
        r
    }

    /// Disables the left edge.
    pub fn un_left(self) -> (r: Self)
        ensures
            r@ == (PlanModel { left: false, ..self@ }),
    {
        let mut r = self;
        r.left = false;
        proof {
            assert(r@ =~= (PlanModel { left: false, ..self@ }));
        }
        r
    }

    /// Disables the left corner connection.
    pub fn un_left_connection(self) -> (r: Self)
        ensures
            r@ == (PlanModel { left_connection: false, ..self@ }),
    {
        let mut r = self;
        r.left_connection = false;
        proof {
            assert(r@ =~= (PlanModel { left_connection: false, ..self@ }));
        }
        r
    }

    /// Disables the top edge.
    pub fn un_top(self) -> (r: Self)
        ensures
            r@ == (PlanModel { top: false, ..self@ }),
    {
        let mut r = self;
        r.top = false;
        proof {
            assert(r@ =~= (PlanModel { top: false, ..self@ }));
        }
        r
    }

    /// Enables all four edges and both corner connections.
    pub fn boxed(self) -> (r: Self)
        ensures
            r@ == (PlanModel {
                left: true,
                right: true,
                top: true,
                bottom: true,
                left_connection: true,
                right_connection: true,
                ..self@
            }),
    {
        let mut r = self;
        r.left = true;
        r.right = true;
        r.top = true;
        r.bottom = true;
        r.left_connection = true;
        r.right_connection = true;
        proof {
            assert(r@ =~= (PlanModel {
                left: true,
                right: true,
                top: true,
                bottom: true,
                left_connection: true,
                right_connection: true,
                ..self@
            }));
        }
        r
    }

    /// Sets the target width.
    pub fn weight(self, w: usize) -> (r: Self)
        ensures
            r@ == (PlanModel { weight: w as nat, ..self@ }),
    {
        let mut r = self;
        r.weight = w;
        proof {
            assert(r@ =~= (PlanModel { weight: w as nat, ..self@ }));
        }
        r
    }

    /// Sets the target height.
    pub fn height(self, h: usize) -> (r: Self)
        ensures
            r@ == (PlanModel { height: h as nat, ..self@ }),
    {
        let mut r = self;
        r.height = h;
        proof {
            assert(r@ =~= (PlanModel { height: h as nat, ..self@ }));
        }
        r
    }

    /// Renders the cell as this formatter's plan directs.
    pub fn format(&self, c: &Cell) -> (r: String)
        requires
            edge_fits(c@, self@),
        ensures
            r@ == format_spec(c@, self@),
    {
        let ghost cm = c@;
        let ghost p = self@;

        // Effective width.
        let w: usize = if self.weight == 0 {
            c.weight()
        } else {
            self.weight
        };
        proof {
            assert(w as nat == effective_width(cm, p));
        }

        // Content stretched to the target height, with the vertical padding.
        let n: usize = c.height();
        let mut padded: Vec<char> = Vec::new();
        push_repeat_char(&mut padded, '\n', c.ident_top());
        push_all(&mut padded, c.content_chars());
        if n < self.height {
            let deficit = self.height - n;
            push_repeat_char(&mut padded, '\n', deficit);
            padded.push('\n');
        }
        push_repeat_char(&mut padded, '\n', c.ident_bottom());
        proof {
            assert(padded@ =~= padded_content(cm, p));
        }

        let src = split_lines_exec(&padded);
        let mut lines: Vec<Vec<char>> = Vec::new();
        if self.top {
            lines.push(self.edge(c.top_glyph(), c, w));
        }
        let mut k: usize = 0;
        while k < src.len()
            invariant
                k <= src.len(),
                w as nat == effective_width(cm, p),
                edge_fits(cm, p),
                cm == c@,
                p == self@,
                lines_model(src@) == split_lines(padded_content(cm, p)),
                lines@.len() == (if p.top { k + 1 } else { k as int }),
                p.top ==> lines@[0]@ == edge_line(cm.top, cm, p),
                forall|x: int|
                    0 <= x < k ==> lines@[x + (if p.top { 1int } else { 0int })]@ == body_lines(
                        cm,
                        p,
                    )[x],
            decreases src.len() - k,
        {
            let dressed = self.decorate(&src[k], c, w);
            lines.push(dressed);
            k += 1;
        }
        if self.bottom {
            lines.push(self.edge(c.bottom_glyph(), c, w));
        }
        proof {
            assert(lines_model(lines@) =~= format_lines(cm, p));
        }
        let joined = join_lines_exec(&lines);
        string_of(&joined)
    }

    /// Dresses one content line: aligns it, wraps it in the horizontal
    /// padding, then in the border glyphs this plan enables.
    fn decorate(&self, line: &Vec<char>, c: &Cell, w: usize) -> (r: Vec<char>)
        requires
            w as nat == effective_width(c@, self@),
        ensures
            r@ == decorate_line(line@, c@, self@),
    {
        let mut out: Vec<char> = Vec::new();
        if self.left {
            push_all(&mut out, c.left_glyph());
        }
        push_repeat_char(&mut out, ' ', c.ident_left());
        let aligned = align_chars(line, c.alignment(), w);
        push_all(&mut out, &aligned);
        push_repeat_char(&mut out, ' ', c.ident_right());
        if self.right {
            push_all(&mut out, c.right_glyph());
        }
        proof {
            assert(out@ =~= decorate_line(line@, c@, self@));
        }
        out
    }

    /// Builds one horizontal border line from the given edge glyph.
    fn edge(&self, glyph: &Vec<char>, c: &Cell, w: usize) -> (r: Vec<char>)
        requires
            w as nat == effective_width(c@, self@),
            edge_fits(c@, self@),
        ensures
            r@ == edge_line(glyph@, c@, self@),
    {
        let span: usize = w + c.ident_left() + c.ident_right();
        let mut out: Vec<char> = Vec::new();
        if self.left_connection {
            push_all(&mut out, c.corner_glyph());
        }
        push_repeat_seq(&mut out, glyph, span);
        if self.right_connection {
            push_all(&mut out, c.corner_glyph());
        }
        proof {
            assert(out@ =~= edge_line(glyph@, c@, self@));
        }
        out
    }
}

/// Aligns one line of characters to the given width.
fn align_chars(line: &Vec<char>, a: Alignment, width: usize) -> (r: Vec<char>)
    ensures
        r@ == align_spec(line@, a, width as nat),
{
    if line.len() >= width {
        return copy_chars(line);
    }
    let pad = width - line.len();
    let mut out: Vec<char> = Vec::new();
    match a {
        Alignment::Left => {
            push_all(&mut out, line);
            push_repeat_char(&mut out, ' ', pad);
        },
        Alignment::Right => {
            push_repeat_char(&mut out, ' ', pad);
            push_all(&mut out, line);
        },
        Alignment::Center => {
            let lp = pad / 2;
            push_repeat_char(&mut out, ' ', lp);
            push_all(&mut out, line);
            push_repeat_char(&mut out, ' ', pad - lp);
        },
    }
    proof {
        assert(out@ =~= align_spec(line@, a, width as nat));
    }
    out
}

/// Aligns a text to the given length, padding with spaces as the alignment
/// directs; a text already that long is returned unchanged.
pub fn align(text: &str, a: Alignment, length: usize) -> (r: String)
    ensures
        r@ == align_spec(text@, a, length as nat),
{
    let v = chars_of(text);
    let aligned = align_chars(&v, a, length);
    string_of(&aligned)
}

} // verus!
