//! A single table cell: content, alignment, border glyphs and inner padding.

use vstd::prelude::*;

use crate::text::{
    chars_of, copy_chars, lines_model, max_width, split_lines, split_lines_exec,
};

verus! {

/// Number of lines of a cell's content.
pub open spec fn cell_height(c: CellModel) -> nat {
    split_lines(c.content).len()
}

/// Intrinsic width of a cell: the length of its widest content line.
pub open spec fn cell_weight(c: CellModel) -> nat {
    max_width(split_lines(c.content))
}

/// Horizontal placement of a line of content within its column width.
#[derive(Clone, Copy)]
pub enum Alignment {
    Center,
    Left,
    Right,
}

/// The mathematical value of a [`Cell`]: its content and every piece of its
/// drawing configuration, as plain sequences and numbers.
#[verifier::ext_equal]
pub ghost struct CellModel {
    /// The content; a `'\n'` inside it separates lines.
    pub content: Seq<char>,
    pub alignment: Alignment,
    /// Glyph repeated along the top edge.
    pub top: Seq<char>,
    /// Glyph repeated along the bottom edge.
    pub bottom: Seq<char>,
    /// Glyph put before each content line.
    pub left: Seq<char>,
    /// Glyph put after each content line.
    pub right: Seq<char>,
    /// Glyph put where edges meet.
    pub corner: Seq<char>,
    /// Blank lines inside the border above the content.
    pub ident_top: nat,
    /// Blank lines inside the border below the content.
    pub ident_bottom: nat,
    /// Blank columns inside the border left of the content.
    pub ident_left: nat,
    /// Blank columns inside the border right of the content.
    pub ident_right: nat,
}

/// A freshly made cell: empty content, centered, `-`/`|`/`+` borders and no
/// padding.
pub open spec fn default_cell() -> CellModel {
    CellModel {
        content: Seq::empty(),
        alignment: Alignment::Center,
        top: seq!['-'],
        bottom: seq!['-'],
        left: seq!['|'],
        right: seq!['|'],
        corner: seq!['+'],
        ident_top: 0,
        ident_bottom: 0,
        ident_left: 0,
        ident_right: 0,
    }
}

struct Border {
    top: Vec<char>,
    bottom: Vec<char>,
    left: Vec<char>,
    right: Vec<char>,
    corner: Vec<char>,
}

struct Ident {
    top: usize,
    bottom: usize,
    left: usize,
    right: usize,
}

/// One slot of a grid: content plus alignment, border glyphs and padding.
pub struct Cell {
    content: Vec<char>,
    alignment: Alignment,
    border: Border,
    ident: Ident,
}

impl View for Cell {
    type V = CellModel;

    closed spec fn view(&self) -> CellModel {
        CellModel {
            content: self.content@,
            alignment: self.alignment,
            top: self.border.top@,
            bottom: self.border.bottom@,
            left: self.border.left@,
            right: self.border.right@,
            corner: self.border.corner@,
            ident_top: self.ident.top as nat,
            ident_bottom: self.ident.bottom as nat,
            ident_left: self.ident.left as nat,
            ident_right: self.ident.right as nat,
        }
    }
}

fn glyph1(c: char) -> (v: Vec<char>)
    ensures
        v@ == seq![c],
{
    let mut v: Vec<char> = Vec::new();
    v.push(c);
    proof {
        assert(v@ =~= seq![c]);
    }
    v
}

impl Cell {
    /// A cell with the default configuration and empty content.
    pub fn new() -> (r: Self)
        ensures
            r@ == default_cell(),
    {
        let r = Cell {
            content: Vec::new(),
            alignment: Alignment::Center,
            border: Border {
                top: glyph1('-'),
                bottom: glyph1('-'),
                left: glyph1('|'),
                right: glyph1('|'),
                corner: glyph1('+'),
            },
            ident: Ident { top: 0, bottom: 0, left: 0, right: 0 },
        };
        proof {
            assert(r@ =~= default_cell());
        }
        r
    }

    /// Replaces the content verbatim; `'\n'`s inside it separate lines.
    pub fn set_content(&mut self, s: &str) -> (r: &mut Self)
        ensures
            (*r)@ == (CellModel { content: s@, ..old(self)@ }),
            *final(self) == *final(r),
    {
        self.content = chars_of(s);
        self
    }

    /// Replaces the corner glyph; any text is accepted, including empty.
    pub fn set_corner(&mut self, s: &str) -> (r: &mut Self)
        ensures
            (*r)@ == (CellModel { corner: s@, ..old(self)@ }),
            *final(self) == *final(r),
    {
        self.border.corner = chars_of(s);
        self
    }

    /// Replaces the top-edge glyph; any text is accepted, including empty.
    pub fn set_top_border(&mut self, s: &str) -> (r: &mut Self)
        ensures
            (*r)@ == (CellModel { top: s@, ..old(self)@ }),
            *final(self) == *final(r),
    {
        self.border.top = chars_of(s);
        self
    }

    /// Replaces the bottom-edge glyph; any text is accepted, including
    /// empty.
    pub fn set_bottom_border(&mut self, s: &str) -> (r: &mut Self)
        ensures
            (*r)@ == (CellModel { bottom: s@, ..old(self)@ }),
            *final(self) == *final(r),
    {
        self.border.bottom = chars_of(s);
        self
    }

    /// Replaces the left-edge glyph; any text is accepted, including empty.
    pub fn set_left_border(&mut self, s: &str) -> (r: &mut Self)
        ensures
            (*r)@ == (CellModel { left: s@, ..old(self)@ }),
            *final(self) == *final(r),
    {
        self.border.left = chars_of(s);
        self
    }

    /// Replaces the right-edge glyph; any text is accepted, including empty.
    pub fn set_right_border(&mut self, s: &str) -> (r: &mut Self)
        ensures
            (*r)@ == (CellModel { right: s@, ..old(self)@ }),
            *final(self) == *final(r),
    {
        self.border.right = chars_of(s);
        self
    }

    /// Changes the horizontal alignment of the content.
    pub fn set_alignment(&mut self, a: Alignment) -> (r: &mut Self)
        ensures
            (*r)@ == (CellModel { alignment: a, ..old(self)@ }),
            *final(self) == *final(r),
    {
        self.alignment = a;
        self
    }

    /// Sets the top and the bottom padding, both to `size`.
    pub fn set_vertical_ident(&mut self, size: usize) -> (r: &mut Self)
        ensures
            (*r)@ == (CellModel {
                ident_top: size as nat,
                ident_bottom: size as nat,
                ..old(self)@
            }),
            *final(self) == *final(r),
    {
        self.ident.top = size;
        self.ident.bottom = size;
        self
    }

    /// Sets the left and the right padding, both to `size`.
    pub fn set_horizontal_ident(&mut self, size: usize) -> (r: &mut Self)
        ensures
            (*r)@ == (CellModel {
                ident_left: size as nat,
                ident_right: size as nat,
                ..old(self)@
            }),
            *final(self) == *final(r),
    {
        self.ident.left = size;
        self.ident.right = size;
        self
    }

    /// Number of content lines; empty content has none.
    pub fn height(&self) -> (r: usize)
        ensures
            r as nat == cell_height(self@),
    {
        let ls = split_lines_exec(&self.content);
        proof {
            assert(lines_model(ls@).len() == ls@.len());
        }
        ls.len()
    }

    /// Intrinsic width: the character count of the widest content line.
    pub fn weight(&self) -> (r: usize)
        ensures
            r as nat == cell_weight(self@),
    {
        let ls = split_lines_exec(&self.content);
        let ghost model = lines_model(ls@);
        let mut best: usize = 0;
        let mut k: usize = 0;
        proof {
            assert(model.subrange(0, 0) =~= Seq::<Seq<char>>::empty());
        }
        while k < ls.len()
            invariant
                k <= ls.len(),
                model == lines_model(ls@),
                model == split_lines(self@.content),
                model.len() == ls.len(),
                best as nat == max_width(model.subrange(0, k as int)),
            decreases ls.len() - k,
        {
            proof {
                assert(model.subrange(0, k + 1).drop_last() =~= model.subrange(0, k as int));
                assert(model.subrange(0, k + 1).last() == model[k as int]);
            }
            let len_k = ls[k].len();
            if len_k > best {
                best = len_k;
            }
            k += 1;
        }
        proof {
            assert(model.subrange(0, ls@.len() as int) =~= model);
        }
        best
    }

    /// Borrows the content characters.
    pub fn content_chars(&self) -> (r: &Vec<char>)
        ensures
            r@ == self@.content,
    {
        &self.content
    }

    /// Borrows the top-edge glyph.
    pub fn top_glyph(&self) -> (r: &Vec<char>)
        ensures
            r@ == self@.top,
    {
        &self.border.top
    }

    /// Borrows the bottom-edge glyph.
    pub fn bottom_glyph(&self) -> (r: &Vec<char>)
        ensures
            r@ == self@.bottom,
    {
        &self.border.bottom
    }

    /// Borrows the left-edge glyph.
    pub fn left_glyph(&self) -> (r: &Vec<char>)
        ensures
            r@ == self@.left,
    {
        &self.border.left
    }

    /// Borrows the right-edge glyph.
    pub fn right_glyph(&self) -> (r: &Vec<char>)
        ensures
            r@ == self@.right,
    {
        &self.border.right
    }

    /// Borrows the corner glyph.
    pub fn corner_glyph(&self) -> (r: &Vec<char>)
        ensures
            r@ == self@.corner,
    {
        &self.border.corner
    }

    /// The alignment in force.
    pub fn alignment(&self) -> (r: Alignment)
        ensures
            r == self@.alignment,
    {
        self.alignment
    }

    /// The top padding.
    pub fn ident_top(&self) -> (r: usize)
        ensures
            r as nat == self@.ident_top,
    {
        self.ident.top
    }

    /// The bottom padding.
    pub fn ident_bottom(&self) -> (r: usize)
        ensures
            r as nat == self@.ident_bottom,
    {
        self.ident.bottom
    }

    /// The left padding.
    pub fn ident_left(&self) -> (r: usize)
        ensures
            r as nat == self@.ident_left,
    {
        self.ident.left
    }

    /// The right padding.
    pub fn ident_right(&self) -> (r: usize)
        ensures
            r as nat == self@.ident_right,
    {
        self.ident.right
    }
}

impl Clone for Cell {
    /// A copy whose value is the same.
    fn clone(&self) -> (r: Self)
        ensures
            r@ == self@,
    {
        let r = Cell {
            content: copy_chars(&self.content),
            alignment: self.alignment,
            border: Border {
                top: copy_chars(&self.border.top),
                bottom: copy_chars(&self.border.bottom),
                left: copy_chars(&self.border.left),
                right: copy_chars(&self.border.right),
                corner: copy_chars(&self.border.corner),
            },
            ident: Ident {
                top: self.ident.top,
                bottom: self.ident.bottom,
                left: self.ident.left,
                right: self.ident.right,
            },
        };
        proof {
            assert(r@ =~= self@);
        }
        r
    }
}

} // verus!
