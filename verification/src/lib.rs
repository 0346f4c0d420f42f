//! A plain-text table layout engine.
//!
//! A [`Grid`] is a row-major matrix of [`Cell`]s; each cell owns its content,
//! an [`Alignment`], border glyphs and inner padding. Rendering reconciles
//! heights per row and widths per column, draws each cell as a bordered
//! multi-line block through a [`CellFormatter`], and merges the blocks into
//! one final block of text.

pub mod cell;
pub mod formatter;
pub mod grid;
pub mod laws;
pub mod text;

pub use cell::Alignment;
pub use cell::Cell;
pub use formatter::align;
pub use formatter::CellFormatter;
pub use grid::concat_lines;
pub use grid::concat_row;
pub use grid::Grid;
