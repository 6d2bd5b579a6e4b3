//! Renders delimited text as an aligned, box-drawn table.
//!
//! Input lines are split into rows of cells (by a regular-expression
//! pattern, a literal separator character, or a tab by default), per-column
//! display widths are computed from the Unicode width of every cell, an
//! optional header (the first row, or an explicit name list) is widened
//! into the columns, and each row is emitted between `|` borders with
//! per-column left, right, or center alignment.

pub mod align;
pub mod laws;
pub mod render;
pub mod splitter;
pub mod table;
pub mod text;
pub mod width;
