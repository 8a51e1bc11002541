//! A scrollable, searchable tabular terminal renderer.
//!
//! Given a fixed-size character grid (the terminal viewport) and a window of
//! already-loaded rows, this library computes a visual layout (column widths,
//! row-number gutter, borders, status line) and paints exactly that layout
//! into the grid, honoring scroll offsets and an optional search highlight.
//! The grid is a plain value of this library; a display backend copies it to
//! the terminal.

pub mod style;
pub mod grid;
pub mod text;
pub mod finder;
pub mod state;
pub mod table;
