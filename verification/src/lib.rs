//! Status-bar line engine: a markup parser that turns a tagged format string
//! into styled segments filed into three alignment zones, and a layout pass
//! that distributes the remaining width over elastic filler segments and maps
//! the resulting pixel ranges to click commands.
//!
//! The windowing and font-rendering collaborators stay outside this crate;
//! the layout pass consumes pre-measured text widths as plain pixel counts.

pub mod format;
pub mod geometry;
pub mod layout;
pub mod lemon;
pub mod tag;
