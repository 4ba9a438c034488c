//! Core engine of an interactive pager: a stack of successive regex filters
//! over a fixed set of text lines, a search-highlight decoration engine, and
//! nearest-match navigation, together with the viewport arithmetic used to
//! render a window of decorated lines.

pub mod greps;
pub mod pager;
pub mod prompt;
pub mod utils;
