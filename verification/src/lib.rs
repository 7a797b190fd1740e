//! heft: a disk usage viewer that shows the immediate children of a
//! directory, sorted by size, with proportional bars.
//!
//! The library holds the decisions of the viewer: how the scanner tallies
//! what it walks, how entries are grouped, ordered and laid out, and how each
//! output line is spelled. Reading the file system, querying the terminal and
//! floating-point ratios stay with the caller.

pub mod types;
pub mod text;
pub mod size;
pub mod style;
pub mod order;
pub mod select;
pub mod glyphs;
pub mod paint;
pub mod display;
pub mod rows;
pub mod json;
pub mod render;
pub mod scanner;
pub mod choices;
pub mod laws;
pub mod spelling;

