//! Renders a series of times of day as a line chart of Braille glyphs, and
//! matches place names typed by a user.
//!
//! The chart is built in layers: `codec` maps an 8-dot sub-pixel pattern to
//! the glyph that shows it, `grid` holds a buffer of glyphs that patterns are
//! merged into, `raster` lights the sub-pixels of straight segments, and
//! `chart` places a series on the grid and labels its rows. `location`
//! decides which places a query names.
pub mod chart;
pub mod codec;
pub mod duration;
pub mod grid;
pub mod location;
pub mod output;
pub mod raster;
mod text;
