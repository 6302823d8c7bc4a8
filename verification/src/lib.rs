//! Decoder for Presentation Graphics Stream subtitles: bytes are parsed into
//! segments, segments are grouped into display sets, and a display set is
//! composited into a pixel buffer.

pub mod bytes;
pub mod rle;
pub mod segment;
pub mod error;
pub mod parse;
pub mod display_set;
pub mod convert;
pub mod render;

pub use parse::parse_pgs;
pub use render::render_display_set;
