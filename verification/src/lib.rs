//! Palm rejection for touchpads.

pub mod codes;
pub mod device;
pub mod geometry;
pub mod parse;
pub mod parse_laws;
pub mod pattern;
pub mod percent;
pub mod polygon;
pub mod polygon_laws;
pub mod polygon_pieces;
pub mod session;
pub mod session_laws;
pub mod text;
pub mod touch;
pub mod touch_history;
pub mod touch_laws;
pub mod zones;
