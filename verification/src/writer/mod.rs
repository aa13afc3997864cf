//! Serialise geometries into WKB bytes.
//!
//! Each writer appends to a caller-supplied byte vector exactly the bytes
//! that the encoding layout prescribes, in the requested byte order, and
//! each size function returns exactly the length of those bytes.

mod coord;
mod geometry;
mod geometrycollection;
mod line;
mod linestring;
mod multilinestring;
mod multipoint;
mod multipolygon;
mod point;
mod polygon;
mod rect;
mod triangle;

pub use geometry::{geometry_wkb_size, write_geometry};
pub use geometrycollection::{geometry_collection_wkb_size, write_geometry_collection};
pub use line::{line_wkb_size, write_line};
pub use linestring::{line_string_wkb_size, write_line_string};
pub use multilinestring::{multi_line_string_wkb_size, write_multi_line_string};
pub use multipoint::{multi_point_wkb_size, write_multi_point};
pub use multipolygon::{multi_polygon_wkb_size, write_multi_polygon};
pub use point::{point_wkb_size, write_point};
pub use polygon::{polygon_wkb_size, write_polygon};
pub use rect::{rect_wkb_size, write_rect};
pub use triangle::{triangle_wkb_size, write_triangle};
