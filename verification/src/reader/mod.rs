//! Parse buffers holding WKB-encoded geometries into buffer-backed views.
//!
//! Each view records byte offsets and counts gathered in a single forward
//! scan; after that, any coordinate is a constant-time read. Views never own
//! or copy the coordinate bytes.

mod coord;
mod geometry;
mod geometry_collection;
mod linearring;
mod linestring;
mod multilinestring;
mod multipoint;
mod multipolygon;
mod point;
mod polygon;
mod util;

pub use coord::Coord;
pub use geometry::{read_wkb, Wkb};
pub use geometry_collection::GeometryCollection;
pub use linearring::WKBLinearRing;
pub use linestring::LineString;
pub use multilinestring::MultiLineString;
pub use multipoint::MultiPoint;
pub use multipolygon::MultiPolygon;
pub use point::Point;
pub use polygon::Polygon;
