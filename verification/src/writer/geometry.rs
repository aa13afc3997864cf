//! The encode side of the top-level dispatch: one entry point for a geometry
//! of any kind.

use vstd::prelude::*;

use crate::common::Endianness;
use crate::encoding::{enc_geometry, geometry_size};
use crate::geom::Geometry;
use crate::writer::geometrycollection::{
    geometry_collection_wkb_size, write_geometry_collection,
};
use crate::writer::linestring::{line_string_wkb_size, write_line_string};
use crate::writer::multilinestring::{multi_line_string_wkb_size, write_multi_line_string};
use crate::writer::multipoint::{multi_point_wkb_size, write_multi_point};
use crate::writer::multipolygon::{multi_polygon_wkb_size, write_multi_polygon};
use crate::writer::point::{point_wkb_size, write_point};
use crate::writer::polygon::{polygon_wkb_size, write_polygon};

verus! {

/// The exact byte length the geometry will encode to; the same in either
/// byte order. Callable before encoding to pre-size a buffer.
pub fn geometry_wkb_size(geom: &Geometry) -> (r: usize)
    requires
        geometry_size(geom@) <= usize::MAX,
    ensures
        r == geometry_size(geom@),
    decreases geom, 0int,
{
    match geom {
        Geometry::Point(p) => point_wkb_size(p.dim),
        Geometry::LineString(ls) => line_string_wkb_size(ls),
        Geometry::Polygon(p) => polygon_wkb_size(p),
        Geometry::MultiPoint(mp) => multi_point_wkb_size(mp),
        Geometry::MultiLineString(mls) => multi_line_string_wkb_size(mls),
        Geometry::MultiPolygon(mp) => multi_polygon_wkb_size(mp),
        Geometry::GeometryCollection(c) => geometry_collection_wkb_size(c),
    }
}

/// Appends the full record of a geometry of any kind: the byte-order byte,
/// the type tag, and the body, with the chosen byte order propagated to
/// every nested record.
pub fn write_geometry(out: &mut Vec<u8>, geom: &Geometry, endianness: Endianness)
    requires
        geom@.wf(),
    ensures
        final(out)@ == old(out)@ + enc_geometry(geom@, endianness),
    decreases geom, 0int,
{
    match geom {
        Geometry::Point(p) => write_point(out, p, endianness),
        Geometry::LineString(ls) => write_line_string(out, ls, endianness),
        Geometry::Polygon(p) => write_polygon(out, p, endianness),
        Geometry::MultiPoint(mp) => write_multi_point(out, mp, endianness),
        Geometry::MultiLineString(mls) => write_multi_line_string(out, mls, endianness),
        Geometry::MultiPolygon(mp) => write_multi_polygon(out, mp, endianness),
        Geometry::GeometryCollection(c) => write_geometry_collection(out, c, endianness),
    }
}

} // verus!
