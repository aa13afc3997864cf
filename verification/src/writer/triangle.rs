//! Writing triangles: the format has no tag for a triangle, so a triangle
//! encodes as a polygon with a single 3-point exterior ring.

use vstd::prelude::*;

use crate::common::Endianness;
use crate::encoding::{enc_polygon, polygon_size};
use crate::geom::{triangle_ring, Polygon, PolygonModel, Triangle};
use crate::writer::coord::copy_axes;
use crate::writer::polygon::write_polygon;

verus! {

/// The byte length a triangle encodes to: a polygon record with one 3-point
/// ring.
pub fn triangle_wkb_size(geom: &Triangle) -> (r: usize)
    ensures
        r == polygon_size(PolygonModel { dim: geom.dim, rings: seq![triangle_ring(*geom)] }),
{
    let header: usize = 1 + 4 + 4;
    let r = header + 4 + 3 * (geom.dim.size() * 8);
    proof {
        let rings = seq![triangle_ring(*geom)];
        let empty = rings.subrange(1, 1);
        assert(empty =~= Seq::<Seq<Seq<u64>>>::empty());
        assert(crate::encoding::rings_size(empty, geom.dim) == 0);
        assert(triangle_ring(*geom).len() == 3);
    }
    r
}

/// Appends a triangle as a polygon record: one exterior ring holding the
/// three vertices (ring closure left implicit), no interior rings.
pub fn write_triangle(out: &mut Vec<u8>, geom: &Triangle, endianness: Endianness)
    requires
        geom.wf(),
    ensures
        final(out)@ == old(out)@ + enc_polygon(
            PolygonModel { dim: geom.dim, rings: seq![triangle_ring(*geom)] },
            endianness,
        ),
{
    let mut ring: Vec<Vec<u64>> = Vec::new();
    ring.push(copy_axes(&geom.first));
    ring.push(copy_axes(&geom.second));
    ring.push(copy_axes(&geom.third));
    let mut rings: Vec<Vec<Vec<u64>>> = Vec::new();
    rings.push(ring);
    let polygon = Polygon { dim: geom.dim, rings };
    proof {
        assert(polygon@.rings =~~= seq![triangle_ring(*geom)]);
        assert(polygon@ == PolygonModel { dim: geom.dim, rings: seq![triangle_ring(*geom)] });
        assert(polygon@.wf());
    }
    write_polygon(out, &polygon, endianness);
}

} // verus!
