//! Writing axis-aligned rectangles: the format has no tag for a rectangle,
//! so a rectangle encodes as a polygon whose single exterior ring is the
//! closed 5-point outline of the box.

use vstd::prelude::*;

use crate::common::{Endianness, WKBDimension};
use crate::encoding::{enc_polygon, polygon_size};
use crate::geom::{rect_ring, Polygon, PolygonModel, Rect};
use crate::writer::polygon::write_polygon;

verus! {

/// The byte length a rectangle encodes to: a polygon record with one
/// 5-point two-dimensional ring.
pub fn rect_wkb_size(geom: &Rect) -> (r: usize)
    ensures
        r == polygon_size(PolygonModel { dim: WKBDimension::Xy, rings: seq![rect_ring(*geom)] }),
{
    proof {
        let rings = seq![rect_ring(*geom)];
        let empty = rings.subrange(1, 1);
        assert(empty =~= Seq::<Seq<Seq<u64>>>::empty());
        assert(crate::encoding::rings_size(empty, WKBDimension::Xy) == 0);
        assert(rect_ring(*geom).len() == 5);
    }
    // 9 header bytes, one ring of 4 count bytes and five 16-byte coordinates
    9 + 4 + 5 * 16
}

/// Appends a rectangle as a polygon record: one closed exterior ring running
/// minimum corner, up, across, down, and back, with no interior rings.
pub fn write_rect(out: &mut Vec<u8>, geom: &Rect, endianness: Endianness)
    ensures
        final(out)@ == old(out)@ + enc_polygon(
            PolygonModel { dim: WKBDimension::Xy, rings: seq![rect_ring(*geom)] },
            endianness,
        ),
{
    let mut ring: Vec<Vec<u64>> = Vec::new();
    let mut c0: Vec<u64> = Vec::new();
    c0.push(geom.min_x);
    c0.push(geom.min_y);
    let mut c1: Vec<u64> = Vec::new();
    c1.push(geom.min_x);
    c1.push(geom.max_y);
    let mut c2: Vec<u64> = Vec::new();
    c2.push(geom.max_x);
    c2.push(geom.max_y);
    let mut c3: Vec<u64> = Vec::new();
    c3.push(geom.max_x);
    c3.push(geom.min_y);
    let mut c4: Vec<u64> = Vec::new();
    c4.push(geom.min_x);
    c4.push(geom.min_y);
    ring.push(c0);
    ring.push(c1);
    ring.push(c2);
    ring.push(c3);
    ring.push(c4);
    let mut rings: Vec<Vec<Vec<u64>>> = Vec::new();
    rings.push(ring);
    let polygon = Polygon { dim: WKBDimension::Xy, rings };
    proof {
        assert(polygon@.rings =~~= seq![rect_ring(*geom)]);
        assert(polygon@ == PolygonModel { dim: WKBDimension::Xy, rings: seq![rect_ring(*geom)] });
        assert(polygon@.wf());
    }
    write_polygon(out, &polygon, endianness);
}

} // verus!
