//! Writing polygon records.

use vstd::prelude::*;

use crate::bytes::{write_u32, write_u8};
use crate::common::{Endianness, WKBType};
use crate::encoding::{coord_size, enc_polygon, polygon_size, rings_bytes, rings_size};
use crate::geom::{coords_view, rings_view, Polygon};
use crate::writer::coord::write_counted_coords;

verus! {

/// The byte length of an encoded polygon record.
pub fn polygon_wkb_size(geom: &Polygon) -> (r: usize)
    requires
        polygon_size(geom@) <= usize::MAX,
    ensures
        r == polygon_size(geom@),
{
    let ghost rv = rings_view(geom.rings);
    let mut sum: usize = 1 + 4 + 4;
    let n = geom.rings.len();
    let each_coord = geom.dim.size() * 8;
    proof {
        assert(rv.subrange(0, n as int) =~= rv);
    }
    for i in 0..n
        invariant
            n == geom.rings@.len(),
            rv == rings_view(geom.rings),
            rv.len() == n,
            each_coord == coord_size(geom.dim),
            sum + rings_size(rv.subrange(i as int, n as int), geom.dim) == polygon_size(geom@),
            polygon_size(geom@) <= usize::MAX,
    {
        proof {
            let s = rv.subrange(i as int, n as int);
            assert(s[0] == rv[i as int]);
            assert(rv[i as int] == coords_view(geom.rings@[i as int]));
            assert(s.subrange(1, s.len() as int) =~= rv.subrange(i as int + 1, n as int));
        }
        let len_i = geom.rings[i].len();
        sum = sum + 4 + len_i * each_coord;
    }
    proof {
        assert(rv.subrange(n as int, n as int) =~= Seq::<Seq<Seq<u64>>>::empty());
    }
    sum
}

/// Appends a polygon record: header, ring count, then each ring as a point
/// count and its coordinates. An empty polygon is just `num_rings = 0`.
pub fn write_polygon(out: &mut Vec<u8>, geom: &Polygon, endianness: Endianness)
    requires
        geom@.wf(),
    ensures
        final(out)@ == old(out)@ + enc_polygon(geom@, endianness),
{
    write_u8(out, endianness.as_u8());
    write_u32(out, WKBType::Polygon(geom.dim).as_u32(), endianness);
    let n = geom.rings.len();
    write_u32(out, n as u32, endianness);
    let ghost rv = rings_view(geom.rings);
    proof {
        assert(rv.subrange(0, n as int) =~= rv);
        assert(out@ + rings_bytes(rv, endianness) =~= old(out)@ + enc_polygon(geom@, endianness));
    }
    for i in 0..n
        invariant
            n == geom.rings@.len(),
            rv == rings_view(geom.rings),
            rv.len() == n,
            geom@.wf(),
            out@ + rings_bytes(rv.subrange(i as int, n as int), endianness) == old(out)@
                + enc_polygon(geom@, endianness),
    {
        proof {
            let s = rv.subrange(i as int, n as int);
            assert(s[0] == rv[i as int]);
            assert(rv[i as int] == coords_view(geom.rings@[i as int]));
            assert(s.subrange(1, s.len() as int) =~= rv.subrange(i as int + 1, n as int));
        }
        write_counted_coords(out, &geom.rings[i], endianness);
        proof {
            assert(out@ + rings_bytes(rv.subrange(i as int + 1, n as int), endianness) =~= old(
                out,
            )@ + enc_polygon(geom@, endianness));
        }
    }
    proof {
        assert(rv.subrange(n as int, n as int) =~= Seq::<Seq<Seq<u64>>>::empty());
        assert(out@ =~= old(out)@ + enc_polygon(geom@, endianness));
    }
}

} // verus!
