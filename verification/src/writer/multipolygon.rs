//! Writing multi polygon records.

use vstd::prelude::*;

use crate::bytes::{write_u32, write_u8};
use crate::common::{Endianness, WKBType};
use crate::encoding::{enc_multipolygon, polygons_bytes, polygons_size};
use crate::geom::MultiPolygon;
use crate::writer::polygon::{polygon_wkb_size, write_polygon};

verus! {

/// The byte length of an encoded multi polygon record.
pub fn multi_polygon_wkb_size(geom: &MultiPolygon) -> (r: usize)
    requires
        9 + polygons_size(geom@.polygons) <= usize::MAX,
    ensures
        r == 9 + polygons_size(geom@.polygons),
{
    let ghost pv = geom.polygons.deep_view();
    let mut sum: usize = 1 + 4 + 4;
    let n = geom.polygons.len();
    proof {
        assert(pv.subrange(0, n as int) =~= pv);
    }
    for i in 0..n
        invariant
            n == geom.polygons@.len(),
            pv == geom.polygons.deep_view(),
            pv.len() == n,
            sum + polygons_size(pv.subrange(i as int, n as int)) == 9 + polygons_size(pv),
            9 + polygons_size(pv) <= usize::MAX,
    {
        proof {
            let s = pv.subrange(i as int, n as int);
            assert(s[0] == pv[i as int]);
            assert(pv[i as int] == geom.polygons@[i as int]@);
            assert(s.subrange(1, s.len() as int) =~= pv.subrange(i as int + 1, n as int));
        }
        sum = sum + polygon_wkb_size(&geom.polygons[i]);
    }
    proof {
        assert(pv.subrange(n as int, n as int) =~= Seq::<crate::geom::PolygonModel>::empty());
    }
    sum
}

/// Appends a multi polygon record: header, member count, then each member
/// as a full polygon record in the same byte order.
pub fn write_multi_polygon(out: &mut Vec<u8>, geom: &MultiPolygon, endianness: Endianness)
    requires
        geom@.wf(),
    ensures
        final(out)@ == old(out)@ + enc_multipolygon(geom@, endianness),
{
    write_u8(out, endianness.as_u8());
    write_u32(out, WKBType::MultiPolygon(geom.dim).as_u32(), endianness);
    let n = geom.polygons.len();
    let ghost pv = geom.polygons.deep_view();
    proof {
        assert(pv.len() == n);
    }
    write_u32(out, n as u32, endianness);
    proof {
        assert(pv.subrange(0, n as int) =~= pv);
        assert(out@ + polygons_bytes(pv, endianness) =~= old(out)@ + enc_multipolygon(
            geom@,
            endianness,
        ));
    }
    for i in 0..n
        invariant
            n == geom.polygons@.len(),
            pv == geom.polygons.deep_view(),
            pv.len() == n,
            geom@.wf(),
            out@ + polygons_bytes(pv.subrange(i as int, n as int), endianness) == old(out)@
                + enc_multipolygon(geom@, endianness),
    {
        proof {
            let s = pv.subrange(i as int, n as int);
            assert(s[0] == pv[i as int]);
            assert(pv[i as int] == geom.polygons@[i as int]@);
            assert(s.subrange(1, s.len() as int) =~= pv.subrange(i as int + 1, n as int));
        }
        write_polygon(out, &geom.polygons[i], endianness);
        proof {
            assert(out@ + polygons_bytes(pv.subrange(i as int + 1, n as int), endianness) =~= old(
                out,
            )@ + enc_multipolygon(geom@, endianness));
        }
    }
    proof {
        assert(pv.subrange(n as int, n as int) =~= Seq::<crate::geom::PolygonModel>::empty());
        assert(out@ =~= old(out)@ + enc_multipolygon(geom@, endianness));
    }
}

} // verus!
