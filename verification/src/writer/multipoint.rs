//! Writing multi point records.

use vstd::prelude::*;

use crate::bytes::{write_u32, write_u8};
use crate::common::{Endianness, WKBType};
use crate::encoding::{enc_multipoint, multipoint_size, points_bytes};
use crate::geom::MultiPoint;
use crate::writer::point::{point_wkb_size, write_point};

verus! {

/// The byte length of an encoded multi point record: every member is a full
/// point record of the same fixed size.
pub fn multi_point_wkb_size(geom: &MultiPoint) -> (r: usize)
    requires
        multipoint_size(geom@) <= usize::MAX,
    ensures
        r == multipoint_size(geom@),
{
    proof {
        assert(geom.points.deep_view().len() == geom.points@.len());
    }
    let header: usize = 1 + 4 + 4;
    header + geom.points.len() * point_wkb_size(geom.dim)
}

/// Appends a multi point record: header, member count, then each member as
/// a full point record in the same byte order.
pub fn write_multi_point(out: &mut Vec<u8>, geom: &MultiPoint, endianness: Endianness)
    requires
        geom@.wf(),
    ensures
        final(out)@ == old(out)@ + enc_multipoint(geom@, endianness),
{
    write_u8(out, endianness.as_u8());
    write_u32(out, WKBType::MultiPoint(geom.dim).as_u32(), endianness);
    let n = geom.points.len();
    let ghost pv = geom.points.deep_view();
    proof {
        assert(pv.len() == n);
    }
    write_u32(out, n as u32, endianness);
    proof {
        assert(pv.subrange(0, n as int) =~= pv);
        assert(out@ + points_bytes(pv, endianness) =~= old(out)@ + enc_multipoint(
            geom@,
            endianness,
        ));
    }
    for i in 0..n
        invariant
            n == geom.points@.len(),
            pv == geom.points.deep_view(),
            pv.len() == n,
            geom@.wf(),
            out@ + points_bytes(pv.subrange(i as int, n as int), endianness) == old(out)@
                + enc_multipoint(geom@, endianness),
    {
        proof {
            let s = pv.subrange(i as int, n as int);
            assert(s[0] == pv[i as int]);
            assert(pv[i as int] == geom.points@[i as int]@);
            assert(s.subrange(1, s.len() as int) =~= pv.subrange(i as int + 1, n as int));
        }
        write_point(out, &geom.points[i], endianness);
        proof {
            assert(out@ + points_bytes(pv.subrange(i as int + 1, n as int), endianness) =~= old(
                out,
            )@ + enc_multipoint(geom@, endianness));
        }
    }
    proof {
        assert(pv.subrange(n as int, n as int) =~= Seq::<crate::geom::PointModel>::empty());
        assert(out@ =~= old(out)@ + enc_multipoint(geom@, endianness));
    }
}

} // verus!
