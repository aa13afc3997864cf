//! Writing geometry collection records.

use vstd::prelude::*;

use crate::bytes::{write_u32, write_u8};
use crate::common::{Endianness, WKBType};
use crate::encoding::{enc_geometry, members_bytes, members_size};
use crate::geom::{geometries_model, lemma_geometries_model, GeometryCollection, GeometryModel};
use crate::writer::geometry::{geometry_wkb_size, write_geometry};

verus! {

/// The byte length of an encoded geometry collection record.
pub fn geometry_collection_wkb_size(geom: &GeometryCollection) -> (r: usize)
    requires
        9 + members_size(geom@.geometries) <= usize::MAX,
    ensures
        r == 9 + members_size(geom@.geometries),
    decreases geom, 1int,
{
    let ghost mv = geometries_model(geom.geometries@);
    proof {
        lemma_geometries_model(geom.geometries@);
        assert(mv.subrange(0, geom.geometries@.len() as int) =~= mv);
    }
    let mut sum: usize = 1 + 4 + 4;
    let n = geom.geometries.len();
    for i in 0..n
        invariant
            n == geom.geometries@.len(),
            mv == geometries_model(geom.geometries@),
            mv.len() == n,
            forall|k: int| 0 <= k < n ==> mv[k] == crate::geom::geometry_model(
                geom.geometries@[k],
            ),
            sum + members_size(mv.subrange(i as int, n as int)) == 9 + members_size(mv),
            9 + members_size(mv) <= usize::MAX,
        decreases n - i,
    {
        proof {
            let s = mv.subrange(i as int, n as int);
            assert(s[0] == mv[i as int]);
            assert(s.subrange(1, s.len() as int) =~= mv.subrange(i as int + 1, n as int));
        }
        sum = sum + geometry_wkb_size(&geom.geometries[i]);
    }
    proof {
        assert(mv.subrange(n as int, n as int) =~= Seq::<GeometryModel>::empty());
    }
    sum
}

/// Appends a geometry collection record: header, member count, then each
/// member as a full geometry record of its own kind, all in the same byte
/// order.
pub fn write_geometry_collection(out: &mut Vec<u8>, geom: &GeometryCollection, endianness: Endianness)
    requires
        GeometryModel::GeometryCollection(geom@).wf(),
    ensures
        final(out)@ == old(out)@ + enc_geometry(
            GeometryModel::GeometryCollection(geom@),
            endianness,
        ),
    decreases geom, 1int,
{
    write_u8(out, endianness.as_u8());
    write_u32(out, WKBType::GeometryCollection(geom.dim).as_u32(), endianness);
    let n = geom.geometries.len();
    let ghost mv = geometries_model(geom.geometries@);
    proof {
        lemma_geometries_model(geom.geometries@);
    }
    write_u32(out, n as u32, endianness);
    proof {
        assert(mv.subrange(0, n as int) =~= mv);
        assert(out@ + members_bytes(mv, endianness) =~= old(out)@ + enc_geometry(
            GeometryModel::GeometryCollection(geom@),
            endianness,
        ));
    }
    for i in 0..n
        invariant
            n == geom.geometries@.len(),
            mv == geometries_model(geom.geometries@),
            mv.len() == n,
            forall|k: int| 0 <= k < n ==> mv[k] == crate::geom::geometry_model(
                geom.geometries@[k],
            ),
            GeometryModel::GeometryCollection(geom@).wf(),
            out@ + members_bytes(mv.subrange(i as int, n as int), endianness) == old(out)@
                + enc_geometry(GeometryModel::GeometryCollection(geom@), endianness),
        decreases n - i,
    {
        proof {
            let s = mv.subrange(i as int, n as int);
            assert(s[0] == mv[i as int]);
            assert(s.subrange(1, s.len() as int) =~= mv.subrange(i as int + 1, n as int));
        }
        write_geometry(out, &geom.geometries[i], endianness);
        proof {
            assert(out@ + members_bytes(mv.subrange(i as int + 1, n as int), endianness) =~= old(
                out,
            )@ + enc_geometry(GeometryModel::GeometryCollection(geom@), endianness));
        }
    }
    proof {
        assert(mv.subrange(n as int, n as int) =~= Seq::<GeometryModel>::empty());
        assert(out@ =~= old(out)@ + enc_geometry(
            GeometryModel::GeometryCollection(geom@),
            endianness,
        ));
    }
}

} // verus!
