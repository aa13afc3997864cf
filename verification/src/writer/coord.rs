//! Writing single coordinates and counted coordinate runs.

use vstd::prelude::*;

use crate::bytes::{write_u32, write_u64, NAN_BITS};
use crate::common::Endianness;
use crate::encoding::{coord_bytes, coords_bytes, counted_coords_bytes, nan_coord};
use crate::geom::coords_view;

verus! {

/// Appends one coordinate: each axis as eight bytes in the given order.
pub(crate) fn write_coord(out: &mut Vec<u8>, coord: &Vec<u64>, order: Endianness)
    ensures
        final(out)@ == old(out)@ + coord_bytes(coord@, order),
{
    let n = coord.len();
    proof {
        assert(coord@.subrange(0, n as int) =~= coord@);
    }
    for i in 0..n
        invariant
            n == coord@.len(),
            out@ + coord_bytes(coord@.subrange(i as int, n as int), order) == old(out)@
                + coord_bytes(coord@, order),
    {
        proof {
            let s = coord@.subrange(i as int, n as int);
            assert(s[0] == coord@[i as int]);
            assert(s.subrange(1, s.len() as int) =~= coord@.subrange(i as int + 1, n as int));
        }
        write_u64(out, coord[i], order);
        proof {
            assert(out@ + coord_bytes(coord@.subrange(i as int + 1, n as int), order) =~= old(
                out,
            )@ + coord_bytes(coord@, order));
        }
    }
    proof {
        assert(coord@.subrange(n as int, n as int) =~= Seq::<u64>::empty());
        assert(out@ =~= old(out)@ + coord_bytes(coord@, order));
    }
}

/// A coordinate of `width` NaN axes: the body of an empty point.
pub(crate) fn nan_axes(width: usize) -> (v: Vec<u64>)
    ensures
        v@ == nan_coord(width as nat),
{
    let mut v: Vec<u64> = Vec::new();
    for i in 0..width
        invariant
            v@.len() == i,
            forall|k: int| 0 <= k < i ==> v@[k] == NAN_BITS,
    {
        v.push(NAN_BITS);
    }
    proof {
        assert(v@ =~= nan_coord(width as nat));
    }
    v
}

/// A fresh copy of a coordinate's axes.
pub(crate) fn copy_axes(v: &Vec<u64>) -> (r: Vec<u64>)
    ensures
        r@ == v@,
{
    let mut r: Vec<u64> = Vec::new();
    let n = v.len();
    for i in 0..n
        invariant
            n == v@.len(),
            r@ =~= v@.subrange(0, i as int),
    {
        r.push(v[i]);
        proof {
            assert(r@ =~= v@.subrange(0, i as int + 1));
        }
    }
    proof {
        assert(r@ =~= v@);
    }
    r
}

/// Appends a 32-bit count and that many coordinates: a line string body, and
/// the whole of a polygon ring.
pub(crate) fn write_counted_coords(out: &mut Vec<u8>, coords: &Vec<Vec<u64>>, order: Endianness)
    requires
        coords@.len() <= u32::MAX,
    ensures
        final(out)@ == old(out)@ + counted_coords_bytes(coords_view(*coords), order),
{
    let n = coords.len();
    write_u32(out, n as u32, order);
    let ghost cv = coords_view(*coords);
    proof {
        assert(cv.subrange(0, n as int) =~= cv);
        assert(out@ + coords_bytes(cv, order) =~= old(out)@ + counted_coords_bytes(cv, order));
    }
    for i in 0..n
        invariant
            n == coords@.len(),
            cv == coords_view(*coords),
            cv.len() == n,
            out@ + coords_bytes(cv.subrange(i as int, n as int), order) == old(out)@
                + counted_coords_bytes(cv, order),
    {
        proof {
            let s = cv.subrange(i as int, n as int);
            assert(s[0] == cv[i as int]);
            assert(cv[i as int] == coords@[i as int]@);
            assert(s.subrange(1, s.len() as int) =~= cv.subrange(i as int + 1, n as int));
        }
        write_coord(out, &coords[i], order);
        proof {
            assert(out@ + coords_bytes(cv.subrange(i as int + 1, n as int), order) =~= old(out)@
                + counted_coords_bytes(cv, order));
        }
    }
    proof {
        assert(cv.subrange(n as int, n as int) =~= Seq::<Seq<u64>>::empty());
        assert(out@ =~= old(out)@ + counted_coords_bytes(cv, order));
    }
}

} // verus!
