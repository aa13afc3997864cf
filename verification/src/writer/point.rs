//! Writing point records.

use vstd::prelude::*;

use crate::bytes::{write_u32, write_u8};
use crate::common::{Endianness, WKBDimension, WKBType};
use crate::encoding::{enc_point, point_size};
use crate::geom::Point;
use crate::writer::coord::{nan_axes, write_coord};

verus! {

/// The byte length of an encoded point record of the given dimensionality.
pub fn point_wkb_size(dim: WKBDimension) -> (r: usize)
    ensures
        r == point_size(dim),
{
    let header: usize = 1 + 4;
    header + dim.size() * 8
}

/// Appends a point record: header, then the coordinate — or `width` NaN
/// doubles when the point is empty.
pub fn write_point(out: &mut Vec<u8>, geom: &Point, endianness: Endianness)
    requires
        geom@.wf(),
    ensures
        final(out)@ == old(out)@ + enc_point(geom@, endianness),
{
    write_u8(out, endianness.as_u8());
    write_u32(out, WKBType::Point(geom.dim).as_u32(), endianness);
    match &geom.coord {
        Some(c) => {
            write_coord(out, c, endianness);
        },
        None => {
            let nan = nan_axes(geom.dim.size());
            write_coord(out, &nan, endianness);
        },
    }
    proof {
        assert(out@ =~= old(out)@ + enc_point(geom@, endianness));
    }
}

} // verus!
