//! Writing line string records.

use vstd::prelude::*;

use crate::bytes::{write_u32, write_u8};
use crate::common::{Endianness, WKBType};
use crate::encoding::{coord_size, enc_linestring, linestring_size};
use crate::geom::LineString;
use crate::writer::coord::write_counted_coords;

verus! {

/// The byte length of an encoded line string record.
pub fn line_string_wkb_size(geom: &LineString) -> (r: usize)
    requires
        linestring_size(geom@) <= usize::MAX,
    ensures
        r == linestring_size(geom@),
{
    let header: usize = 1 + 4 + 4;
    let each_coord = geom.dim.size() * 8;
    proof {
        assert(geom.coords@.len() * coord_size(geom.dim) == linestring_size(geom@) - 9);
    }
    let all_coords = geom.coords.len() * each_coord;
    header + all_coords
}

/// Appends a line string record: header, point count, then the coordinates.
pub fn write_line_string(out: &mut Vec<u8>, geom: &LineString, endianness: Endianness)
    requires
        geom@.wf(),
    ensures
        final(out)@ == old(out)@ + enc_linestring(geom@, endianness),
{
    write_u8(out, endianness.as_u8());
    write_u32(out, WKBType::LineString(geom.dim).as_u32(), endianness);
    write_counted_coords(out, &geom.coords, endianness);
    proof {
        assert(out@ =~= old(out)@ + enc_linestring(geom@, endianness));
    }
}

} // verus!
