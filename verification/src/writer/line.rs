//! Writing line segments: the format has no tag for a bare segment, so a
//! line encodes as a 2-point line string.

use vstd::prelude::*;

use crate::common::Endianness;
use crate::encoding::{coord_size, enc_linestring};
use crate::geom::{line_coords, Line, LineString, LineStringModel};
use crate::writer::coord::copy_axes;
use crate::writer::linestring::write_line_string;

verus! {

/// The byte length a line segment encodes to: a 2-point line string record.
pub fn line_wkb_size(geom: &Line) -> (r: usize)
    ensures
        r == 9 + 2 * coord_size(geom.dim),
{
    let header: usize = 1 + 4 + 4;
    header + 2 * (geom.dim.size() * 8)
}

/// Appends a line segment as a 2-point line string record: start point,
/// then end point.
pub fn write_line(out: &mut Vec<u8>, geom: &Line, endianness: Endianness)
    requires
        geom.wf(),
    ensures
        final(out)@ == old(out)@ + enc_linestring(
            LineStringModel { dim: geom.dim, coords: line_coords(*geom) },
            endianness,
        ),
{
    let mut coords: Vec<Vec<u64>> = Vec::new();
    coords.push(copy_axes(&geom.start));
    coords.push(copy_axes(&geom.end));
    let ls = LineString { dim: geom.dim, coords };
    proof {
        assert(ls@.coords =~= line_coords(*geom));
        assert(ls@ == LineStringModel { dim: geom.dim, coords: line_coords(*geom) });
    }
    write_line_string(out, &ls, endianness);
}

} // verus!
