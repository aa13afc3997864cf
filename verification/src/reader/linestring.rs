//! The line string view: a decoded WKB line string record.

use vstd::prelude::*;

use crate::bytes::{read_u32, u32_at};
use crate::common::{Endianness, WKBDimension, WKBError, WKBType};
use crate::decoding::{body_at, coord_at, dec_counted_coords, dec_header, HeaderModel};
use crate::geom::LineStringModel;
use crate::reader::coord::Coord;

verus! {

/// A decoded line string record: after one scan of the header and count,
/// any coordinate is a constant-time read at a closed-form offset.
#[derive(Clone, Copy, Debug)]
pub struct LineString {
    /// Where the record (its byte-order byte) starts; non-zero for a line
    /// string nested inside another geometry.
    pub offset: usize,
    /// The byte order of this record.
    pub byte_order: Endianness,
    /// The number of points the record declares.
    pub num_points: u32,
    /// The dimensionality the type tag announced.
    pub dim: WKBDimension,
    /// Whether a 4-byte SRID sits between the tag and the body.
    pub has_srid: bool,
}

impl LineString {
    /// Where the point count sits.
    pub open spec fn spec_body(self) -> int {
        body_at(self.offset as int, self.has_srid)
    }

    /// Where the coordinate doubles start.
    pub open spec fn spec_content(self) -> int {
        self.spec_body() + 4
    }

    /// The offset just past this record.
    pub open spec fn spec_end(self) -> int {
        self.spec_content() + self.num_points * (8 * self.dim.spec_size())
    }

    /// The number of bytes of this record.
    pub open spec fn spec_size(self) -> int {
        self.spec_end() - self.offset
    }

    /// The view matches the buffer: the header announces this line string,
    /// the count field holds `num_points`, and all coordinates lie within
    /// the buffer.
    pub open spec fn wf(self, b: Seq<u8>) -> bool {
        &&& dec_header(b, self.offset as int) == Ok::<_, WKBError>(
            HeaderModel {
                order: self.byte_order,
                wkb_type: WKBType::LineString(self.dim),
                has_srid: self.has_srid,
            },
        )
        &&& self.spec_body() + 4 <= b.len()
        &&& self.num_points == u32_at(b, self.spec_body(), self.byte_order)
        &&& self.spec_end() <= b.len()
    }

    /// The line string this view denotes: its coordinates, read pointwise at
    /// their closed-form offsets.
    pub open spec fn abs(self, b: Seq<u8>) -> LineStringModel {
        LineStringModel {
            dim: self.dim,
            coords: Seq::new(
                self.num_points as nat,
                |i: int|
                    coord_at(
                        b,
                        self.spec_content() + i * (8 * self.dim.spec_size()),
                        self.dim.spec_size() as nat,
                        self.byte_order,
                    ),
            ),
        }
    }

    /// Decodes the body of a line string record whose header has been read:
    /// the point count, then a bounds check covering every coordinate.
    pub fn new(
        buf: &[u8],
        byte_order: Endianness,
        offset: usize,
        dim: WKBDimension,
        has_srid: bool,
    ) -> (r: Result<(LineString, usize), WKBError>)
        requires
            dec_header(buf@, offset as int) == Ok::<_, WKBError>(
                HeaderModel { order: byte_order, wkb_type: WKBType::LineString(dim), has_srid },
            ),
        ensures
            match r {
                Ok((ls, end)) => {
                    &&& dec_counted_coords(
                        buf@,
                        body_at(offset as int, has_srid),
                        byte_order,
                        dim,
                    ) == Ok::<_, WKBError>((ls.abs(buf@).coords, end as int))
                    &&& ls.wf(buf@)
                    &&& ls == (LineString {
                        offset,
                        byte_order,
                        num_points: ls.num_points,
                        dim,
                        has_srid,
                    })
                    &&& end == ls.spec_end()
                },
                Err(e) => dec_counted_coords(
                    buf@,
                    body_at(offset as int, has_srid),
                    byte_order,
                    dim,
                ) == Err::<(Seq<Seq<u64>>, int), _>(e),
            },
    {
        let len = buf.len();
        proof {
            assert(offset + 5 <= buf@.len());
        }
        let body = if has_srid {
            if len - (offset + 5) < 4 {
                return Err(WKBError::TruncatedBuffer);
            }
            offset + 5 + 4
        } else {
            offset + 5
        };
        let num_points = match read_u32(buf, body, byte_order) {
            Ok(v) => v,
            Err(e) => {
                return Err(e);
            },
        };
        let w = dim.size();
        proof {
            assert(dim.spec_size() <= 4);
            crate::bytes::lemma_mul_le(num_points as int, 0xffffffff, 8 * w as int, 32);
        }
        let need: u64 = (num_points as u64) * ((8 * w) as u64);
        if ((len - (body + 4)) as u64) < need {
            return Err(WKBError::TruncatedBuffer);
        }
        let ls = LineString { offset, byte_order, num_points, dim, has_srid };
        let end = body + 4 + (need as usize);
        proof {
            assert(ls.spec_end() == end);
            assert(ls.abs(buf@).coords =~= dec_counted_coords(
                buf@,
                body_at(offset as int, has_srid),
                byte_order,
                dim,
            )->Ok_0.0);
        }
        Ok((ls, end))
    }

    /// The number of bytes of this record, header and SRID included.
    pub fn size(&self) -> (r: u64)
        ensures
            r == self.spec_size(),
    {
        let header: u64 = if self.has_srid {
            1 + 4 + 4
        } else {
            1 + 4
        };
        proof {
            assert(self.dim.spec_size() <= 4);
            crate::bytes::lemma_mul_le(
                8 * self.dim.spec_size() as int,
                32,
                self.num_points as int,
                0xffffffff,
            );
        }
        header + (self.dim.size() as u64 * 8) * self.num_points as u64 + 4
    }

    /// The absolute byte offset of coordinate `i`: a closed-form formula, so
    /// any coordinate is reachable in constant time.
    pub fn coord_offset(&self, i: u64) -> (r: u64)
        requires
            i <= self.num_points,
            self.offset + self.spec_size() <= u64::MAX,
        ensures
            r == self.spec_content() + i * (8 * self.dim.spec_size()),
    {
        let header: u64 = if self.has_srid {
            1 + 4 + 4
        } else {
            1 + 4
        };
        proof {
            assert(self.dim.spec_size() <= 4);
            assert(i * (8 * self.dim.spec_size()) <= self.num_points * (8 * self.dim.spec_size())
                && (self.dim.spec_size() * 8) * i == i * (8 * self.dim.spec_size()))
                by (nonlinear_arith)
                requires
                    i <= self.num_points,
                    self.dim.spec_size() >= 0,
            ;
            crate::bytes::lemma_mul_le(8 * self.dim.spec_size() as int, 32, i as int, 0xffffffff);
        }
        self.offset as u64 + header + 4 + (self.dim.size() as u64 * 8) * i
    }

    /// The dimensionality of this line string.
    pub fn dimension(&self) -> (r: WKBDimension)
        ensures
            r == self.dim,
    {
        self.dim
    }

    /// How many points the record holds.
    pub fn num_coords(&self) -> (r: usize)
        ensures
            r == self.num_points,
    {
        self.num_points as usize
    }

    /// The coordinate at index `i`, in constant time.
    pub fn coord(&self, buf: &[u8], i: usize) -> (r: Coord)
        requires
            self.wf(buf@),
            i < self.num_points,
        ensures
            r.wf(buf@),
            r.abs(buf@) == self.abs(buf@).coords[i as int],
            r.dim == self.dim,
    {
        let len = buf.len();
        let w = dim_width(self.dim);
        let body = if self.has_srid {
            self.offset + 5 + 4
        } else {
            self.offset + 5
        };
        proof {
            assert((i + 1) * (8 * self.dim.spec_size()) <= self.num_points * (8
                * self.dim.spec_size())) by (nonlinear_arith)
                requires
                    i + 1 <= self.num_points,
                    self.dim.spec_size() >= 0,
            ;
            assert((i + 1) * (8 * self.dim.spec_size()) == i * (8 * self.dim.spec_size()) + 8
                * self.dim.spec_size()) by (nonlinear_arith);
        }
        let off = body + 4 + i * (8 * w);
        Coord { offset: off, dim: self.dim, byte_order: self.byte_order }
    }

    /// Copies this line string out of the buffer into the in-memory model.
    pub fn to_geometry(&self, buf: &[u8]) -> (r: crate::geom::LineString)
        requires
            self.wf(buf@),
        ensures
            r@ == self.abs(buf@),
    {
        let n = self.num_coords();
        let mut coords: Vec<Vec<u64>> = Vec::new();
        for i in 0..n
            invariant
                n == self.num_points,
                self.wf(buf@),
                coords@.len() == i,
                forall|k: int| 0 <= k < i ==> coords@[k]@ == self.abs(buf@).coords[k],
        {
            let c = self.coord(buf, i);
            let axes = c.to_axes(buf);
            coords.push(axes);
        }
        let r = crate::geom::LineString { dim: self.dim, coords };
        proof {
            assert(r@.coords =~= self.abs(buf@).coords);
        }
        r
    }
}

/// The width of a dimensionality, as a plain helper for offset arithmetic.
fn dim_width(dim: WKBDimension) -> (r: usize)
    ensures
        r == dim.spec_size(),
{
    dim.size()
}

} // verus!
