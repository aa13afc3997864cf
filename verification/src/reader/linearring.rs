//! The linear ring view: a polygon ring inside a WKB buffer.
//!
//! A ring has the same layout as a line string body — a point count and the
//! coordinates — but no header of its own: byte order and dimensionality
//! come from the enclosing polygon record.

use vstd::prelude::*;

use crate::bytes::{read_u32, u32_at};
use crate::common::{Endianness, WKBDimension, WKBError};
use crate::decoding::{coord_at, dec_counted_coords};
use crate::reader::coord::Coord;

verus! {

/// A decoded ring: a byte offset, a point count and the ring's coordinate
/// geometry, with constant-time access to each coordinate.
#[derive(Clone, Copy, Debug)]
pub struct WKBLinearRing {
    /// Where the ring (its point count) starts.
    pub offset: usize,
    /// The byte order of the enclosing record.
    pub byte_order: Endianness,
    /// The number of points the ring declares.
    pub num_points: u32,
    /// The dimensionality of the enclosing record.
    pub dim: WKBDimension,
}

impl WKBLinearRing {
    /// Where the coordinate doubles start.
    pub open spec fn spec_content(self) -> int {
        self.offset + 4
    }

    /// The offset just past this ring.
    pub open spec fn spec_end(self) -> int {
        self.spec_content() + self.num_points * (8 * self.dim.spec_size())
    }

    /// The number of bytes of this ring.
    pub open spec fn spec_size(self) -> int {
        self.spec_end() - self.offset
    }

    /// The view matches the buffer: the count field holds `num_points` and
    /// all coordinates lie within the buffer.
    pub open spec fn wf(self, b: Seq<u8>) -> bool {
        &&& self.offset + 4 <= b.len()
        &&& self.num_points == u32_at(b, self.offset as int, self.byte_order)
        &&& self.spec_end() <= b.len()
    }

    /// The coordinates this ring denotes, read pointwise at their
    /// closed-form offsets.
    pub open spec fn abs(self, b: Seq<u8>) -> Seq<Seq<u64>> {
        Seq::new(
            self.num_points as nat,
            |i: int|
                coord_at(
                    b,
                    self.spec_content() + i * (8 * self.dim.spec_size()),
                    self.dim.spec_size() as nat,
                    self.byte_order,
                ),
        )
    }

    /// Decodes a ring at `offset`: the point count, then a bounds check
    /// covering every coordinate.
    pub fn new(buf: &[u8], byte_order: Endianness, offset: usize, dim: WKBDimension) -> (r: Result<
        (WKBLinearRing, usize),
        WKBError,
    >)
        ensures
            match r {
                Ok((ring, end)) => {
                    &&& dec_counted_coords(buf@, offset as int, byte_order, dim) == Ok::<
                        _,
                        WKBError,
                    >((ring.abs(buf@), end as int))
                    &&& ring.wf(buf@)
                    &&& ring == (WKBLinearRing {
                        offset,
                        byte_order,
                        num_points: ring.num_points,
                        dim,
                    })
                    &&& end == ring.spec_end()
                },
                Err(e) => dec_counted_coords(buf@, offset as int, byte_order, dim) == Err::<
                    (Seq<Seq<u64>>, int),
                    _,
                >(e),
            },
    {
        let len = buf.len();
        let num_points = match read_u32(buf, offset, byte_order) {
            Ok(v) => v,
            Err(e) => {
                return Err(e);
            },
        };
        let w = dim.size();
        proof {
            assert(dim.spec_size() <= 4);
            crate::bytes::lemma_mul_le(num_points as int, 0xffffffff, 8 * w as int, 32);
        }
        let need: u64 = (num_points as u64) * ((8 * w) as u64);
        if ((len - (offset + 4)) as u64) < need {
            return Err(WKBError::TruncatedBuffer);
        }
        let ring = WKBLinearRing { offset, byte_order, num_points, dim };
        let end = offset + 4 + (need as usize);
        proof {
            assert(ring.spec_end() == end);
            assert(ring.abs(buf@) =~= dec_counted_coords(
                buf@,
                offset as int,
                byte_order,
                dim,
            )->Ok_0.0);
        }
        Ok((ring, end))
    }

    /// The number of bytes of this ring: the count field plus the
    /// coordinates (a ring has no header of its own).
    pub fn size(&self) -> (r: u64)
        ensures
            r == self.spec_size(),
    {
        proof {
            assert(self.dim.spec_size() <= 4);
            crate::bytes::lemma_mul_le(
                8 * self.dim.spec_size() as int,
                32,
                self.num_points as int,
                0xffffffff,
            );
        }
        (self.dim.size() as u64 * 8) * self.num_points as u64 + 4
    }

    /// The absolute byte offset of coordinate `i`: a closed-form formula.
    pub fn coord_offset(&self, i: u64) -> (r: u64)
        requires
            i <= self.num_points,
            self.offset + self.spec_size() <= u64::MAX,
        ensures
            r == self.spec_content() + i * (8 * self.dim.spec_size()),
    {
        proof {
            assert(self.dim.spec_size() <= 4);
            assert(i * (8 * self.dim.spec_size()) <= self.num_points * (8 * self.dim.spec_size())
                && (self.dim.spec_size() * 8) * i == i * (8 * self.dim.spec_size()))
                by (nonlinear_arith)
                requires
                    i <= self.num_points,
                    self.dim.spec_size() >= 0,
            ;
            crate::bytes::lemma_mul_le(8 * self.dim.spec_size() as int, 32, i as int, 0xffffffff);
        }
        self.offset as u64 + 4 + (self.dim.size() as u64 * 8) * i
    }

    /// How many points the ring holds.
    pub fn num_coords(&self) -> (r: usize)
        ensures
            r == self.num_points,
    {
        self.num_points as usize
    }

    /// The coordinate at index `i`, in constant time.
    pub fn coord(&self, buf: &[u8], i: usize) -> (r: Coord)
        requires
            self.wf(buf@),
            i < self.num_points,
        ensures
            r.wf(buf@),
            r.abs(buf@) == self.abs(buf@)[i as int],
            r.dim == self.dim,
    {
        let len = buf.len();
        let w = self.dim.size();
        proof {
            assert((i + 1) * (8 * self.dim.spec_size()) <= self.num_points * (8
                * self.dim.spec_size())) by (nonlinear_arith)
                requires
                    i + 1 <= self.num_points,
                    self.dim.spec_size() >= 0,
            ;
            assert((i + 1) * (8 * self.dim.spec_size()) == i * (8 * self.dim.spec_size()) + 8
                * self.dim.spec_size()) by (nonlinear_arith);
        }
        let off = self.offset + 4 + i * (8 * w);
        Coord { offset: off, dim: self.dim, byte_order: self.byte_order }
    }

    /// Copies this ring's coordinates out of the buffer.
    pub fn to_coords(&self, buf: &[u8]) -> (r: Vec<Vec<u64>>)
        requires
            self.wf(buf@),
        ensures
            crate::geom::coords_view(r) == self.abs(buf@),
    {
        let n = self.num_coords();
        let mut coords: Vec<Vec<u64>> = Vec::new();
        for i in 0..n
            invariant
                n == self.num_points,
                self.wf(buf@),
                coords@.len() == i,
                forall|k: int| 0 <= k < i ==> coords@[k]@ == self.abs(buf@)[k],
        {
            let c = self.coord(buf, i);
            let axes = c.to_axes(buf);
            coords.push(axes);
        }
        proof {
            assert(crate::geom::coords_view(coords) =~= self.abs(buf@));
        }
        coords
    }
}

} // verus!
