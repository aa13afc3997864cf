//! The point view: a decoded WKB point record.

use vstd::prelude::*;

use crate::bytes::{is_nan_bits, read_u64, u64_is_nan_bits};
use crate::common::{Endianness, WKBDimension, WKBError, WKBType};
use crate::decoding::{
    body_at, coord_at, dec_header, dec_point_body, dec_point_record, HeaderModel,
};
use crate::geom::{all_nan, PointModel};
use crate::reader::coord::Coord;
use crate::reader::util::read_header;

verus! {

/// A decoded point record: its place in the buffer and whether its body is
/// the all-NaN empty sentinel. Coordinate access is constant-time.
#[derive(Clone, Copy, Debug)]
pub struct Point {
    /// Where the record (its byte-order byte) starts.
    pub offset: usize,
    /// The dimensionality the type tag announced.
    pub dim: WKBDimension,
    /// The byte order of this record.
    pub byte_order: Endianness,
    /// Whether a 4-byte SRID sits between the tag and the body.
    pub has_srid: bool,
    /// Whether every axis of the body is NaN: the empty point.
    pub is_empty: bool,
}

impl Point {
    /// Where the coordinate doubles start.
    pub open spec fn spec_body(self) -> int {
        body_at(self.offset as int, self.has_srid)
    }

    /// The offset just past this record.
    pub open spec fn spec_end(self) -> int {
        self.spec_body() + 8 * self.dim.spec_size()
    }

    /// The number of bytes of this record.
    pub open spec fn spec_size(self) -> int {
        self.spec_end() - self.offset
    }

    /// The view matches the buffer: the header at `offset` announces this
    /// point, the body lies within the buffer, and the empty flag reflects
    /// the NaN sentinel.
    pub open spec fn wf(self, b: Seq<u8>) -> bool {
        &&& dec_header(b, self.offset as int) == Ok::<_, WKBError>(
            HeaderModel {
                order: self.byte_order,
                wkb_type: WKBType::Point(self.dim),
                has_srid: self.has_srid,
            },
        )
        &&& self.spec_end() <= b.len()
        &&& self.is_empty == all_nan(
            coord_at(b, self.spec_body(), self.dim.spec_size() as nat, self.byte_order),
        )
    }

    /// The point this view denotes: `None` when the body is the all-NaN
    /// sentinel.
    pub open spec fn abs(self, b: Seq<u8>) -> PointModel {
        PointModel {
            dim: self.dim,
            coord: if self.is_empty {
                None
            } else {
                Some(coord_at(b, self.spec_body(), self.dim.spec_size() as nat, self.byte_order))
            },
        }
    }

    /// Decodes the body of a point record whose header has been read:
    /// `width` doubles, which are scanned once for the empty sentinel.
    pub fn new(
        buf: &[u8],
        byte_order: Endianness,
        offset: usize,
        dim: WKBDimension,
        has_srid: bool,
    ) -> (r: Result<(Point, usize), WKBError>)
        requires
            dec_header(buf@, offset as int) == Ok::<_, WKBError>(
                HeaderModel { order: byte_order, wkb_type: WKBType::Point(dim), has_srid },
            ),
        ensures
            match r {
                Ok((p, end)) => {
                    &&& dec_point_body(buf@, body_at(offset as int, has_srid), byte_order, dim)
                        == Ok::<_, WKBError>((p.abs(buf@), end as int))
                    &&& p.wf(buf@)
                    &&& p == (Point { offset, dim, byte_order, has_srid, is_empty: p.is_empty })
                    &&& end == p.spec_end()
                },
                Err(e) => dec_point_body(buf@, body_at(offset as int, has_srid), byte_order, dim)
                    == Err::<(PointModel, int), _>(e),
            },
    {
        let len = buf.len();
        proof {
            // the header parsed, so its five bytes are in the buffer
            assert(offset + 5 <= buf@.len());
        }
        let body = if has_srid {
            if len - (offset + 5) < 4 {
                return Err(WKBError::TruncatedBuffer);
            }
            offset + 5 + 4
        } else {
            offset + 5
        };
        let w = dim.size();
        if len - body < 8 * w {
            return Err(WKBError::TruncatedBuffer);
        }
        let ghost c = coord_at(buf@, body as int, dim.spec_size() as nat, byte_order);
        let mut is_empty = true;
        for i in 0..w
            invariant
                w == dim.spec_size(),
                body + 8 * w <= buf@.len(),
                buf@.len() <= usize::MAX,
                c == coord_at(buf@, body as int, dim.spec_size() as nat, byte_order),
                is_empty <==> (forall|k: int| 0 <= k < i ==> is_nan_bits(#[trigger] c[k])),
        {
            let v = match read_u64(buf, body + 8 * i, byte_order) {
                Ok(v) => v,
                Err(_) => {
                    proof {
                        assert(false);
                    }
                    0
                },
            };
            proof {
                assert(c[i as int] == v);
            }
            if !u64_is_nan_bits(v) {
                is_empty = false;
            }
        }
        proof {
            assert(is_empty == all_nan(c));
        }
        let p = Point { offset, dim, byte_order, has_srid, is_empty };
        Ok((p, body + 8 * w))
    }

    /// The number of bytes of this record, header and SRID included.
    pub fn size(&self) -> (r: u64)
        ensures
            r == self.spec_size(),
    {
        let header: u64 = if self.has_srid {
            1 + 4 + 4
        } else {
            1 + 4
        };
        header + self.dim.size() as u64 * 8
    }

    /// The dimensionality of this point.
    pub fn dimension(&self) -> (r: WKBDimension)
        ensures
            r == self.dim,
    {
        self.dim
    }

    /// The coordinate of this point, or `None` when the record holds the
    /// all-NaN empty sentinel.
    pub fn coord(&self, buf: &[u8]) -> (r: Option<Coord>)
        requires
            self.wf(buf@),
        ensures
            match r {
                Some(c) => {
                    &&& !self.is_empty
                    &&& c.wf(buf@)
                    &&& self.abs(buf@).coord == Some(c.abs(buf@))
                },
                None => self.is_empty && self.abs(buf@).coord is None,
            },
    {
        let len = buf.len();
        if self.is_empty {
            None
        } else {
            let body = if self.has_srid {
                self.offset + 5 + 4
            } else {
                self.offset + 5
            };
            Some(Coord { offset: body, dim: self.dim, byte_order: self.byte_order })
        }
    }

    /// Copies this point out of the buffer into the in-memory model.
    pub fn to_geometry(&self, buf: &[u8]) -> (r: crate::geom::Point)
        requires
            self.wf(buf@),
        ensures
            r@ == self.abs(buf@),
    {
        match self.coord(buf) {
            Some(c) => {
                let axes = c.to_axes(buf);
                crate::geom::Point { dim: self.dim, coord: Some(axes) }
            },
            None => crate::geom::Point { dim: self.dim, coord: None },
        }
    }
}

/// Decodes one full point record at `p` inside a multi point: the header
/// must announce a plain point of the container's dimensionality.
pub(crate) fn check_point_record(buf: &[u8], p: usize, dim: WKBDimension) -> (r: Result<
    (Point, usize),
    WKBError,
>)
    ensures
        match r {
            Ok((pt, end)) => {
                &&& dec_point_record(buf@, p as int, dim) == Ok::<_, WKBError>(
                    (pt.abs(buf@), end as int),
                )
                &&& pt.wf(buf@)
                &&& pt.offset == p
                &&& !pt.has_srid
                &&& pt.dim == dim
                &&& end == pt.spec_end()
            },
            Err(e) => dec_point_record(buf@, p as int, dim) == Err::<(PointModel, int), _>(e),
        },
{
    let (order, wkb_type, has_srid) = match read_header(buf, p) {
        Ok(h) => h,
        Err(e) => {
            return Err(e);
        },
    };
    let matches_kind = match wkb_type {
        WKBType::Point(d) => d == dim,
        _ => false,
    };
    if has_srid || !matches_kind {
        return Err(WKBError::Malformed);
    }
    Point::new(buf, order, p, dim, false)
}

} // verus!
