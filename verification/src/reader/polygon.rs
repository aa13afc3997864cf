//! The polygon view: a decoded WKB polygon record.
//!
//! Ring sizes depend on their own point counts, so construction walks the
//! rings once, recording each ring's offset; after that any coordinate of
//! any ring is a constant-time read.

use vstd::prelude::*;

use crate::bytes::{read_u32};
use crate::common::{Endianness, WKBDimension, WKBError, WKBType};
use crate::decoding::{
    body_at, dec_header, dec_polygon_body, dec_rings, HeaderModel,
};
use crate::geom::PolygonModel;
use crate::reader::linearring::WKBLinearRing;

verus! {

/// A decoded polygon record: one ring view per ring. Ring 0 is the exterior
/// ring; a polygon with no rings at all is explicitly empty.
#[derive(Clone, Debug)]
pub struct Polygon {
    /// Where the record (its byte-order byte) starts.
    pub offset: usize,
    /// The byte order of this record.
    pub byte_order: Endianness,
    /// The dimensionality the type tag announced.
    pub dim: WKBDimension,
    /// Whether a 4-byte SRID sits between the tag and the body.
    pub has_srid: bool,
    /// One view per ring, in record order.
    pub rings: Vec<WKBLinearRing>,
    /// The total number of bytes of this record, cached from the scan.
    pub size: usize,
}

impl Polygon {
    /// Where the ring count sits.
    pub open spec fn spec_body(self) -> int {
        body_at(self.offset as int, self.has_srid)
    }

    /// The offset just past this record.
    pub open spec fn spec_end(self) -> int {
        self.offset + self.size
    }

    /// The rings this view denotes.
    pub open spec fn spec_rings(self, b: Seq<u8>) -> Seq<Seq<Seq<u64>>> {
        Seq::new(self.rings@.len() as nat, |k: int| self.rings@[k].abs(b))
    }

    /// The polygon this view denotes.
    pub open spec fn abs(self, b: Seq<u8>) -> PolygonModel {
        PolygonModel { dim: self.dim, rings: self.spec_rings(b) }
    }

    /// The view matches the buffer: the header announces this polygon, the
    /// body decodes to exactly these rings, and each ring view is itself
    /// well-formed.
    pub open spec fn wf(self, b: Seq<u8>) -> bool {
        &&& dec_header(b, self.offset as int) == Ok::<_, WKBError>(
            HeaderModel {
                order: self.byte_order,
                wkb_type: WKBType::Polygon(self.dim),
                has_srid: self.has_srid,
            },
        )
        &&& dec_polygon_body(b, self.spec_body(), self.byte_order, self.dim) == Ok::<_, WKBError>(
            (self.abs(b), self.spec_end()),
        )
        &&& forall|k: int|
            0 <= k < self.rings@.len() ==> (#[trigger] self.rings@[k]).wf(b)
                && self.rings@[k].dim == self.dim && self.rings@[k].byte_order == self.byte_order
    }

    /// Decodes the body of a polygon record whose header has been read: the
    /// ring count, then one pass over the rings recording their offsets.
    #[verifier::loop_isolation(false)]
    #[verifier::rlimit(60)]
    pub fn new(
        buf: &[u8],
        byte_order: Endianness,
        offset: usize,
        dim: WKBDimension,
        has_srid: bool,
    ) -> (r: Result<(Polygon, usize), WKBError>)
        requires
            dec_header(buf@, offset as int) == Ok::<_, WKBError>(
                HeaderModel { order: byte_order, wkb_type: WKBType::Polygon(dim), has_srid },
            ),
        ensures
            match r {
                Ok((p, end)) => {
                    &&& dec_polygon_body(buf@, body_at(offset as int, has_srid), byte_order, dim)
                        == Ok::<_, WKBError>((p.abs(buf@), end as int))
                    &&& p.wf(buf@)
                    &&& p.offset == offset
                    &&& p.byte_order == byte_order
                    &&& p.dim == dim
                    &&& p.has_srid == has_srid
                    &&& end == p.spec_end()
                },
                Err(e) => dec_polygon_body(buf@, body_at(offset as int, has_srid), byte_order, dim)
                    == Err::<(PolygonModel, int), _>(e),
            },
    {
        let len = buf.len();
        proof {
            assert(offset + 5 <= buf@.len());
        }
        let body = if has_srid {
            if len - (offset + 5) < 4 {
                return Err(WKBError::TruncatedBuffer);
            }
            offset + 5 + 4
        } else {
            offset + 5
        };
        let n = match read_u32(buf, body, byte_order) {
            Ok(v) => v,
            Err(e) => {
                return Err(e);
            },
        };
        let count = n as usize;
        let mut rings: Vec<WKBLinearRing> = Vec::new();
        let mut cur: usize = body + 4;
        proof {
            let d = dec_rings(buf@, cur as int, byte_order, dim, n as nat);
            if d is Ok {
                assert(Seq::<Seq<Seq<u64>>>::empty() + d->Ok_0.0 =~= d->Ok_0.0);
            }
        }
        for i in 0..count
            invariant
                count == n,
                body + 4 <= cur <= buf@.len(),
                rings@.len() == i,
                forall|k: int|
                    0 <= k < i ==> (#[trigger] rings@[k]).wf(buf@) && rings@[k].dim == dim
                        && rings@[k].byte_order == byte_order,
                dec_rings(buf@, body + 4, byte_order, dim, n as nat) == (match dec_rings(
                    buf@,
                    cur as int,
                    byte_order,
                    dim,
                    (n - i) as nat,
                ) {
                    Ok(pr) => Ok::<_, WKBError>(
                        (Seq::new(rings@.len() as nat, |k: int| rings@[k].abs(buf@)) + pr.0, pr.1),
                    ),
                    Err(e) => Err(e),
                }),
        {
            let ghost prev_partial = Seq::new(rings@.len() as nat, |k: int| rings@[k].abs(buf@));
            let (ring, end) = match WKBLinearRing::new(buf, byte_order, cur, dim) {
                Ok(re) => re,
                Err(e) => {
                    proof {
                        assert(dec_rings(buf@, cur as int, byte_order, dim, (n - i) as nat)
                            == Err::<(Seq<Seq<Seq<u64>>>, int), WKBError>(e));
                        assert(dec_polygon_body(
                            buf@,
                            body_at(offset as int, has_srid),
                            byte_order,
                            dim,
                        ) == Err::<(PolygonModel, int), WKBError>(e));
                    }
                    return Err(e);
                },
            };
            rings.push(ring);
            cur = end;
            proof {
                let partial = Seq::new(rings@.len() as nat, |k: int| rings@[k].abs(buf@));
                assert(partial =~= prev_partial + seq![ring.abs(buf@)]);
                let d = dec_rings(buf@, cur as int, byte_order, dim, (n - i - 1) as nat);
                if d is Ok {
                    assert(prev_partial + (seq![ring.abs(buf@)] + d->Ok_0.0) =~= partial
                        + d->Ok_0.0);
                }
            }
        }
        proof {
            assert(dec_rings(buf@, cur as int, byte_order, dim, 0) == Ok::<_, WKBError>((
                Seq::<Seq<Seq<u64>>>::empty(),
                cur as int,
            )));
            let partial = Seq::new(rings@.len() as nat, |k: int| rings@[k].abs(buf@));
            assert(partial + Seq::<Seq<Seq<u64>>>::empty() =~= partial);
        }
        let p = Polygon { offset, byte_order, dim, has_srid, rings, size: cur - offset };
        Ok((p, cur))
    }

    /// The number of bytes of this record, header and SRID included.
    pub fn size(&self) -> (r: u64)
        ensures
            r == self.size,
    {
        self.size as u64
    }

    /// The dimensionality of this polygon.
    pub fn dimension(&self) -> (r: WKBDimension)
        ensures
            r == self.dim,
    {
        self.dim
    }

    /// How many interior rings (holes) the polygon has: every ring past the
    /// exterior one. An empty polygon has none.
    pub fn num_interiors(&self) -> (r: usize)
        ensures
            self.rings@.len() == 0 ==> r == 0,
            self.rings@.len() > 0 ==> r == self.rings@.len() - 1,
    {
        if self.rings.len() == 0 {
            0
        } else {
            self.rings.len() - 1
        }
    }

    /// The exterior ring, or `None` for the explicitly empty polygon.
    pub fn exterior(&self) -> (r: Option<WKBLinearRing>)
        ensures
            match r {
                Some(ring) => self.rings@.len() > 0 && ring == self.rings@[0],
                None => self.rings@.len() == 0,
            },
    {
        if self.rings.len() == 0 {
            None
        } else {
            Some(self.rings[0])
        }
    }

    /// Interior ring `i`: ring `i + 1` of the record.
    pub fn interior(&self, i: usize) -> (r: WKBLinearRing)
        requires
            self.rings@.len() > 0,
            i < self.rings@.len() - 1,
        ensures
            r == self.rings@[i as int + 1],
    {
        let n = self.rings.len();
        self.rings[i + 1]
    }

    /// Copies this polygon out of the buffer into the in-memory model.
    pub fn to_geometry(&self, buf: &[u8]) -> (r: crate::geom::Polygon)
        requires
            self.wf(buf@),
        ensures
            r@ == self.abs(buf@),
    {
        let n = self.rings.len();
        let mut rings: Vec<Vec<Vec<u64>>> = Vec::new();
        for i in 0..n
            invariant
                n == self.rings@.len(),
                self.wf(buf@),
                rings@.len() == i,
                forall|k: int|
                    0 <= k < i ==> crate::geom::coords_view(#[trigger] rings@[k])
                        == self.spec_rings(buf@)[k],
        {
            let coords = self.rings[i].to_coords(buf);
            rings.push(coords);
        }
        let r = crate::geom::Polygon { dim: self.dim, rings };
        proof {
            assert(r@.rings =~= self.spec_rings(buf@));
        }
        r
    }
}

} // verus!
