//! The multi polygon view: a decoded WKB multi polygon record.
//!
//! Members are full, self-describing polygon records of varying size, so
//! construction walks them once, recording each member's offsets.

use vstd::prelude::*;

use crate::bytes::{read_u32, u32_at};
use crate::common::{Endianness, WKBDimension, WKBError, WKBType};
use crate::decoding::{
    body_at, dec_header, dec_polygon_records, lemma_dec_geometry_end, HeaderModel,
};
use crate::geom::{MultiPolygonModel, PolygonModel};
use crate::reader::geometry::Wkb;
use crate::reader::polygon::Polygon;

verus! {

/// A decoded multi polygon record: one polygon view per member.
#[derive(Clone, Debug)]
pub struct MultiPolygon {
    /// Where the record (its byte-order byte) starts.
    pub offset: usize,
    /// The byte order of this record's own header and count.
    pub byte_order: Endianness,
    /// The dimensionality the type tag announced.
    pub dim: WKBDimension,
    /// Whether a 4-byte SRID sits between the tag and the body.
    pub has_srid: bool,
    /// One view per member polygon, in record order.
    pub polygons: Vec<Polygon>,
    /// The total number of bytes of this record, cached from the scan.
    pub size: usize,
}

impl MultiPolygon {
    /// Where the member count sits.
    pub open spec fn spec_body(self) -> int {
        body_at(self.offset as int, self.has_srid)
    }

    /// The offset just past this record.
    pub open spec fn spec_end(self) -> int {
        self.offset + self.size
    }

    /// The member polygons this view denotes.
    pub open spec fn spec_members(self, b: Seq<u8>) -> Seq<PolygonModel> {
        Seq::new(self.polygons@.len() as nat, |k: int| self.polygons@[k].abs(b))
    }

    /// The multi polygon this view denotes.
    pub open spec fn abs(self, b: Seq<u8>) -> MultiPolygonModel {
        MultiPolygonModel { dim: self.dim, polygons: self.spec_members(b) }
    }

    /// The view matches the buffer: the header announces this multi
    /// polygon, the count field matches the stored members, the members
    /// decode to exactly these views, and each member view is well-formed.
    pub open spec fn wf(self, b: Seq<u8>) -> bool {
        &&& dec_header(b, self.offset as int) == Ok::<_, WKBError>(
            HeaderModel {
                order: self.byte_order,
                wkb_type: WKBType::MultiPolygon(self.dim),
                has_srid: self.has_srid,
            },
        )
        &&& self.spec_body() + 4 <= b.len()
        &&& self.polygons@.len() == u32_at(b, self.spec_body(), self.byte_order)
        &&& dec_polygon_records(b, self.spec_body() + 4, self.polygons@.len() as nat) == Ok::<
            _,
            WKBError,
        >((self.spec_members(b), self.spec_end()))
        &&& forall|k: int| 0 <= k < self.polygons@.len() ==> (#[trigger] self.polygons@[k]).wf(b)
    }

    /// Decodes the body of a multi polygon record whose header has been
    /// read: the count, then one pass over the member records. A member of
    /// any other kind is `Malformed`.
    #[verifier::loop_isolation(false)]
    #[verifier::rlimit(100)]
    pub(crate) fn new(
        buf: &[u8],
        byte_order: Endianness,
        offset: usize,
        dim: WKBDimension,
        has_srid: bool,
    ) -> (r: Result<(MultiPolygon, usize), WKBError>)
        requires
            dec_header(buf@, offset as int) == Ok::<_, WKBError>(
                HeaderModel { order: byte_order, wkb_type: WKBType::MultiPolygon(dim), has_srid },
            ),
        ensures
            match r {
                Ok((mp, end)) => {
                    &&& body_at(offset as int, has_srid) + 4 <= buf@.len()
                    &&& dec_polygon_records(
                        buf@,
                        body_at(offset as int, has_srid) + 4,
                        u32_at(buf@, body_at(offset as int, has_srid), byte_order) as nat,
                    ) == Ok::<_, WKBError>((mp.abs(buf@).polygons, end as int))
                    &&& mp.wf(buf@)
                    &&& mp.offset == offset
                    &&& mp.byte_order == byte_order
                    &&& mp.dim == dim
                    &&& mp.has_srid == has_srid
                    &&& end == mp.spec_end()
                    &&& end <= buf@.len()
                },
                Err(e) => {
                    ||| (body_at(offset as int, has_srid) + 4 > buf@.len() && e
                        == WKBError::TruncatedBuffer)
                    ||| (body_at(offset as int, has_srid) + 4 <= buf@.len() && dec_polygon_records(
                        buf@,
                        body_at(offset as int, has_srid) + 4,
                        u32_at(buf@, body_at(offset as int, has_srid), byte_order) as nat,
                    ) == Err::<(Seq<PolygonModel>, int), _>(e))
                },
            },
        decreases buf@.len() - offset, 0int,
    {
        let len = buf.len();
        proof {
            assert(offset + 5 <= buf@.len());
        }
        let body = if has_srid {
            if len - (offset + 5) < 4 {
                return Err(WKBError::TruncatedBuffer);
            }
            offset + 5 + 4
        } else {
            offset + 5
        };
        let n = match read_u32(buf, body, byte_order) {
            Ok(v) => v,
            Err(e) => {
                return Err(e);
            },
        };
        let count = n as usize;
        let mut polygons: Vec<Polygon> = Vec::new();
        let mut cur: usize = body + 4;
        proof {
            let d = dec_polygon_records(buf@, cur as int, n as nat);
            if d is Ok {
                assert(Seq::<PolygonModel>::empty() + d->Ok_0.0 =~= d->Ok_0.0);
            }
        }
        for i in 0..count
            invariant
                count == n,
                body + 4 <= cur <= buf@.len(),
                polygons@.len() == i,
                forall|k: int| 0 <= k < i ==> (#[trigger] polygons@[k]).wf(buf@),
                dec_polygon_records(buf@, body + 4, n as nat) == (match dec_polygon_records(
                    buf@,
                    cur as int,
                    (n - i) as nat,
                ) {
                    Ok(pr) => Ok::<_, WKBError>(
                        (
                            Seq::new(polygons@.len() as nat, |k: int| polygons@[k].abs(buf@))
                                + pr.0,
                            pr.1,
                        ),
                    ),
                    Err(e) => Err(e),
                }),
            decreases count - i,
        {
            let ghost prev_partial = Seq::new(
                polygons@.len() as nat,
                |k: int| polygons@[k].abs(buf@),
            );
            let (w, end) = match Wkb::decode_at(buf, cur) {
                Ok(we) => we,
                Err(e) => {
                    proof {
                        assert(dec_polygon_records(buf@, cur as int, (n - i) as nat) == Err::<
                            (Seq<PolygonModel>, int),
                            WKBError,
                        >(e));
                    }
                    return Err(e);
                },
            };
            proof {
                lemma_dec_geometry_end(buf@, cur as int);
            }
            let p = match w {
                Wkb::Polygon(p) => p,
                _ => {
                    proof {
                        assert(dec_polygon_records(buf@, cur as int, (n - i) as nat) == Err::<
                            (Seq<PolygonModel>, int),
                            WKBError,
                        >(WKBError::Malformed));
                    }
                    return Err(WKBError::Malformed);
                },
            };
            polygons.push(p);
            cur = end;
            proof {
                let partial = Seq::new(polygons@.len() as nat, |k: int| polygons@[k].abs(buf@));
                assert(partial =~= prev_partial + seq![polygons@[i as int].abs(buf@)]);
                let d = dec_polygon_records(buf@, cur as int, (n - i - 1) as nat);
                if d is Ok {
                    assert(prev_partial + (seq![polygons@[i as int].abs(buf@)] + d->Ok_0.0)
                        =~= partial + d->Ok_0.0);
                }
            }
        }
        proof {
            assert(dec_polygon_records(buf@, cur as int, 0) == Ok::<_, WKBError>((
                Seq::<PolygonModel>::empty(),
                cur as int,
            )));
            let partial = Seq::new(polygons@.len() as nat, |k: int| polygons@[k].abs(buf@));
            assert(partial + Seq::<PolygonModel>::empty() =~= partial);
        }
        let mp = MultiPolygon { offset, byte_order, dim, has_srid, polygons, size: cur - offset };
        Ok((mp, cur))
    }

    /// The number of bytes of this record, header and SRID included.
    pub fn size(&self) -> (r: u64)
        ensures
            r == self.size,
    {
        self.size as u64
    }

    /// The dimensionality of this multi polygon.
    pub fn dimension(&self) -> (r: WKBDimension)
        ensures
            r == self.dim,
    {
        self.dim
    }

    /// How many member polygons the record holds.
    pub fn num_polygons(&self) -> (r: usize)
        ensures
            r == self.polygons@.len(),
    {
        self.polygons.len()
    }

    /// A reference to the member polygon at index `i`.
    pub fn polygon(&self, i: usize) -> (r: &Polygon)
        requires
            i < self.polygons@.len(),
        ensures
            *r == self.polygons@[i as int],
    {
        &self.polygons[i]
    }

    /// Copies this multi polygon out of the buffer into the in-memory
    /// model.
    pub fn to_geometry(&self, buf: &[u8]) -> (r: crate::geom::MultiPolygon)
        requires
            self.wf(buf@),
        ensures
            r@ == self.abs(buf@),
    {
        let n = self.polygons.len();
        let mut members: Vec<crate::geom::Polygon> = Vec::new();
        for i in 0..n
            invariant
                n == self.polygons@.len(),
                self.wf(buf@),
                members@.len() == i,
                forall|k: int| 0 <= k < i ==> members@[k]@ == self.spec_members(buf@)[k],
        {
            let g = self.polygons[i].to_geometry(buf);
            members.push(g);
        }
        let r = crate::geom::MultiPolygon { dim: self.dim, polygons: members };
        proof {
            assert(r@.polygons =~= self.spec_members(buf@));
        }
        r
    }
}

} // verus!
