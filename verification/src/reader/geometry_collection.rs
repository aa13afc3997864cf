//! The geometry collection view: a decoded WKB geometry collection record.
//!
//! Members are full geometry records of any kind, including nested
//! collections; decoding recurses, and the recursion depth equals the
//! nesting depth of the input.

use vstd::prelude::*;

use crate::bytes::{read_u32, u32_at};
use crate::common::{Endianness, WKBDimension, WKBError, WKBType};
use crate::decoding::{body_at, dec_header, dec_members, lemma_dec_geometry_end, HeaderModel};
use crate::geom::{GeometryCollectionModel, GeometryModel};
use crate::reader::geometry::{lemma_wkbs_abs, wkbs_abs, Wkb};

verus! {

/// A decoded geometry collection record: one full geometry view per member.
#[derive(Debug)]
pub struct GeometryCollection {
    /// Where the record (its byte-order byte) starts.
    pub offset: usize,
    /// The byte order of this record's own header and count.
    pub byte_order: Endianness,
    /// The dimensionality the type tag announced.
    pub dim: WKBDimension,
    /// Whether a 4-byte SRID sits between the tag and the body.
    pub has_srid: bool,
    /// One view per member geometry, in record order.
    pub geometries: Vec<Wkb>,
    /// The total number of bytes of this record, cached from the scan.
    pub size: usize,
}

impl GeometryCollection {
    /// Where the member count sits.
    pub open spec fn spec_body(self) -> int {
        body_at(self.offset as int, self.has_srid)
    }

    /// The offset just past this record.
    pub open spec fn spec_end(self) -> int {
        self.offset + self.size
    }

    /// The geometry collection this view denotes.
    pub open spec fn abs(self, b: Seq<u8>) -> GeometryCollectionModel
        decreases self, 0int,
    {
        GeometryCollectionModel { dim: self.dim, geometries: wkbs_abs(self.geometries@, b) }
    }

    /// The view matches the buffer: the header announces this collection,
    /// the count field matches the stored members, the members decode to
    /// exactly these views, and each member view is well-formed.
    pub open spec fn wf(self, b: Seq<u8>) -> bool
        decreases self, 0int,
    {
        &&& dec_header(b, self.offset as int) == Ok::<_, WKBError>(
            HeaderModel {
                order: self.byte_order,
                wkb_type: WKBType::GeometryCollection(self.dim),
                has_srid: self.has_srid,
            },
        )
        &&& self.spec_body() + 4 <= b.len()
        &&& self.geometries@.len() == u32_at(b, self.spec_body(), self.byte_order)
        &&& dec_members(b, self.spec_body() + 4, self.geometries@.len() as nat) == Ok::<
            _,
            WKBError,
        >((wkbs_abs(self.geometries@, b), self.spec_end()))
        &&& forall|k: int|
            0 <= k < self.geometries@.len() ==> (#[trigger] self.geometries@[k]).wf(b)
    }

    /// Decodes the body of a geometry collection record whose header has
    /// been read: the count, then one recursive pass over the members.
    #[verifier::loop_isolation(false)]
    #[verifier::rlimit(100)]
    pub fn try_new(
        buf: &[u8],
        byte_order: Endianness,
        offset: usize,
        dim: WKBDimension,
        has_srid: bool,
    ) -> (r: Result<(GeometryCollection, usize), WKBError>)
        requires
            dec_header(buf@, offset as int) == Ok::<_, WKBError>(
                HeaderModel {
                    order: byte_order,
                    wkb_type: WKBType::GeometryCollection(dim),
                    has_srid,
                },
            ),
        ensures
            match r {
                Ok((c, end)) => {
                    &&& body_at(offset as int, has_srid) + 4 <= buf@.len()
                    &&& dec_members(
                        buf@,
                        body_at(offset as int, has_srid) + 4,
                        u32_at(buf@, body_at(offset as int, has_srid), byte_order) as nat,
                    ) == Ok::<_, WKBError>((c.abs(buf@).geometries, end as int))
                    &&& c.wf(buf@)
                    &&& c.offset == offset
                    &&& c.byte_order == byte_order
                    &&& c.dim == dim
                    &&& c.has_srid == has_srid
                    &&& end == c.spec_end()
                    &&& end <= buf@.len()
                },
                Err(e) => {
                    ||| (body_at(offset as int, has_srid) + 4 > buf@.len() && e
                        == WKBError::TruncatedBuffer)
                    ||| (body_at(offset as int, has_srid) + 4 <= buf@.len() && dec_members(
                        buf@,
                        body_at(offset as int, has_srid) + 4,
                        u32_at(buf@, body_at(offset as int, has_srid), byte_order) as nat,
                    ) == Err::<(Seq<GeometryModel>, int), _>(e))
                },
            },
        decreases buf@.len() - offset, 0int,
    {
        let len = buf.len();
        proof {
            assert(offset + 5 <= buf@.len());
        }
        let body = if has_srid {
            if len - (offset + 5) < 4 {
                return Err(WKBError::TruncatedBuffer);
            }
            offset + 5 + 4
        } else {
            offset + 5
        };
        let n = match read_u32(buf, body, byte_order) {
            Ok(v) => v,
            Err(e) => {
                return Err(e);
            },
        };
        let count = n as usize;
        let mut geometries: Vec<Wkb> = Vec::new();
        let mut cur: usize = body + 4;
        proof {
            lemma_wkbs_abs(geometries@, buf@);
            let d = dec_members(buf@, cur as int, n as nat);
            if d is Ok {
                assert(wkbs_abs(geometries@, buf@) + d->Ok_0.0 =~= d->Ok_0.0);
            }
        }
        for i in 0..count
            invariant
                count == n,
                body + 4 <= cur <= buf@.len(),
                geometries@.len() == i,
                forall|k: int| 0 <= k < i ==> (#[trigger] geometries@[k]).wf(buf@),
                dec_members(buf@, body + 4, n as nat) == (match dec_members(
                    buf@,
                    cur as int,
                    (n - i) as nat,
                ) {
                    Ok(pr) => Ok::<_, WKBError>((wkbs_abs(geometries@, buf@) + pr.0, pr.1)),
                    Err(e) => Err(e),
                }),
            decreases count - i,
        {
            let ghost prev = geometries@;
            let (w, end) = match Wkb::decode_at(buf, cur) {
                Ok(we) => we,
                Err(e) => {
                    proof {
                        assert(dec_members(buf@, cur as int, (n - i) as nat) == Err::<
                            (Seq<GeometryModel>, int),
                            WKBError,
                        >(e));
                    }
                    return Err(e);
                },
            };
            proof {
                lemma_dec_geometry_end(buf@, cur as int);
            }
            geometries.push(w);
            cur = end;
            proof {
                lemma_wkbs_abs(prev, buf@);
                lemma_wkbs_abs(geometries@, buf@);
                assert(wkbs_abs(geometries@, buf@) =~= wkbs_abs(prev, buf@) + seq![
                    geometries@[i as int].abs(buf@),
                ]);
                let d = dec_members(buf@, cur as int, (n - i - 1) as nat);
                if d is Ok {
                    assert(wkbs_abs(prev, buf@) + (seq![geometries@[i as int].abs(buf@)]
                        + d->Ok_0.0) =~= wkbs_abs(geometries@, buf@) + d->Ok_0.0);
                }
            }
        }
        proof {
            assert(dec_members(buf@, cur as int, 0) == Ok::<_, WKBError>((
                Seq::<GeometryModel>::empty(),
                cur as int,
            )));
            assert(wkbs_abs(geometries@, buf@) + Seq::<GeometryModel>::empty() =~= wkbs_abs(
                geometries@,
                buf@,
            ));
        }
        let c = GeometryCollection { offset, byte_order, dim, has_srid, geometries, size: cur
            - offset };
        Ok((c, cur))
    }

    /// The number of bytes of this record, header and SRID included.
    pub fn size(&self) -> (r: u64)
        ensures
            r == self.size,
    {
        self.size as u64
    }

    /// The dimensionality of this collection.
    pub fn dimension(&self) -> (r: WKBDimension)
        ensures
            r == self.dim,
    {
        self.dim
    }

    /// How many member geometries the record holds.
    pub fn num_geometries(&self) -> (r: usize)
        ensures
            r == self.geometries@.len(),
    {
        self.geometries.len()
    }

    /// A reference to the member geometry at index `i`.
    pub fn geometry(&self, i: usize) -> (r: &Wkb)
        requires
            i < self.geometries@.len(),
        ensures
            *r == self.geometries@[i as int],
    {
        &self.geometries[i]
    }

    /// Copies this collection out of the buffer into the in-memory model.
    #[verifier::loop_isolation(false)]
    pub fn to_geometry(&self, buf: &[u8]) -> (r: crate::geom::GeometryCollection)
        requires
            self.wf(buf@),
        ensures
            r@ == self.abs(buf@),
        decreases self, 0int,
    {
        let n = self.geometries.len();
        let mut members: Vec<crate::geom::Geometry> = Vec::new();
        proof {
            lemma_wkbs_abs(self.geometries@, buf@);
        }
        for i in 0..n
            invariant
                n == self.geometries@.len(),
                self.wf(buf@),
                members@.len() == i,
                wkbs_abs(self.geometries@, buf@).len() == n,
                forall|k: int|
                    0 <= k < i ==> crate::geom::geometry_model(#[trigger] members@[k]) == wkbs_abs(
                        self.geometries@,
                        buf@,
                    )[k],
            decreases n - i,
        {
            let g = self.geometries[i].to_geometry(buf);
            members.push(g);
        }
        let r = crate::geom::GeometryCollection { dim: self.dim, geometries: members };
        proof {
            crate::geom::lemma_geometries_model(members@);
            assert(r@.geometries =~= wkbs_abs(self.geometries@, buf@));
        }
        r
    }
}

} // verus!
