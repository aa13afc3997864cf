//! The multi point view: a decoded WKB multi point record.
//!
//! Every member is a full point record of the container's dimensionality,
//! so members have a uniform size and member `i` sits at a closed-form
//! offset — no per-member bookkeeping is stored.

use vstd::prelude::*;

use crate::bytes::{read_u32, u32_at};
use crate::common::{Endianness, WKBDimension, WKBError, WKBType};
use crate::decoding::{
    body_at, dec_header, dec_point_records, lemma_dec_point_records_index, point_record_size,
    HeaderModel,
};
use crate::geom::{MultiPointModel, PointModel};
use crate::reader::point::{check_point_record, Point};

verus! {

/// A decoded multi point record: a count and the container's
/// dimensionality; members are rebuilt on demand at their closed-form
/// offsets.
#[derive(Clone, Copy, Debug)]
pub struct MultiPoint {
    /// Where the record (its byte-order byte) starts.
    pub offset: usize,
    /// The byte order of this record's own header and count.
    pub byte_order: Endianness,
    /// The number of member points the record declares.
    pub num_points: u32,
    /// The dimensionality the type tag announced; every member's too.
    pub dim: WKBDimension,
    /// Whether a 4-byte SRID sits between the tag and the body.
    pub has_srid: bool,
}

impl MultiPoint {
    /// Where the member count sits.
    pub open spec fn spec_body(self) -> int {
        body_at(self.offset as int, self.has_srid)
    }

    /// Where the first member record starts.
    pub open spec fn spec_content(self) -> int {
        self.spec_body() + 4
    }

    /// The offset just past this record.
    pub open spec fn spec_end(self) -> int {
        self.spec_content() + self.num_points * point_record_size(self.dim)
    }

    /// The number of bytes of this record.
    pub open spec fn spec_size(self) -> int {
        self.spec_end() - self.offset
    }

    /// The view matches the buffer: the header announces this multi point,
    /// the count field holds `num_points`, and all member records decode.
    pub open spec fn wf(self, b: Seq<u8>) -> bool {
        &&& dec_header(b, self.offset as int) == Ok::<_, WKBError>(
            HeaderModel {
                order: self.byte_order,
                wkb_type: WKBType::MultiPoint(self.dim),
                has_srid: self.has_srid,
            },
        )
        &&& self.spec_body() + 4 <= b.len()
        &&& self.num_points == u32_at(b, self.spec_body(), self.byte_order)
        &&& dec_point_records(b, self.spec_content(), self.dim, self.num_points as nat) is Ok
    }

    /// The multi point this view denotes.
    pub open spec fn abs(self, b: Seq<u8>) -> MultiPointModel {
        MultiPointModel {
            dim: self.dim,
            points: dec_point_records(
                b,
                self.spec_content(),
                self.dim,
                self.num_points as nat,
            )->Ok_0.0,
        }
    }

    /// Decodes the body of a multi point record whose header has been read:
    /// the count, then one validating pass over the member point records.
    #[verifier::loop_isolation(false)]
    #[verifier::rlimit(60)]
    pub fn new(
        buf: &[u8],
        byte_order: Endianness,
        offset: usize,
        dim: WKBDimension,
        has_srid: bool,
    ) -> (r: Result<(MultiPoint, usize), WKBError>)
        requires
            dec_header(buf@, offset as int) == Ok::<_, WKBError>(
                HeaderModel { order: byte_order, wkb_type: WKBType::MultiPoint(dim), has_srid },
            ),
        ensures
            match r {
                Ok((mp, end)) => {
                    &&& body_at(offset as int, has_srid) + 4 <= buf@.len()
                    &&& dec_point_records(
                        buf@,
                        body_at(offset as int, has_srid) + 4,
                        dim,
                        u32_at(buf@, body_at(offset as int, has_srid), byte_order) as nat,
                    ) == Ok::<_, WKBError>((mp.abs(buf@).points, end as int))
                    &&& mp.wf(buf@)
                    &&& mp == (MultiPoint {
                        offset,
                        byte_order,
                        num_points: mp.num_points,
                        dim,
                        has_srid,
                    })
                    &&& end == mp.spec_end()
                },
                Err(e) => {
                    ||| (body_at(offset as int, has_srid) + 4 > buf@.len() && e
                        == WKBError::TruncatedBuffer)
                    ||| (body_at(offset as int, has_srid) + 4 <= buf@.len() && dec_point_records(
                        buf@,
                        body_at(offset as int, has_srid) + 4,
                        dim,
                        u32_at(buf@, body_at(offset as int, has_srid), byte_order) as nat,
                    ) == Err::<(Seq<PointModel>, int), _>(e))
                },
            },
    {
        let len = buf.len();
        proof {
            assert(offset + 5 <= buf@.len());
        }
        let body = if has_srid {
            if len - (offset + 5) < 4 {
                return Err(WKBError::TruncatedBuffer);
            }
            offset + 5 + 4
        } else {
            offset + 5
        };
        let n = match read_u32(buf, body, byte_order) {
            Ok(v) => v,
            Err(e) => {
                return Err(e);
            },
        };
        let count = n as usize;
        let mut cur: usize = body + 4;
        let ghost mut pts: Seq<PointModel> = Seq::empty();
        proof {
            let d = dec_point_records(buf@, cur as int, dim, n as nat);
            if d is Ok {
                assert(Seq::<PointModel>::empty() + d->Ok_0.0 =~= d->Ok_0.0);
            }
        }
        for i in 0..count
            invariant
                count == n,
                body + 4 <= cur <= buf@.len(),
                pts.len() == i,
                dec_point_records(buf@, body + 4, dim, n as nat) == (match dec_point_records(
                    buf@,
                    cur as int,
                    dim,
                    (n - i) as nat,
                ) {
                    Ok(pr) => Ok::<_, WKBError>((pts + pr.0, pr.1)),
                    Err(e) => Err(e),
                }),
        {
            let (pt, end) = match check_point_record(buf, cur, dim) {
                Ok(pe) => pe,
                Err(e) => {
                    proof {
                        assert(dec_point_records(buf@, cur as int, dim, (n - i) as nat) == Err::<
                            (Seq<PointModel>, int),
                            WKBError,
                        >(e));
                    }
                    return Err(e);
                },
            };
            proof {
                let prev = pts;
                pts = pts + seq![pt.abs(buf@)];
                let d = dec_point_records(buf@, end as int, dim, (n - i - 1) as nat);
                if d is Ok {
                    assert(prev + (seq![pt.abs(buf@)] + d->Ok_0.0) =~= pts + d->Ok_0.0);
                }
            }
            cur = end;
        }
        proof {
            assert(dec_point_records(buf@, cur as int, dim, 0) == Ok::<_, WKBError>((
                Seq::<PointModel>::empty(),
                cur as int,
            )));
            assert(pts + Seq::<PointModel>::empty() =~= pts);
            lemma_dec_point_records_index(buf@, body + 4, dim, n as nat);
        }
        let mp = MultiPoint { offset, byte_order, num_points: n, dim, has_srid };
        Ok((mp, cur))
    }

    /// The number of bytes of this record: every member is a point record
    /// of the same fixed size.
    pub fn size(&self) -> (r: u64)
        ensures
            r == self.spec_size(),
    {
        let header: u64 = if self.has_srid {
            1 + 4 + 4
        } else {
            1 + 4
        };
        proof {
            assert(self.dim.spec_size() <= 4);
            crate::bytes::lemma_mul_le(
                point_record_size(self.dim),
                37,
                self.num_points as int,
                0xffffffff,
            );
        }
        header + 4 + (5 + self.dim.size() as u64 * 8) * self.num_points as u64
    }

    /// The absolute byte offset of member `i`: a closed-form formula, since
    /// every member record has the same size.
    pub fn point_offset(&self, i: u64) -> (r: u64)
        requires
            i <= self.num_points,
            self.offset + self.spec_size() <= u64::MAX,
        ensures
            r == self.spec_content() + i * point_record_size(self.dim),
    {
        let header: u64 = if self.has_srid {
            1 + 4 + 4
        } else {
            1 + 4
        };
        proof {
            assert(self.dim.spec_size() <= 4);
            assert(i * point_record_size(self.dim) <= self.num_points * point_record_size(
                self.dim,
            ) && (5 + self.dim.spec_size() * 8) * i == i * point_record_size(self.dim)) by (
            nonlinear_arith)
                requires
                    i <= self.num_points,
                    point_record_size(self.dim) == 5 + 8 * self.dim.spec_size(),
                    self.dim.spec_size() >= 0,
            ;
            crate::bytes::lemma_mul_le(point_record_size(self.dim), 37, i as int, 0xffffffff);
        }
        self.offset as u64 + header + 4 + (5 + self.dim.size() as u64 * 8) * i
    }

    /// The dimensionality of this multi point.
    pub fn dimension(&self) -> (r: WKBDimension)
        ensures
            r == self.dim,
    {
        self.dim
    }

    /// How many member points the record holds.
    pub fn num_points(&self) -> (r: usize)
        ensures
            r == self.num_points,
    {
        self.num_points as usize
    }

    /// The member point at index `i`, rebuilt at its closed-form offset in
    /// constant time.
    pub fn point(&self, buf: &[u8], i: usize) -> (r: Point)
        requires
            self.wf(buf@),
            i < self.num_points,
        ensures
            r.wf(buf@),
            r.abs(buf@) == self.abs(buf@).points[i as int],
    {
        let len = buf.len();
        proof {
            lemma_dec_point_records_index(
                buf@,
                self.spec_content(),
                self.dim,
                self.num_points as nat,
            );
            assert(self.dim.spec_size() <= 4);
            assert((i + 1) * point_record_size(self.dim) <= self.num_points * point_record_size(
                self.dim,
            ) && (i + 1) * point_record_size(self.dim) == i * point_record_size(self.dim)
                + point_record_size(self.dim) && (5 + 8 * self.dim.spec_size()) * i == i
                * point_record_size(self.dim)) by (nonlinear_arith)
                requires
                    i + 1 <= self.num_points,
                    point_record_size(self.dim) == 5 + 8 * self.dim.spec_size(),
                    self.dim.spec_size() >= 0,
            ;
            crate::decoding::lemma_dec_point_records_end(
                buf@,
                self.spec_content(),
                self.dim,
                self.num_points as nat,
            );
        }
        let body = if self.has_srid {
            self.offset + 5 + 4
        } else {
            self.offset + 5
        };
        let w = self.dim.size();
        let off = body + 4 + i * (5 + 8 * w);
        match check_point_record(buf, off, self.dim) {
            Ok((pt, _)) => pt,
            Err(_) => {
                proof {
                    assert(false);
                }
                Point {
                    offset: 0,
                    dim: self.dim,
                    byte_order: self.byte_order,
                    has_srid: false,
                    is_empty: false,
                }
            },
        }
    }

    /// Copies this multi point out of the buffer into the in-memory model.
    pub fn to_geometry(&self, buf: &[u8]) -> (r: crate::geom::MultiPoint)
        requires
            self.wf(buf@),
        ensures
            r@ == self.abs(buf@),
    {
        let n = self.num_points();
        let mut points: Vec<crate::geom::Point> = Vec::new();
        proof {
            lemma_dec_point_records_index(
                buf@,
                self.spec_content(),
                self.dim,
                self.num_points as nat,
            );
        }
        for i in 0..n
            invariant
                n == self.num_points,
                self.wf(buf@),
                self.abs(buf@).points.len() == n,
                points@.len() == i,
                forall|k: int| 0 <= k < i ==> points@[k]@ == self.abs(buf@).points[k],
        {
            let pt = self.point(buf, i);
            let g = pt.to_geometry(buf);
            points.push(g);
        }
        let r = crate::geom::MultiPoint { dim: self.dim, points };
        proof {
            assert(r@.points =~= self.abs(buf@).points);
        }
        r
    }
}

} // verus!
