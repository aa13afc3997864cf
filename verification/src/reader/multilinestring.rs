//! The multi line string view: a decoded WKB multi line string record.
//!
//! Members are full, self-describing line string records of varying size,
//! so construction walks them once, recording each member's offsets.

use vstd::prelude::*;

use crate::bytes::{read_u32, u32_at};
use crate::common::{Endianness, WKBDimension, WKBError, WKBType};
use crate::decoding::{
    body_at, dec_header, dec_linestring_records, lemma_dec_geometry_end, HeaderModel,
};
use crate::geom::{LineStringModel, MultiLineStringModel};
use crate::reader::geometry::Wkb;
use crate::reader::linestring::LineString;

verus! {

/// A decoded multi line string record: one line string view per member.
#[derive(Clone, Debug)]
pub struct MultiLineString {
    /// Where the record (its byte-order byte) starts.
    pub offset: usize,
    /// The byte order of this record's own header and count.
    pub byte_order: Endianness,
    /// The dimensionality the type tag announced.
    pub dim: WKBDimension,
    /// Whether a 4-byte SRID sits between the tag and the body.
    pub has_srid: bool,
    /// One view per member line string, in record order.
    pub line_strings: Vec<LineString>,
    /// The total number of bytes of this record, cached from the scan.
    pub size: usize,
}

impl MultiLineString {
    /// Where the member count sits.
    pub open spec fn spec_body(self) -> int {
        body_at(self.offset as int, self.has_srid)
    }

    /// The offset just past this record.
    pub open spec fn spec_end(self) -> int {
        self.offset + self.size
    }

    /// The member line strings this view denotes.
    pub open spec fn spec_members(self, b: Seq<u8>) -> Seq<LineStringModel> {
        Seq::new(self.line_strings@.len() as nat, |k: int| self.line_strings@[k].abs(b))
    }

    /// The multi line string this view denotes.
    pub open spec fn abs(self, b: Seq<u8>) -> MultiLineStringModel {
        MultiLineStringModel { dim: self.dim, line_strings: self.spec_members(b) }
    }

    /// The view matches the buffer: the header announces this multi line
    /// string, the count field matches the stored members, the members
    /// decode to exactly these views, and each member view is well-formed.
    pub open spec fn wf(self, b: Seq<u8>) -> bool {
        &&& dec_header(b, self.offset as int) == Ok::<_, WKBError>(
            HeaderModel {
                order: self.byte_order,
                wkb_type: WKBType::MultiLineString(self.dim),
                has_srid: self.has_srid,
            },
        )
        &&& self.spec_body() + 4 <= b.len()
        &&& self.line_strings@.len() == u32_at(b, self.spec_body(), self.byte_order)
        &&& dec_linestring_records(
            b,
            self.spec_body() + 4,
            self.line_strings@.len() as nat,
        ) == Ok::<_, WKBError>((self.spec_members(b), self.spec_end()))
        &&& forall|k: int| 0 <= k < self.line_strings@.len() ==> (#[trigger] self.line_strings@[k]).wf(
            b,
        )
    }

    /// Decodes the body of a multi line string record whose header has been
    /// read: the count, then one pass over the member records. A member of
    /// any other kind is `Malformed`.
    #[verifier::loop_isolation(false)]
    #[verifier::rlimit(100)]
    pub(crate) fn new(
        buf: &[u8],
        byte_order: Endianness,
        offset: usize,
        dim: WKBDimension,
        has_srid: bool,
    ) -> (r: Result<(MultiLineString, usize), WKBError>)
        requires
            dec_header(buf@, offset as int) == Ok::<_, WKBError>(
                HeaderModel {
                    order: byte_order,
                    wkb_type: WKBType::MultiLineString(dim),
                    has_srid,
                },
            ),
        ensures
            match r {
                Ok((mls, end)) => {
                    &&& body_at(offset as int, has_srid) + 4 <= buf@.len()
                    &&& dec_linestring_records(
                        buf@,
                        body_at(offset as int, has_srid) + 4,
                        u32_at(buf@, body_at(offset as int, has_srid), byte_order) as nat,
                    ) == Ok::<_, WKBError>((mls.abs(buf@).line_strings, end as int))
                    &&& mls.wf(buf@)
                    &&& mls.offset == offset
                    &&& mls.byte_order == byte_order
                    &&& mls.dim == dim
                    &&& mls.has_srid == has_srid
                    &&& end == mls.spec_end()
                    &&& end <= buf@.len()
                },
                Err(e) => {
                    ||| (body_at(offset as int, has_srid) + 4 > buf@.len() && e
                        == WKBError::TruncatedBuffer)
                    ||| (body_at(offset as int, has_srid) + 4 <= buf@.len()
                        && dec_linestring_records(
                        buf@,
                        body_at(offset as int, has_srid) + 4,
                        u32_at(buf@, body_at(offset as int, has_srid), byte_order) as nat,
                    ) == Err::<(Seq<LineStringModel>, int), _>(e))
                },
            },
        decreases buf@.len() - offset, 0int,
    {
        let len = buf.len();
        proof {
            assert(offset + 5 <= buf@.len());
        }
        let body = if has_srid {
            if len - (offset + 5) < 4 {
                return Err(WKBError::TruncatedBuffer);
            }
            offset + 5 + 4
        } else {
            offset + 5
        };
        let n = match read_u32(buf, body, byte_order) {
            Ok(v) => v,
            Err(e) => {
                return Err(e);
            },
        };
        let count = n as usize;
        let mut line_strings: Vec<LineString> = Vec::new();
        let mut cur: usize = body + 4;
        proof {
            let d = dec_linestring_records(buf@, cur as int, n as nat);
            if d is Ok {
                assert(Seq::<LineStringModel>::empty() + d->Ok_0.0 =~= d->Ok_0.0);
            }
        }
        for i in 0..count
            invariant
                count == n,
                body + 4 <= cur <= buf@.len(),
                line_strings@.len() == i,
                forall|k: int| 0 <= k < i ==> (#[trigger] line_strings@[k]).wf(buf@),
                dec_linestring_records(buf@, body + 4, n as nat) == (match dec_linestring_records(
                    buf@,
                    cur as int,
                    (n - i) as nat,
                ) {
                    Ok(pr) => Ok::<_, WKBError>(
                        (
                            Seq::new(
                                line_strings@.len() as nat,
                                |k: int| line_strings@[k].abs(buf@),
                            ) + pr.0,
                            pr.1,
                        ),
                    ),
                    Err(e) => Err(e),
                }),
            decreases count - i,
        {
            let ghost prev_partial = Seq::new(
                line_strings@.len() as nat,
                |k: int| line_strings@[k].abs(buf@),
            );
            let (w, end) = match Wkb::decode_at(buf, cur) {
                Ok(we) => we,
                Err(e) => {
                    proof {
                        assert(dec_linestring_records(buf@, cur as int, (n - i) as nat) == Err::<
                            (Seq<LineStringModel>, int),
                            WKBError,
                        >(e));
                    }
                    return Err(e);
                },
            };
            proof {
                lemma_dec_geometry_end(buf@, cur as int);
            }
            let ls = match &w {
                Wkb::LineString(ls) => *ls,
                _ => {
                    proof {
                        assert(dec_linestring_records(buf@, cur as int, (n - i) as nat) == Err::<
                            (Seq<LineStringModel>, int),
                            WKBError,
                        >(WKBError::Malformed));
                    }
                    return Err(WKBError::Malformed);
                },
            };
            line_strings.push(ls);
            cur = end;
            proof {
                let partial = Seq::new(
                    line_strings@.len() as nat,
                    |k: int| line_strings@[k].abs(buf@),
                );
                assert(partial =~= prev_partial + seq![ls.abs(buf@)]);
                let d = dec_linestring_records(buf@, cur as int, (n - i - 1) as nat);
                if d is Ok {
                    assert(prev_partial + (seq![ls.abs(buf@)] + d->Ok_0.0) =~= partial
                        + d->Ok_0.0);
                }
            }
        }
        proof {
            assert(dec_linestring_records(buf@, cur as int, 0) == Ok::<_, WKBError>((
                Seq::<LineStringModel>::empty(),
                cur as int,
            )));
            let partial = Seq::new(
                line_strings@.len() as nat,
                |k: int| line_strings@[k].abs(buf@),
            );
            assert(partial + Seq::<LineStringModel>::empty() =~= partial);
        }
        let mls = MultiLineString {
            offset,
            byte_order,
            dim,
            has_srid,
            line_strings,
            size: cur - offset,
        };
        Ok((mls, cur))
    }

    /// The number of bytes of this record, header and SRID included.
    pub fn size(&self) -> (r: u64)
        ensures
            r == self.size,
    {
        self.size as u64
    }

    /// The dimensionality of this multi line string.
    pub fn dimension(&self) -> (r: WKBDimension)
        ensures
            r == self.dim,
    {
        self.dim
    }

    /// How many member line strings the record holds.
    pub fn num_line_strings(&self) -> (r: usize)
        ensures
            r == self.line_strings@.len(),
    {
        self.line_strings.len()
    }

    /// The member line string at index `i`.
    pub fn line_string(&self, i: usize) -> (r: LineString)
        requires
            i < self.line_strings@.len(),
        ensures
            r == self.line_strings@[i as int],
    {
        self.line_strings[i]
    }

    /// Copies this multi line string out of the buffer into the in-memory
    /// model.
    pub fn to_geometry(&self, buf: &[u8]) -> (r: crate::geom::MultiLineString)
        requires
            self.wf(buf@),
        ensures
            r@ == self.abs(buf@),
    {
        let n = self.line_strings.len();
        let mut members: Vec<crate::geom::LineString> = Vec::new();
        for i in 0..n
            invariant
                n == self.line_strings@.len(),
                self.wf(buf@),
                members@.len() == i,
                forall|k: int| 0 <= k < i ==> members@[k]@ == self.spec_members(buf@)[k],
        {
            let g = self.line_strings[i].to_geometry(buf);
            members.push(g);
        }
        let r = crate::geom::MultiLineString { dim: self.dim, line_strings: members };
        proof {
            assert(r@.line_strings =~= self.spec_members(buf@));
        }
        r
    }
}

} // verus!
