//! A coordinate in a WKB buffer.
//!
//! Note that per the format's vocabulary this building block is distinct
//! from a framed point record: it is just two to four doubles at a byte
//! offset, occurring inside any geometry body. Reads are fresh 8-byte
//! reinterpretations at unaligned offsets.

use vstd::prelude::*;

use crate::bytes::read_u64;
use crate::common::{Endianness, WKBDimension};
use crate::decoding::coord_at;

verus! {

/// A borrowed view of one coordinate: a byte offset, a dimensionality and a
/// byte order; the buffer itself is handed to each read.
#[derive(Clone, Copy, Debug)]
pub struct Coord {
    /// Where the first axis starts in the buffer.
    pub offset: usize,
    /// How many doubles this coordinate stores.
    pub dim: WKBDimension,
    /// The byte order the doubles are stored in.
    pub byte_order: Endianness,
}

impl Coord {
    /// The coordinate lies within the buffer.
    pub open spec fn wf(self, b: Seq<u8>) -> bool {
        self.offset + 8 * self.dim.spec_size() <= b.len()
    }

    /// The axes this view denotes.
    pub open spec fn abs(self, b: Seq<u8>) -> Seq<u64> {
        coord_at(b, self.offset as int, self.dim.spec_size() as nat, self.byte_order)
    }

    /// The number of bytes this coordinate occupies.
    pub fn size(&self) -> (r: u64)
        ensures
            r == 8 * self.dim.spec_size(),
    {
        self.dim.size() as u64 * 8
    }

    /// The dimensionality of this coordinate.
    pub fn dim(&self) -> (r: WKBDimension)
        ensures
            r == self.dim,
    {
        self.dim
    }

    /// Reads axis `n`, in constant time.
    pub fn nth(&self, buf: &[u8], n: usize) -> (r: u64)
        requires
            self.wf(buf@),
            n < self.dim.spec_size(),
        ensures
            r == self.abs(buf@)[n as int],
    {
        let len = buf.len();
        proof {
            assert(self.offset + 8 * n < self.offset + 8 * self.dim.spec_size());
        }
        match read_u64(buf, self.offset + 8 * n, self.byte_order) {
            Ok(v) => v,
            Err(_) => {
                proof {
                    assert(false);
                }
                0
            },
        }
    }

    /// Reads the first axis.
    pub fn x(&self, buf: &[u8]) -> (r: u64)
        requires
            self.wf(buf@),
        ensures
            r == self.abs(buf@)[0],
    {
        self.nth(buf, 0)
    }

    /// Reads the second axis.
    pub fn y(&self, buf: &[u8]) -> (r: u64)
        requires
            self.wf(buf@),
        ensures
            r == self.abs(buf@)[1],
    {
        self.nth(buf, 1)
    }

    /// Copies every axis out of the buffer.
    pub fn to_axes(&self, buf: &[u8]) -> (r: Vec<u64>)
        requires
            self.wf(buf@),
        ensures
            r@ == self.abs(buf@),
    {
        let w = self.dim.size();
        let mut r: Vec<u64> = Vec::new();
        for i in 0..w
            invariant
                w == self.dim.spec_size(),
                self.wf(buf@),
                r@.len() == i,
                forall|k: int| 0 <= k < i ==> r@[k] == self.abs(buf@)[k],
        {
            let v = self.nth(buf, i);
            r.push(v);
        }
        proof {
            assert(r@ =~= self.abs(buf@));
        }
        r
    }
}

} // verus!
