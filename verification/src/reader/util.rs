//! Reading record headers: the byte-order byte and the type tag, with the
//! SRID flag stripped before the tag is interpreted.

use vstd::prelude::*;

use crate::bytes::{read_u32, read_u8};
use crate::common::{Endianness, WKBError, WKBType};
use crate::decoding::{dec_header, HeaderModel, SRID_FLAG, SRID_MASK};

verus! {

/// Parses the record header at `offset`: the byte order, the geometry type,
/// and whether a 4-byte SRID follows the tag.
pub(crate) fn read_header(buf: &[u8], offset: usize) -> (r: Result<
    (Endianness, WKBType, bool),
    WKBError,
>)
    ensures
        match r {
            Ok((order, t, srid)) => dec_header(buf@, offset as int) == Ok::<_, WKBError>(
                HeaderModel { order, wkb_type: t, has_srid: srid },
            ),
            Err(e) => dec_header(buf@, offset as int) == Err::<HeaderModel, _>(e),
        },
{
    let len = buf.len();
    let bo = match read_u8(buf, offset) {
        Ok(v) => v,
        Err(e) => {
            return Err(e);
        },
    };
    let order = match Endianness::try_from_u8(bo) {
        Ok(o) => o,
        Err(e) => {
            return Err(e);
        },
    };
    let raw = match read_u32(buf, offset + 1, order) {
        Ok(v) => v,
        Err(e) => {
            return Err(e);
        },
    };
    let tag = raw & SRID_MASK;
    let wkb_type = match WKBType::try_from_u32(tag) {
        Ok(t) => t,
        Err(e) => {
            return Err(e);
        },
    };
    Ok((order, wkb_type, raw & SRID_FLAG != 0))
}

impl WKBType {
    /// Reads the geometry type announced by the record at the start of the
    /// buffer, without touching the record's body.
    pub fn from_buffer(buf: &[u8]) -> (r: Result<WKBType, WKBError>)
        ensures
            match r {
                Ok(t) => dec_header(buf@, 0) matches Ok(h) && h.wkb_type == t,
                Err(e) => dec_header(buf@, 0) == Err::<HeaderModel, _>(e),
            },
    {
        match read_header(buf, 0) {
            Ok((_, t, _)) => Ok(t),
            Err(e) => Err(e),
        }
    }
}

} // verus!
