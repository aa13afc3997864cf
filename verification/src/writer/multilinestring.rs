//! Writing multi line string records.

use vstd::prelude::*;

use crate::bytes::{write_u32, write_u8};
use crate::common::{Endianness, WKBType};
use crate::encoding::{
    enc_multilinestring, linestrings_bytes, linestrings_size,
};
use crate::geom::MultiLineString;
use crate::writer::linestring::{line_string_wkb_size, write_line_string};

verus! {

/// The byte length of an encoded multi line string record.
pub fn multi_line_string_wkb_size(geom: &MultiLineString) -> (r: usize)
    requires
        9 + linestrings_size(geom@.line_strings) <= usize::MAX,
    ensures
        r == 9 + linestrings_size(geom@.line_strings),
{
    let ghost lv = geom.line_strings.deep_view();
    let mut sum: usize = 1 + 4 + 4;
    let n = geom.line_strings.len();
    proof {
        assert(lv.subrange(0, n as int) =~= lv);
    }
    for i in 0..n
        invariant
            n == geom.line_strings@.len(),
            lv == geom.line_strings.deep_view(),
            lv.len() == n,
            sum + linestrings_size(lv.subrange(i as int, n as int)) == 9 + linestrings_size(lv),
            9 + linestrings_size(lv) <= usize::MAX,
    {
        proof {
            let s = lv.subrange(i as int, n as int);
            assert(s[0] == lv[i as int]);
            assert(lv[i as int] == geom.line_strings@[i as int]@);
            assert(s.subrange(1, s.len() as int) =~= lv.subrange(i as int + 1, n as int));
        }
        sum = sum + line_string_wkb_size(&geom.line_strings[i]);
    }
    proof {
        assert(lv.subrange(n as int, n as int) =~= Seq::<crate::geom::LineStringModel>::empty());
    }
    sum
}

/// Appends a multi line string record: header, member count, then each
/// member as a full line string record in the same byte order.
pub fn write_multi_line_string(out: &mut Vec<u8>, geom: &MultiLineString, endianness: Endianness)
    requires
        geom@.wf(),
    ensures
        final(out)@ == old(out)@ + enc_multilinestring(geom@, endianness),
{
    write_u8(out, endianness.as_u8());
    write_u32(out, WKBType::MultiLineString(geom.dim).as_u32(), endianness);
    let n = geom.line_strings.len();
    let ghost lv = geom.line_strings.deep_view();
    proof {
        assert(lv.len() == n);
    }
    write_u32(out, n as u32, endianness);
    proof {
        assert(lv.subrange(0, n as int) =~= lv);
        assert(out@ + linestrings_bytes(lv, endianness) =~= old(out)@ + enc_multilinestring(
            geom@,
            endianness,
        ));
    }
    for i in 0..n
        invariant
            n == geom.line_strings@.len(),
            lv == geom.line_strings.deep_view(),
            lv.len() == n,
            geom@.wf(),
            out@ + linestrings_bytes(lv.subrange(i as int, n as int), endianness) == old(out)@
                + enc_multilinestring(geom@, endianness),
    {
        proof {
            let s = lv.subrange(i as int, n as int);
            assert(s[0] == lv[i as int]);
            assert(lv[i as int] == geom.line_strings@[i as int]@);
            assert(s.subrange(1, s.len() as int) =~= lv.subrange(i as int + 1, n as int));
        }
        write_line_string(out, &geom.line_strings[i], endianness);
        proof {
            assert(out@ + linestrings_bytes(lv.subrange(i as int + 1, n as int), endianness)
                =~= old(out)@ + enc_multilinestring(geom@, endianness));
        }
    }
    proof {
        assert(lv.subrange(n as int, n as int) =~= Seq::<crate::geom::LineStringModel>::empty());
        assert(out@ =~= old(out)@ + enc_multilinestring(geom@, endianness));
    }
}

} // verus!
