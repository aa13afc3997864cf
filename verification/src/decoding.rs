//! The mathematical decoder: what a byte buffer means, as a function of the
//! bytes alone.
//!
//! Every decoder returns the decoded model together with the absolute offset
//! just past the record, or the typed error the bytes force. Failures are
//! deterministic; a read past the end of the buffer is `TruncatedBuffer`,
//! a header that contradicts its container is `Malformed`.
//!
//! A record may carry the optional SRID extension: bit 0x20000000 of the raw
//! type tag (the EWKB convention) signals four extra bytes between the tag
//! and the body, which the decoder skips. Members of a multi point must be
//! plain point records, so that members have a uniform size.

use vstd::prelude::*;

use crate::bytes::{u32_at, u64_at};
use crate::common::{Endianness, WKBDimension, WKBError, WKBType};
use crate::geom::{
    all_nan, GeometryCollectionModel, GeometryModel, LineStringModel, MultiLineStringModel,
    MultiPointModel, MultiPolygonModel, PointModel, PolygonModel,
};

verus! {

/// The bit of the raw type tag that signals a 4-byte SRID between the tag
/// and the body.
pub const SRID_FLAG: u32 = 0x20000000;

/// Mask clearing the SRID flag from a raw type tag.
pub const SRID_MASK: u32 = 0xdfffffff;

/// A parsed record header: byte order, type, and whether a 4-byte SRID
/// follows the tag.
pub struct HeaderModel {
    pub order: Endianness,
    pub wkb_type: WKBType,
    pub has_srid: bool,
}

/// Parses the header of the record at `o`: the byte-order byte, then the
/// type tag in that byte order, with the SRID flag stripped before the tag
/// is interpreted.
pub open spec fn dec_header(b: Seq<u8>, o: int) -> Result<HeaderModel, WKBError> {
    if o + 1 > b.len() {
        Err(WKBError::TruncatedBuffer)
    } else if b[o] != 0 && b[o] != 1 {
        Err(WKBError::InvalidByteOrder)
    } else {
        let order = if b[o] == 0 {
            Endianness::BigEndian
        } else {
            Endianness::LittleEndian
        };
        if o + 5 > b.len() {
            Err(WKBError::TruncatedBuffer)
        } else {
            let raw = u32_at(b, o + 1, order);
            let tag = raw & SRID_MASK;
            if !WKBType::spec_tag_valid(tag) {
                Err(WKBError::InvalidTypeTag)
            } else {
                Ok(
                    HeaderModel {
                        order,
                        wkb_type: WKBType::spec_from_u32(tag),
                        has_srid: raw & SRID_FLAG != 0,
                    },
                )
            }
        }
    }
}

/// Where the body of a record starting at `o` begins: past the five header
/// bytes and, when present, the four SRID bytes.
pub open spec fn body_at(o: int, has_srid: bool) -> int {
    o + 5 + if has_srid {
        4int
    } else {
        0int
    }
}

/// The coordinate whose `width` axes start at offset `o`.
pub open spec fn coord_at(b: Seq<u8>, o: int, width: nat, order: Endianness) -> Seq<u64> {
    Seq::new(width, |i: int| u64_at(b, o + 8 * i, order))
}

/// Decodes a point body at `p`: `width` doubles, all-NaN meaning the empty
/// point.
pub open spec fn dec_point_body(b: Seq<u8>, p: int, order: Endianness, dim: WKBDimension) -> Result<
    (PointModel, int),
    WKBError,
> {
    let w = dim.spec_size() as nat;
    if p + 8 * w <= b.len() {
        let c = coord_at(b, p, w, order);
        let coord = if all_nan(c) {
            None
        } else {
            Some(c)
        };
        Ok((PointModel { dim, coord }, p + 8 * w))
    } else {
        Err(WKBError::TruncatedBuffer)
    }
}

/// Decodes a 32-bit count followed by that many coordinates at `p`: the body
/// of a line string, and the whole of a polygon ring.
pub open spec fn dec_counted_coords(
    b: Seq<u8>,
    p: int,
    order: Endianness,
    dim: WKBDimension,
) -> Result<(Seq<Seq<u64>>, int), WKBError> {
    let w = dim.spec_size() as nat;
    if p + 4 > b.len() {
        Err(WKBError::TruncatedBuffer)
    } else {
        let n = u32_at(b, p, order) as int;
        if p + 4 + n * (8 * w) <= b.len() {
            Ok(
                (
                    Seq::new(n as nat, |i: int| coord_at(b, p + 4 + i * (8 * w), w, order)),
                    p + 4 + n * (8 * w),
                ),
            )
        } else {
            Err(WKBError::TruncatedBuffer)
        }
    }
}

/// Decodes `n` consecutive rings starting at `p`.
pub open spec fn dec_rings(b: Seq<u8>, p: int, order: Endianness, dim: WKBDimension, n: nat) -> Result<
    (Seq<Seq<Seq<u64>>>, int),
    WKBError,
>
    decreases n,
{
    if n == 0 {
        Ok((Seq::empty(), p))
    } else {
        match dec_counted_coords(b, p, order, dim) {
            Ok((ring, end)) => match dec_rings(b, end, order, dim, (n - 1) as nat) {
                Ok((rest, e2)) => Ok((seq![ring] + rest, e2)),
                Err(e) => Err(e),
            },
            Err(e) => Err(e),
        }
    }
}

/// Decodes a polygon body at `p`: a ring count, then that many rings.
pub open spec fn dec_polygon_body(
    b: Seq<u8>,
    p: int,
    order: Endianness,
    dim: WKBDimension,
) -> Result<(PolygonModel, int), WKBError> {
    if p + 4 > b.len() {
        Err(WKBError::TruncatedBuffer)
    } else {
        let n = u32_at(b, p, order) as nat;
        match dec_rings(b, p + 4, order, dim, n) {
            Ok((rings, end)) => Ok((PolygonModel { dim, rings }, end)),
            Err(e) => Err(e),
        }
    }
}

/// Decodes one full point record at `p` inside a multi point: its header
/// must announce a plain (SRID-free) point of the container's
/// dimensionality, so that every member has the same size.
pub open spec fn dec_point_record(b: Seq<u8>, p: int, dim: WKBDimension) -> Result<
    (PointModel, int),
    WKBError,
> {
    match dec_header(b, p) {
        Ok(h) => {
            if h.has_srid || h.wkb_type != WKBType::Point(dim) {
                Err(WKBError::Malformed)
            } else {
                dec_point_body(b, p + 5, h.order, dim)
            }
        },
        Err(e) => Err(e),
    }
}

/// Decodes `n` consecutive full point records starting at `p`.
pub open spec fn dec_point_records(b: Seq<u8>, p: int, dim: WKBDimension, n: nat) -> Result<
    (Seq<PointModel>, int),
    WKBError,
>
    decreases n,
{
    if n == 0 {
        Ok((Seq::empty(), p))
    } else {
        match dec_point_record(b, p, dim) {
            Ok((pt, end)) => match dec_point_records(b, end, dim, (n - 1) as nat) {
                Ok((rest, e2)) => Ok((seq![pt] + rest, e2)),
                Err(e) => Err(e),
            },
            Err(e) => Err(e),
        }
    }
}

/// The number of bytes of one point record inside a multi point: a plain
/// header and `width` doubles, the same for every member.
pub open spec fn point_record_size(dim: WKBDimension) -> int {
    5 + 8 * dim.spec_size()
}

/// A run of point records accepted by the decoder is uniform: it holds `n`
/// points, member `i` starts at the closed-form offset `p + i * size`, and
/// the run ends at `p + n * size`.
pub proof fn lemma_dec_point_records_index(b: Seq<u8>, p: int, dim: WKBDimension, n: nat)
    requires
        dec_point_records(b, p, dim, n) is Ok,
    ensures
        ({
            let (ps, end) = dec_point_records(b, p, dim, n)->Ok_0;
            &&& ps.len() == n
            &&& end == p + n * point_record_size(dim)
            &&& forall|i: int|
                0 <= i < n ==> dec_point_record(b, p + i * point_record_size(dim), dim) == Ok::<
                    _,
                    WKBError,
                >((ps[i], p + (i + 1) * point_record_size(dim)))
        }),
    decreases n,
{
    let s = point_record_size(dim);
    if n > 0 {
        let (pt, end) = dec_point_record(b, p, dim)->Ok_0;
        assert(end == p + s);
        lemma_dec_point_records_index(b, end, dim, (n - 1) as nat);
        let (ps, end_total) = dec_point_records(b, p, dim, n)->Ok_0;
        let (rest, _) = dec_point_records(b, end, dim, (n - 1) as nat)->Ok_0;
        assert(end_total == end + (n - 1) * s && end + (n - 1) * s == p + n * s) by (
        nonlinear_arith)
            requires
                end == p + s,
                end_total == end + (n - 1) * s,
                n >= 1,
        ;
        assert forall|i: int| 0 <= i < n implies dec_point_record(b, p + i * s, dim) == Ok::<
            _,
            WKBError,
        >((ps[i], p + (i + 1) * s)) by {
            if i == 0 {
                assert(ps[0] == pt);
                assert(p + 1 * s == p + s);
            } else {
                assert(p + i * s == end + (i - 1) * s && p + (i + 1) * s == end + i * s) by (
                nonlinear_arith)
                    requires
                        end == p + s,
                ;
                assert(ps[i] == rest[i - 1]);
            }
        };
    }
}

/// The decreases measure for offset-based recursion: how many bytes of `b`
/// lie at or past `p`.
pub open spec fn rem(b: Seq<u8>, p: int) -> int {
    if p <= b.len() {
        b.len() - p
    } else {
        0
    }
}

/// Decodes the full geometry record at `o`: header, then the body of the
/// announced kind, with nested records decoded recursively.
pub open spec fn dec_geometry(b: Seq<u8>, o: int) -> Result<(GeometryModel, int), WKBError>
    decreases rem(b, o), 0int, 0nat,
{
    match dec_header(b, o) {
        Ok(h) => {
            let order = h.order;
            let dim = h.wkb_type.spec_dimension();
            let p = body_at(o, h.has_srid);
            match h.wkb_type {
                WKBType::Point(_) => match dec_point_body(b, p, order, dim) {
                    Ok((m, end)) => Ok((GeometryModel::Point(m), end)),
                    Err(e) => Err(e),
                },
                WKBType::LineString(_) => match dec_counted_coords(b, p, order, dim) {
                    Ok((cs, end)) => Ok(
                        (GeometryModel::LineString(LineStringModel { dim, coords: cs }), end),
                    ),
                    Err(e) => Err(e),
                },
                WKBType::Polygon(_) => match dec_polygon_body(b, p, order, dim) {
                    Ok((m, end)) => Ok((GeometryModel::Polygon(m), end)),
                    Err(e) => Err(e),
                },
                WKBType::MultiPoint(_) => {
                    if p + 4 > b.len() {
                        Err(WKBError::TruncatedBuffer)
                    } else {
                        let n = u32_at(b, p, order) as nat;
                        match dec_point_records(b, p + 4, dim, n) {
                            Ok((pts, end)) => Ok(
                                (
                                    GeometryModel::MultiPoint(
                                        MultiPointModel { dim, points: pts },
                                    ),
                                    end,
                                ),
                            ),
                            Err(e) => Err(e),
                        }
                    }
                },
                WKBType::MultiLineString(_) => {
                    if p + 4 > b.len() {
                        Err(WKBError::TruncatedBuffer)
                    } else {
                        let n = u32_at(b, p, order) as nat;
                        match dec_linestring_records(b, p + 4, n) {
                            Ok((ms, end)) => Ok(
                                (
                                    GeometryModel::MultiLineString(
                                        MultiLineStringModel { dim, line_strings: ms },
                                    ),
                                    end,
                                ),
                            ),
                            Err(e) => Err(e),
                        }
                    }
                },
                WKBType::MultiPolygon(_) => {
                    if p + 4 > b.len() {
                        Err(WKBError::TruncatedBuffer)
                    } else {
                        let n = u32_at(b, p, order) as nat;
                        match dec_polygon_records(b, p + 4, n) {
                            Ok((ms, end)) => Ok(
                                (
                                    GeometryModel::MultiPolygon(
                                        MultiPolygonModel { dim, polygons: ms },
                                    ),
                                    end,
                                ),
                            ),
                            Err(e) => Err(e),
                        }
                    }
                },
                WKBType::GeometryCollection(_) => {
                    if p + 4 > b.len() {
                        Err(WKBError::TruncatedBuffer)
                    } else {
                        let n = u32_at(b, p, order) as nat;
                        match dec_members(b, p + 4, n) {
                            Ok((ms, end)) => Ok(
                                (
                                    GeometryModel::GeometryCollection(
                                        GeometryCollectionModel { dim, geometries: ms },
                                    ),
                                    end,
                                ),
                            ),
                            Err(e) => Err(e),
                        }
                    }
                },
            }
        },
        Err(e) => Err(e),
    }
}

/// Decodes `n` consecutive full geometry records of any kind starting at
/// `p`: the members of a geometry collection.
pub open spec fn dec_members(b: Seq<u8>, p: int, n: nat) -> Result<
    (Seq<GeometryModel>, int),
    WKBError,
>
    decreases rem(b, p), 1int, n,
{
    if n == 0 {
        Ok((Seq::empty(), p))
    } else {
        match dec_geometry(b, p) {
            Ok((g, end)) => {
                let next = if p < end <= b.len() {
                    end
                } else {
                    p
                };
                match dec_members(b, next, (n - 1) as nat) {
                    Ok((rest, e2)) => Ok((seq![g] + rest, e2)),
                    Err(e) => Err(e),
                }
            },
            Err(e) => Err(e),
        }
    }
}

/// Decodes `n` consecutive full line string records starting at `p`: the
/// members of a multi line string. A member of any other kind is
/// `Malformed`.
pub open spec fn dec_linestring_records(b: Seq<u8>, p: int, n: nat) -> Result<
    (Seq<LineStringModel>, int),
    WKBError,
>
    decreases rem(b, p), 1int, n,
{
    if n == 0 {
        Ok((Seq::empty(), p))
    } else {
        match dec_geometry(b, p) {
            Ok((g, end)) => match g {
                GeometryModel::LineString(ls) => {
                    let next = if p < end <= b.len() {
                        end
                    } else {
                        p
                    };
                    match dec_linestring_records(b, next, (n - 1) as nat) {
                        Ok((rest, e2)) => Ok((seq![ls] + rest, e2)),
                        Err(e) => Err(e),
                    }
                },
                _ => Err(WKBError::Malformed),
            },
            Err(e) => Err(e),
        }
    }
}

/// Decodes `n` consecutive full polygon records starting at `p`: the members
/// of a multi polygon. A member of any other kind is `Malformed`.
pub open spec fn dec_polygon_records(b: Seq<u8>, p: int, n: nat) -> Result<
    (Seq<PolygonModel>, int),
    WKBError,
>
    decreases rem(b, p), 1int, n,
{
    if n == 0 {
        Ok((Seq::empty(), p))
    } else {
        match dec_geometry(b, p) {
            Ok((g, end)) => match g {
                GeometryModel::Polygon(pm) => {
                    let next = if p < end <= b.len() {
                        end
                    } else {
                        p
                    };
                    match dec_polygon_records(b, next, (n - 1) as nat) {
                        Ok((rest, e2)) => Ok((seq![pm] + rest, e2)),
                        Err(e) => Err(e),
                    }
                },
                _ => Err(WKBError::Malformed),
            },
            Err(e) => Err(e),
        }
    }
}

/// Every record a decoder accepts ends past its own header and within the
/// buffer: the returned end offset is strictly past the start and at most
/// the buffer length.
pub proof fn lemma_dec_geometry_end(b: Seq<u8>, o: int)
    requires
        dec_geometry(b, o) is Ok,
    ensures
        o + 5 < dec_geometry(b, o)->Ok_0.1 <= b.len(),
    decreases rem(b, o), 0int, 0nat,
{
    let h = dec_header(b, o)->Ok_0;
    let p = body_at(o, h.has_srid);
    match h.wkb_type {
        WKBType::Point(_) => {},
        WKBType::LineString(_) => {},
        WKBType::Polygon(_) => {
            lemma_dec_rings_end(b, p + 4, h.order, h.wkb_type.spec_dimension(), u32_at(b, p, h.order) as nat);
        },
        WKBType::MultiPoint(_) => {
            lemma_dec_point_records_end(b, p + 4, h.wkb_type.spec_dimension(), u32_at(b, p, h.order) as nat);
        },
        WKBType::MultiLineString(_) => {
            lemma_dec_linestring_records_end(b, p + 4, u32_at(b, p, h.order) as nat);
        },
        WKBType::MultiPolygon(_) => {
            lemma_dec_polygon_records_end(b, p + 4, u32_at(b, p, h.order) as nat);
        },
        WKBType::GeometryCollection(_) => {
            lemma_dec_members_end(b, p + 4, u32_at(b, p, h.order) as nat);
        },
    }
}

/// A run of rings accepted by the decoder ends no earlier than it starts and
/// within the buffer.
pub proof fn lemma_dec_rings_end(b: Seq<u8>, p: int, order: Endianness, dim: WKBDimension, n: nat)
    requires
        dec_rings(b, p, order, dim, n) is Ok,
        p <= b.len(),
    ensures
        p <= dec_rings(b, p, order, dim, n)->Ok_0.1 <= b.len(),
    decreases n,
{
    if n > 0 {
        let (ring, end) = dec_counted_coords(b, p, order, dim)->Ok_0;
        lemma_dec_rings_end(b, end, order, dim, (n - 1) as nat);
    }
}

/// A run of point records accepted by the decoder ends no earlier than it
/// starts and within the buffer.
pub proof fn lemma_dec_point_records_end(b: Seq<u8>, p: int, dim: WKBDimension, n: nat)
    requires
        dec_point_records(b, p, dim, n) is Ok,
        p <= b.len(),
    ensures
        p <= dec_point_records(b, p, dim, n)->Ok_0.1 <= b.len(),
    decreases n,
{
    if n > 0 {
        let (pt, end) = dec_point_record(b, p, dim)->Ok_0;
        lemma_dec_point_records_end(b, end, dim, (n - 1) as nat);
    }
}

/// A run of collection members accepted by the decoder ends no earlier than
/// it starts and within the buffer.
pub proof fn lemma_dec_members_end(b: Seq<u8>, p: int, n: nat)
    requires
        dec_members(b, p, n) is Ok,
        p <= b.len(),
    ensures
        p <= dec_members(b, p, n)->Ok_0.1 <= b.len(),
    decreases rem(b, p), 1int, n,
{
    if n > 0 {
        let (g, end) = dec_geometry(b, p)->Ok_0;
        lemma_dec_geometry_end(b, p);
        lemma_dec_members_end(b, end, (n - 1) as nat);
    }
}

/// A run of line string members accepted by the decoder ends no earlier than
/// it starts and within the buffer.
pub proof fn lemma_dec_linestring_records_end(b: Seq<u8>, p: int, n: nat)
    requires
        dec_linestring_records(b, p, n) is Ok,
        p <= b.len(),
    ensures
        p <= dec_linestring_records(b, p, n)->Ok_0.1 <= b.len(),
    decreases rem(b, p), 1int, n,
{
    if n > 0 {
        let (g, end) = dec_geometry(b, p)->Ok_0;
        lemma_dec_geometry_end(b, p);
        lemma_dec_linestring_records_end(b, end, (n - 1) as nat);
    }
}

/// A run of polygon members accepted by the decoder ends no earlier than it
/// starts and within the buffer.
pub proof fn lemma_dec_polygon_records_end(b: Seq<u8>, p: int, n: nat)
    requires
        dec_polygon_records(b, p, n) is Ok,
        p <= b.len(),
    ensures
        p <= dec_polygon_records(b, p, n)->Ok_0.1 <= b.len(),
    decreases rem(b, p), 1int, n,
{
    if n > 0 {
        let (g, end) = dec_geometry(b, p)->Ok_0;
        lemma_dec_geometry_end(b, p);
        lemma_dec_polygon_records_end(b, end, (n - 1) as nat);
    }
}

} // verus!
