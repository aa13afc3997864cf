//! The byte layout of an encoded geometry, as a mathematical function of its
//! model, together with the exact size of that layout.
//!
//! Every record is `byte_order:u8 type_tag:u32 body`, with the chosen byte
//! order propagated to every nested record; the encoder never writes the
//! optional SRID extension.

use vstd::prelude::*;

use crate::bytes::{u32_bytes, u64_bytes, NAN_BITS};
use crate::common::{Endianness, WKBType};
use crate::geom::{
    GeometryModel, LineStringModel, MultiLineStringModel, MultiPointModel, MultiPolygonModel,
    PointModel, PolygonModel,
};

verus! {

/// The five header bytes of a record: the byte-order byte, then the type tag
/// in that byte order.
pub open spec fn header_bytes(t: WKBType, order: Endianness) -> Seq<u8> {
    seq![order.spec_as_u8()] + u32_bytes(t.spec_as_u32(), order)
}

/// A coordinate all of whose axes are the written NaN pattern: what an empty
/// point's body holds.
pub open spec fn nan_coord(width: nat) -> Seq<u64> {
    Seq::new(width, |i: int| NAN_BITS)
}

/// The axes an encoded point stores: its coordinate, or all-NaN when empty.
pub open spec fn point_axes(p: PointModel) -> Seq<u64> {
    match p.coord {
        Some(c) => c,
        None => nan_coord(p.dim.spec_size() as nat),
    }
}

/// The bytes of one coordinate: each axis as eight bytes, in order.
pub open spec fn coord_bytes(c: Seq<u64>, order: Endianness) -> Seq<u8>
    decreases c.len(),
{
    if c.len() == 0 {
        Seq::empty()
    } else {
        u64_bytes(c[0], order) + coord_bytes(c.subrange(1, c.len() as int), order)
    }
}

/// The bytes of a run of coordinates.
pub open spec fn coords_bytes(cs: Seq<Seq<u64>>, order: Endianness) -> Seq<u8>
    decreases cs.len(),
{
    if cs.len() == 0 {
        Seq::empty()
    } else {
        coord_bytes(cs[0], order) + coords_bytes(cs.subrange(1, cs.len() as int), order)
    }
}

/// A 32-bit count followed by that many coordinates: the body of a line
/// string and the whole of a polygon ring.
pub open spec fn counted_coords_bytes(cs: Seq<Seq<u64>>, order: Endianness) -> Seq<u8> {
    u32_bytes(cs.len() as u32, order) + coords_bytes(cs, order)
}

/// The bytes of a run of polygon rings.
pub open spec fn rings_bytes(rs: Seq<Seq<Seq<u64>>>, order: Endianness) -> Seq<u8>
    decreases rs.len(),
{
    if rs.len() == 0 {
        Seq::empty()
    } else {
        counted_coords_bytes(rs[0], order) + rings_bytes(rs.subrange(1, rs.len() as int), order)
    }
}

/// The encoding of a point record: header, then `width` doubles, all NaN for
/// the empty point.
pub open spec fn enc_point(p: PointModel, order: Endianness) -> Seq<u8> {
    header_bytes(WKBType::Point(p.dim), order) + coord_bytes(point_axes(p), order)
}

/// The encoding of a line string record.
pub open spec fn enc_linestring(ls: LineStringModel, order: Endianness) -> Seq<u8> {
    header_bytes(WKBType::LineString(ls.dim), order) + counted_coords_bytes(ls.coords, order)
}

/// The encoding of a polygon record: header, ring count, then each ring as a
/// count and its coordinates.
pub open spec fn enc_polygon(p: PolygonModel, order: Endianness) -> Seq<u8> {
    header_bytes(WKBType::Polygon(p.dim), order) + u32_bytes(p.rings.len() as u32, order)
        + rings_bytes(p.rings, order)
}

/// The bytes of a run of full point records.
pub open spec fn points_bytes(ps: Seq<PointModel>, order: Endianness) -> Seq<u8>
    decreases ps.len(),
{
    if ps.len() == 0 {
        Seq::empty()
    } else {
        enc_point(ps[0], order) + points_bytes(ps.subrange(1, ps.len() as int), order)
    }
}

/// The encoding of a multi point record: each member is a full point record.
pub open spec fn enc_multipoint(mp: MultiPointModel, order: Endianness) -> Seq<u8> {
    header_bytes(WKBType::MultiPoint(mp.dim), order) + u32_bytes(mp.points.len() as u32, order)
        + points_bytes(mp.points, order)
}

/// The bytes of a run of full line string records.
pub open spec fn linestrings_bytes(ls: Seq<LineStringModel>, order: Endianness) -> Seq<u8>
    decreases ls.len(),
{
    if ls.len() == 0 {
        Seq::empty()
    } else {
        enc_linestring(ls[0], order) + linestrings_bytes(ls.subrange(1, ls.len() as int), order)
    }
}

/// The encoding of a multi line string record.
pub open spec fn enc_multilinestring(mls: MultiLineStringModel, order: Endianness) -> Seq<u8> {
    header_bytes(WKBType::MultiLineString(mls.dim), order) + u32_bytes(
        mls.line_strings.len() as u32,
        order,
    ) + linestrings_bytes(mls.line_strings, order)
}

/// The bytes of a run of full polygon records.
pub open spec fn polygons_bytes(ps: Seq<PolygonModel>, order: Endianness) -> Seq<u8>
    decreases ps.len(),
{
    if ps.len() == 0 {
        Seq::empty()
    } else {
        enc_polygon(ps[0], order) + polygons_bytes(ps.subrange(1, ps.len() as int), order)
    }
}

/// The encoding of a multi polygon record.
pub open spec fn enc_multipolygon(mp: MultiPolygonModel, order: Endianness) -> Seq<u8> {
    header_bytes(WKBType::MultiPolygon(mp.dim), order) + u32_bytes(mp.polygons.len() as u32, order)
        + polygons_bytes(mp.polygons, order)
}

/// The encoding of a whole geometry record of any kind, in the given byte
/// order.
pub open spec fn enc_geometry(g: GeometryModel, order: Endianness) -> Seq<u8>
    decreases g,
{
    match g {
        GeometryModel::Point(p) => enc_point(p, order),
        GeometryModel::LineString(ls) => enc_linestring(ls, order),
        GeometryModel::Polygon(p) => enc_polygon(p, order),
        GeometryModel::MultiPoint(mp) => enc_multipoint(mp, order),
        GeometryModel::MultiLineString(mls) => enc_multilinestring(mls, order),
        GeometryModel::MultiPolygon(mp) => enc_multipolygon(mp, order),
        GeometryModel::GeometryCollection(c) => header_bytes(
            WKBType::GeometryCollection(c.dim),
            order,
        ) + u32_bytes(c.geometries.len() as u32, order) + members_bytes(c.geometries, order),
    }
}

/// The bytes of a run of full geometry records of any kind.
pub open spec fn members_bytes(ms: Seq<GeometryModel>, order: Endianness) -> Seq<u8>
    decreases ms,
{
    if ms.len() == 0 {
        Seq::empty()
    } else {
        enc_geometry(ms[0], order) + members_bytes(ms.subrange(1, ms.len() as int), order)
    }
}

/// The size in bytes of one encoded coordinate.
pub open spec fn coord_size(dim: crate::common::WKBDimension) -> nat {
    8 * dim.spec_size() as nat
}

/// The size in bytes of an encoded point record.
pub open spec fn point_size(dim: crate::common::WKBDimension) -> nat {
    5 + coord_size(dim)
}

/// The size in bytes of an encoded line string record.
pub open spec fn linestring_size(ls: LineStringModel) -> nat {
    9 + ls.coords.len() * coord_size(ls.dim)
}

/// The size in bytes of an encoded polygon record.
pub open spec fn polygon_size(p: PolygonModel) -> nat {
    9 + rings_size(p.rings, p.dim)
}

/// The size in bytes of a run of rings.
pub open spec fn rings_size(rs: Seq<Seq<Seq<u64>>>, dim: crate::common::WKBDimension) -> nat
    decreases rs.len(),
{
    if rs.len() == 0 {
        0
    } else {
        4 + rs[0].len() * coord_size(dim) + rings_size(rs.subrange(1, rs.len() as int), dim)
    }
}

/// The size in bytes of an encoded multi point record.
pub open spec fn multipoint_size(mp: MultiPointModel) -> nat {
    9 + mp.points.len() * point_size(mp.dim)
}

/// The size in bytes of a run of line string records.
pub open spec fn linestrings_size(ls: Seq<LineStringModel>) -> nat
    decreases ls.len(),
{
    if ls.len() == 0 {
        0
    } else {
        linestring_size(ls[0]) + linestrings_size(ls.subrange(1, ls.len() as int))
    }
}

/// The size in bytes of a run of polygon records.
pub open spec fn polygons_size(ps: Seq<PolygonModel>) -> nat
    decreases ps.len(),
{
    if ps.len() == 0 {
        0
    } else {
        polygon_size(ps[0]) + polygons_size(ps.subrange(1, ps.len() as int))
    }
}

/// The exact size in bytes of an encoded geometry record. The size does not
/// depend on the byte order.
pub open spec fn geometry_size(g: GeometryModel) -> nat
    decreases g,
{
    match g {
        GeometryModel::Point(p) => point_size(p.dim),
        GeometryModel::LineString(ls) => linestring_size(ls),
        GeometryModel::Polygon(p) => polygon_size(p),
        GeometryModel::MultiPoint(mp) => multipoint_size(mp),
        GeometryModel::MultiLineString(mls) => 9 + linestrings_size(mls.line_strings),
        GeometryModel::MultiPolygon(mp) => 9 + polygons_size(mp.polygons),
        GeometryModel::GeometryCollection(c) => 9 + members_size(c.geometries),
    }
}

/// The size in bytes of a run of geometry records.
pub open spec fn members_size(ms: Seq<GeometryModel>) -> nat
    decreases ms,
{
    if ms.len() == 0 {
        0
    } else {
        geometry_size(ms[0]) + members_size(ms.subrange(1, ms.len() as int))
    }
}

/// The bytes of one coordinate are eight per axis.
pub proof fn lemma_coord_bytes_len(c: Seq<u64>, order: Endianness)
    ensures
        coord_bytes(c, order).len() == 8 * c.len(),
    decreases c.len(),
{
    if c.len() > 0 {
        lemma_coord_bytes_len(c.subrange(1, c.len() as int), order);
    }
}

/// The bytes of a run of well-formed coordinates are `coord_size` each.
pub proof fn lemma_coords_bytes_len(cs: Seq<Seq<u64>>, dim: crate::common::WKBDimension, order: Endianness)
    requires
        crate::geom::coords_wf(cs, dim),
    ensures
        coords_bytes(cs, order).len() == cs.len() * coord_size(dim),
    decreases cs.len(),
{
    if cs.len() > 0 {
        let rest = cs.subrange(1, cs.len() as int);
        assert(crate::geom::coords_wf(rest, dim)) by {
            assert(forall|i: int| 0 <= i < rest.len() ==> rest[i] == cs[i + 1]);
        };
        lemma_coords_bytes_len(rest, dim, order);
        lemma_coord_bytes_len(cs[0], order);
        assert(coords_bytes(cs, order).len() == 8 * cs[0].len() + rest.len() * coord_size(dim));
        assert(cs.len() * coord_size(dim) == coord_size(dim) + rest.len() * coord_size(dim)) by (
        nonlinear_arith)
            requires
                cs.len() == rest.len() + 1,
        ;
    }
}

/// The encoding of a well-formed point record has `point_size` bytes.
pub proof fn lemma_enc_point_len(p: PointModel, order: Endianness)
    requires
        p.wf(),
    ensures
        enc_point(p, order).len() == point_size(p.dim),
{
    match p.coord {
        Some(c) => lemma_coord_bytes_len(c, order),
        None => lemma_coord_bytes_len(nan_coord(p.dim.spec_size() as nat), order),
    }
}

/// The encoding of a well-formed line string record has `linestring_size`
/// bytes.
pub proof fn lemma_enc_linestring_len(ls: LineStringModel, order: Endianness)
    requires
        ls.wf(),
    ensures
        enc_linestring(ls, order).len() == linestring_size(ls),
{
    lemma_coords_bytes_len(ls.coords, ls.dim, order);
}

/// The bytes of a run of well-formed rings have `rings_size` bytes.
pub proof fn lemma_rings_bytes_len(
    rs: Seq<Seq<Seq<u64>>>,
    dim: crate::common::WKBDimension,
    order: Endianness,
)
    requires
        forall|i: int| 0 <= i < rs.len() ==> crate::geom::coords_wf(#[trigger] rs[i], dim),
    ensures
        rings_bytes(rs, order).len() == rings_size(rs, dim),
    decreases rs.len(),
{
    if rs.len() > 0 {
        lemma_coords_bytes_len(rs[0], dim, order);
        lemma_rings_bytes_len(rs.subrange(1, rs.len() as int), dim, order);
    }
}

/// The encoding of a well-formed polygon record has `polygon_size` bytes.
pub proof fn lemma_enc_polygon_len(p: PolygonModel, order: Endianness)
    requires
        p.wf(),
    ensures
        enc_polygon(p, order).len() == polygon_size(p),
{
    lemma_rings_bytes_len(p.rings, p.dim, order);
}

/// The bytes of a run of well-formed point records have uniform size.
pub proof fn lemma_points_bytes_len(
    ps: Seq<PointModel>,
    dim: crate::common::WKBDimension,
    order: Endianness,
)
    requires
        forall|i: int| 0 <= i < ps.len() ==> (#[trigger] ps[i]).wf() && ps[i].dim == dim,
    ensures
        points_bytes(ps, order).len() == ps.len() * point_size(dim),
    decreases ps.len(),
{
    if ps.len() > 0 {
        let rest = ps.subrange(1, ps.len() as int);
        lemma_enc_point_len(ps[0], order);
        lemma_points_bytes_len(rest, dim, order);
        assert(ps.len() * point_size(dim) == point_size(dim) + rest.len() * point_size(dim)) by (
        nonlinear_arith)
            requires
                ps.len() == rest.len() + 1,
        ;
    }
}

/// The bytes of a run of well-formed line string records have
/// `linestrings_size` bytes.
pub proof fn lemma_linestrings_bytes_len(ls: Seq<LineStringModel>, order: Endianness)
    requires
        forall|i: int| 0 <= i < ls.len() ==> (#[trigger] ls[i]).wf(),
    ensures
        linestrings_bytes(ls, order).len() == linestrings_size(ls),
    decreases ls.len(),
{
    if ls.len() > 0 {
        lemma_enc_linestring_len(ls[0], order);
        lemma_linestrings_bytes_len(ls.subrange(1, ls.len() as int), order);
    }
}

/// The bytes of a run of well-formed polygon records have `polygons_size`
/// bytes.
pub proof fn lemma_polygons_bytes_len(ps: Seq<PolygonModel>, order: Endianness)
    requires
        forall|i: int| 0 <= i < ps.len() ==> (#[trigger] ps[i]).wf(),
    ensures
        polygons_bytes(ps, order).len() == polygons_size(ps),
    decreases ps.len(),
{
    if ps.len() > 0 {
        lemma_enc_polygon_len(ps[0], order);
        lemma_polygons_bytes_len(ps.subrange(1, ps.len() as int), order);
    }
}

/// Size agreement for whole records: the encoding of a well-formed geometry
/// has exactly `geometry_size` bytes, in either byte order.
pub proof fn lemma_enc_geometry_len(g: GeometryModel, order: Endianness)
    requires
        g.wf(),
    ensures
        enc_geometry(g, order).len() == geometry_size(g),
    decreases g,
{
    match g {
        GeometryModel::Point(p) => lemma_enc_point_len(p, order),
        GeometryModel::LineString(ls) => lemma_enc_linestring_len(ls, order),
        GeometryModel::Polygon(p) => lemma_enc_polygon_len(p, order),
        GeometryModel::MultiPoint(mp) => lemma_points_bytes_len(mp.points, mp.dim, order),
        GeometryModel::MultiLineString(mls) => lemma_linestrings_bytes_len(
            mls.line_strings,
            order,
        ),
        GeometryModel::MultiPolygon(mp) => lemma_polygons_bytes_len(mp.polygons, order),
        GeometryModel::GeometryCollection(c) => lemma_members_bytes_len(c.geometries, order),
    }
}

/// The bytes of a run of well-formed geometry records have `members_size`
/// bytes.
pub proof fn lemma_members_bytes_len(ms: Seq<GeometryModel>, order: Endianness)
    requires
        forall|i: int| 0 <= i < ms.len() ==> (#[trigger] ms[i]).wf(),
    ensures
        members_bytes(ms, order).len() == members_size(ms),
    decreases ms,
{
    if ms.len() > 0 {
        lemma_enc_geometry_len(ms[0], order);
        lemma_members_bytes_len(ms.subrange(1, ms.len() as int), order);
    }
}

} // verus!
