//! The round-trip laws: decoding what the encoder wrote gives the original
//! geometry back, exactly, in either byte order.

use vstd::prelude::*;

use crate::bytes::{
    is_nan_bits, lemma_nan_bits_is_nan, lemma_u32_bytes_roundtrip, lemma_u64_bytes_roundtrip,
    u32_at, u32_bytes, u64_at, NAN_BITS,
};
use crate::common::{Endianness, WKBDimension, WKBError, WKBType};
use crate::decoding::{
    coord_at, dec_counted_coords, dec_geometry, dec_header, dec_linestring_records,
    dec_members, dec_point_body, dec_point_record, dec_point_records, dec_polygon_records, dec_rings, HeaderModel, SRID_FLAG, SRID_MASK,
};
use crate::encoding::{
    coord_bytes, coord_size, coords_bytes, counted_coords_bytes, enc_geometry, enc_linestring,
    enc_point, enc_polygon, geometry_size, header_bytes, lemma_coord_bytes_len,
    lemma_coords_bytes_len, lemma_enc_geometry_len, lemma_enc_linestring_len,
    lemma_enc_point_len, lemma_enc_polygon_len, lemma_linestrings_bytes_len,
    lemma_members_bytes_len, lemma_points_bytes_len, lemma_polygons_bytes_len,
    lemma_rings_bytes_len, linestring_size, linestrings_bytes, linestrings_size, members_bytes,
    members_size, multipoint_size, nan_coord, point_axes, point_size, points_bytes, polygon_size,
    polygons_bytes, polygons_size, rings_bytes, rings_size,
};
use crate::geom::{
    all_nan, coords_wf, GeometryModel, LineStringModel,
    MultiLineStringModel, MultiPointModel, MultiPolygonModel, PointModel, PolygonModel,
};

verus! {

/// Splitting a byte run: if the bytes at `o` spell `x + y`, then the bytes
/// at `o` spell `x` and the bytes just past them spell `y`.
proof fn lemma_split_at(b: Seq<u8>, o: int, x: Seq<u8>, y: Seq<u8>)
    requires
        0 <= o,
        o + x.len() + y.len() <= b.len(),
        b.subrange(o, o + x.len() + y.len()) == x + y,
    ensures
        b.subrange(o, o + x.len() as int) == x,
        b.subrange(o + x.len(), o + x.len() + y.len()) == y,
{
    let whole = b.subrange(o, o + x.len() + y.len());
    assert(b.subrange(o, o + x.len() as int) =~= x) by {
        assert forall|i: int| 0 <= i < x.len() implies b.subrange(o, o + x.len() as int)[i] == x[i] by {
            assert(whole[i] == (x + y)[i]);
        };
    };
    assert(b.subrange(o + x.len(), o + x.len() + y.len()) =~= y) by {
        assert forall|i: int| 0 <= i < y.len() implies b.subrange(
            o + x.len(),
            o + x.len() + y.len(),
        )[i] == y[i] by {
            assert(whole[x.len() + i] == (x + y)[x.len() + i]);
        };
    };
}

/// A valid numeric type tag never carries the SRID flag: reading back a
/// written tag finds the flag clear and the tag unchanged by the mask.
proof fn lemma_tag_no_srid(raw: u32)
    requires
        raw < 4000,
    ensures
        raw & SRID_FLAG == 0,
        raw & SRID_MASK == raw,
{
    assert(raw < 4000 ==> raw & 0x20000000u32 == 0 && raw & 0xdfffffffu32 == raw) by (bit_vector);
}

/// Reading back a written record header finds the byte order and type that
/// were written, with no SRID.
proof fn lemma_dec_enc_header(t: WKBType, order: Endianness, b: Seq<u8>, o: int)
    requires
        0 <= o,
        o + 5 <= b.len(),
        b.subrange(o, o + 5) == header_bytes(t, order),
    ensures
        dec_header(b, o) == Ok::<_, WKBError>(
            HeaderModel { order, wkb_type: t, has_srid: false },
        ),
{
    let h = header_bytes(t, order);
    assert(b[o] == h[0]) by {
        assert(b.subrange(o, o + 5)[0] == h[0]);
    };
    assert(b.subrange(o + 1, o + 5) =~= u32_bytes(t.spec_as_u32(), order)) by {
        assert forall|i: int| 0 <= i < 4 implies b.subrange(o + 1, o + 5)[i] == u32_bytes(
            t.spec_as_u32(),
            order,
        )[i] by {
            assert(b.subrange(o, o + 5)[i + 1] == h[i + 1]);
        };
    };
    lemma_u32_bytes_roundtrip(t.spec_as_u32(), order, b, o + 1);
    crate::common::lemma_type_tag_roundtrip(t);
    assert(t.spec_as_u32() < 4000);
    lemma_tag_no_srid(t.spec_as_u32());
}

/// Reading back a written coordinate finds the axes that were written.
proof fn lemma_dec_enc_coord(c: Seq<u64>, order: Endianness, b: Seq<u8>, o: int)
    requires
        0 <= o,
        o + 8 * c.len() <= b.len(),
        b.subrange(o, o + 8 * c.len()) == coord_bytes(c, order),
    ensures
        coord_at(b, o, c.len() as nat, order) == c,
    decreases c.len(),
{
    lemma_coord_bytes_len(c, order);
    if c.len() > 0 {
        let rest = c.subrange(1, c.len() as int);
        lemma_coord_bytes_len(rest, order);
        lemma_split_at(b, o, crate::bytes::u64_bytes(c[0], order), coord_bytes(rest, order));
        lemma_u64_bytes_roundtrip(c[0], order, b, o);
        lemma_dec_enc_coord(rest, order, b, o + 8);
        assert(coord_at(b, o, c.len() as nat, order) =~= c) by {
            assert forall|i: int| 0 <= i < c.len() implies coord_at(b, o, c.len() as nat, order)[i]
                == c[i] by {
                if i > 0 {
                    assert(coord_at(b, o + 8, rest.len() as nat, order)[i - 1] == rest[i - 1]);
                    assert(u64_at(b, o + 8 + 8 * (i - 1), order) == u64_at(b, o + 8 * i, order));
                }
            };
        };
    } else {
        assert(coord_at(b, o, 0, order) =~= c);
    }
}

/// Reading back a written run of coordinates finds each coordinate at its
/// closed-form offset.
proof fn lemma_dec_enc_coords(
    cs: Seq<Seq<u64>>,
    dim: WKBDimension,
    order: Endianness,
    b: Seq<u8>,
    o: int,
)
    requires
        coords_wf(cs, dim),
        0 <= o,
        o + cs.len() * coord_size(dim) <= b.len(),
        b.subrange(o, o + cs.len() * coord_size(dim)) == coords_bytes(cs, order),
    ensures
        forall|i: int|
            0 <= i < cs.len() ==> coord_at(
                b,
                o + i * coord_size(dim),
                dim.spec_size() as nat,
                order,
            ) == cs[i],
    decreases cs.len(),
{
    lemma_coords_bytes_len(cs, dim, order);
    if cs.len() > 0 {
        let rest = cs.subrange(1, cs.len() as int);
        assert(coords_wf(rest, dim)) by {
            assert(forall|i: int| 0 <= i < rest.len() ==> rest[i] == cs[i + 1]);
        };
        lemma_coords_bytes_len(rest, dim, order);
        lemma_coord_bytes_len(cs[0], order);
        assert(cs.len() * coord_size(dim) == coord_size(dim) + rest.len() * coord_size(dim)) by (
        nonlinear_arith)
            requires
                cs.len() == rest.len() + 1,
        ;
        lemma_split_at(b, o, coord_bytes(cs[0], order), coords_bytes(rest, order));
        lemma_dec_enc_coord(cs[0], order, b, o);
        lemma_dec_enc_coords(rest, dim, order, b, o + coord_size(dim));
        assert forall|i: int| 0 <= i < cs.len() implies coord_at(
            b,
            o + i * coord_size(dim),
            dim.spec_size() as nat,
            order,
        ) == cs[i] by {
            if i > 0 {
                assert((i - 1) * coord_size(dim) + coord_size(dim) == i * coord_size(dim)) by (
                nonlinear_arith);
                assert(coord_at(
                    b,
                    (o + coord_size(dim)) + (i - 1) * coord_size(dim),
                    dim.spec_size() as nat,
                    order,
                ) == rest[i - 1]);
            }
        };
    }
}

/// Reading back a written count-plus-coordinates run (a line string body or
/// a polygon ring) finds the coordinates that were written.
proof fn lemma_dec_enc_counted_coords(
    cs: Seq<Seq<u64>>,
    dim: WKBDimension,
    order: Endianness,
    b: Seq<u8>,
    o: int,
)
    requires
        coords_wf(cs, dim),
        cs.len() <= u32::MAX,
        0 <= o,
        o + 4 + cs.len() * coord_size(dim) <= b.len(),
        b.subrange(o, o + 4 + cs.len() * coord_size(dim)) == counted_coords_bytes(cs, order),
    ensures
        dec_counted_coords(b, o, order, dim) == Ok::<_, WKBError>(
            (cs, o + 4 + cs.len() * coord_size(dim)),
        ),
{
    lemma_coords_bytes_len(cs, dim, order);
    lemma_split_at(b, o, u32_bytes(cs.len() as u32, order), coords_bytes(cs, order));
    lemma_u32_bytes_roundtrip(cs.len() as u32, order, b, o);
    lemma_dec_enc_coords(cs, dim, order, b, o + 4);
    let w = dim.spec_size() as nat;
    let n = u32_at(b, o, order) as int;
    assert(n == cs.len());
    assert(Seq::new(n as nat, |i: int| coord_at(b, o + 4 + i * (8 * w), w, order)) =~= cs) by {
        assert forall|i: int| 0 <= i < cs.len() implies coord_at(b, o + 4 + i * (8 * w), w, order)
            == cs[i] by {
            assert(coord_at(b, (o + 4) + i * coord_size(dim), w, order) == cs[i]);
            assert(i * (8 * w) == i * coord_size(dim));
        };
    };
}

/// Reading back a written point body finds the coordinate that was written
/// — or, for the empty point, the all-NaN sentinel and hence no coordinate.
proof fn lemma_dec_enc_point_body(p: PointModel, order: Endianness, b: Seq<u8>, o: int)
    requires
        p.wf(),
        0 <= o,
        o + 8 * p.dim.spec_size() <= b.len(),
        b.subrange(o, o + 8 * p.dim.spec_size()) == coord_bytes(point_axes(p), order),
    ensures
        dec_point_body(b, o, order, p.dim) == Ok::<_, WKBError>(
            (p, o + 8 * p.dim.spec_size()),
        ),
{
    let w = p.dim.spec_size() as nat;
    let axes = point_axes(p);
    assert(axes.len() == w);
    lemma_dec_enc_coord(axes, order, b, o);
    assert(coord_at(b, o, w, order) == axes);
    match p.coord {
        Some(c) => {
            assert(!all_nan(c));
        },
        None => {
            assert(all_nan(nan_coord(w))) by {
                lemma_nan_bits_is_nan();
                assert(forall|i: int| 0 <= i < w ==> nan_coord(w)[i] == NAN_BITS);
            };
        },
    }
}

/// Reading back a whole written point record finds the point, with the end
/// offset just past it.
proof fn lemma_dec_enc_point_record(p: PointModel, order: Endianness, b: Seq<u8>, o: int)
    requires
        p.wf(),
        0 <= o,
        o + point_size(p.dim) <= b.len(),
        b.subrange(o, o + point_size(p.dim) as int) == enc_point(p, order),
    ensures
        dec_point_record(b, o, p.dim) == Ok::<_, WKBError>((p, o + point_size(p.dim))),
        dec_header(b, o) == Ok::<_, WKBError>(
            HeaderModel { order, wkb_type: WKBType::Point(p.dim), has_srid: false },
        ),
{
    lemma_coord_bytes_len(point_axes(p), order);
    lemma_split_at(
        b,
        o,
        header_bytes(WKBType::Point(p.dim), order),
        coord_bytes(point_axes(p), order),
    );
    lemma_dec_enc_header(WKBType::Point(p.dim), order, b, o);
    lemma_dec_enc_point_body(p, order, b, o + 5);
}

/// Reading back a written run of point records finds the points that were
/// written.
proof fn lemma_dec_enc_point_records(
    ps: Seq<PointModel>,
    dim: WKBDimension,
    order: Endianness,
    b: Seq<u8>,
    o: int,
)
    requires
        forall|i: int| 0 <= i < ps.len() ==> (#[trigger] ps[i]).wf() && ps[i].dim == dim,
        0 <= o,
        o + ps.len() * point_size(dim) <= b.len(),
        b.subrange(o, o + ps.len() * point_size(dim)) == points_bytes(ps, order),
    ensures
        dec_point_records(b, o, dim, ps.len() as nat) == Ok::<_, WKBError>(
            (ps, o + ps.len() * point_size(dim)),
        ),
    decreases ps.len(),
{
    lemma_points_bytes_len(ps, dim, order);
    if ps.len() > 0 {
        let rest = ps.subrange(1, ps.len() as int);
        lemma_points_bytes_len(rest, dim, order);
        lemma_enc_point_len(ps[0], order);
        assert(ps.len() * point_size(dim) == point_size(dim) + rest.len() * point_size(dim)) by (
        nonlinear_arith)
            requires
                ps.len() == rest.len() + 1,
        ;
        lemma_split_at(b, o, enc_point(ps[0], order), points_bytes(rest, order));
        lemma_dec_enc_point_record(ps[0], order, b, o);
        lemma_dec_enc_point_records(rest, dim, order, b, o + point_size(dim));
        assert(seq![ps[0]] + rest =~= ps);
    } else {
        assert(ps =~= Seq::<PointModel>::empty());
    }
}

/// Reading back a written run of rings finds the rings that were written.
proof fn lemma_dec_enc_rings(
    rs: Seq<Seq<Seq<u64>>>,
    dim: WKBDimension,
    order: Endianness,
    b: Seq<u8>,
    o: int,
)
    requires
        forall|i: int|
            0 <= i < rs.len() ==> coords_wf(#[trigger] rs[i], dim) && rs[i].len() <= u32::MAX,
        0 <= o,
        o + rings_size(rs, dim) <= b.len(),
        b.subrange(o, o + rings_size(rs, dim) as int) == rings_bytes(rs, order),
    ensures
        dec_rings(b, o, order, dim, rs.len() as nat) == Ok::<_, WKBError>(
            (rs, o + rings_size(rs, dim)),
        ),
    decreases rs.len(),
{
    lemma_rings_bytes_len(rs, dim, order);
    if rs.len() > 0 {
        let rest = rs.subrange(1, rs.len() as int);
        lemma_rings_bytes_len(rest, dim, order);
        lemma_coords_bytes_len(rs[0], dim, order);
        lemma_split_at(b, o, counted_coords_bytes(rs[0], order), rings_bytes(rest, order));
        lemma_dec_enc_counted_coords(rs[0], dim, order, b, o);
        let head_size = 4 + rs[0].len() * coord_size(dim);
        lemma_dec_enc_rings(rest, dim, order, b, o + head_size);
        assert(seq![rs[0]] + rest =~= rs);
    } else {
        assert(rs =~= Seq::<Seq<Seq<u64>>>::empty());
    }
}

/// Reading back a whole written line string record finds the line string.
proof fn lemma_dec_enc_linestring_record(ls: LineStringModel, order: Endianness, b: Seq<u8>, o: int)
    requires
        ls.wf(),
        0 <= o,
        o + linestring_size(ls) <= b.len(),
        b.subrange(o, o + linestring_size(ls) as int) == enc_linestring(ls, order),
    ensures
        dec_geometry(b, o) == Ok::<_, WKBError>(
            (GeometryModel::LineString(ls), o + linestring_size(ls)),
        ),
{
    lemma_coords_bytes_len(ls.coords, ls.dim, order);
    lemma_split_at(
        b,
        o,
        header_bytes(WKBType::LineString(ls.dim), order),
        counted_coords_bytes(ls.coords, order),
    );
    lemma_dec_enc_header(WKBType::LineString(ls.dim), order, b, o);
    lemma_dec_enc_counted_coords(ls.coords, ls.dim, order, b, o + 5);
}

/// Reading back a whole written polygon record finds the polygon.
proof fn lemma_dec_enc_polygon_record(p: PolygonModel, order: Endianness, b: Seq<u8>, o: int)
    requires
        p.wf(),
        0 <= o,
        o + polygon_size(p) <= b.len(),
        b.subrange(o, o + polygon_size(p) as int) == enc_polygon(p, order),
    ensures
        dec_geometry(b, o) == Ok::<_, WKBError>((GeometryModel::Polygon(p), o + polygon_size(p))),
{
    lemma_rings_bytes_len(p.rings, p.dim, order);
    assert(header_bytes(WKBType::Polygon(p.dim), order) + (u32_bytes(p.rings.len() as u32, order)
        + rings_bytes(p.rings, order)) =~= enc_polygon(p, order));
    lemma_split_at(
        b,
        o,
        header_bytes(WKBType::Polygon(p.dim), order),
        u32_bytes(p.rings.len() as u32, order) + rings_bytes(p.rings, order),
    );
    lemma_dec_enc_header(WKBType::Polygon(p.dim), order, b, o);
    lemma_split_at(
        b,
        o + 5,
        u32_bytes(p.rings.len() as u32, order),
        rings_bytes(p.rings, order),
    );
    lemma_u32_bytes_roundtrip(p.rings.len() as u32, order, b, o + 5);
    lemma_dec_enc_rings(p.rings, p.dim, order, b, o + 9);
}

/// Reading back a whole written multi point record finds the multi point.
proof fn lemma_dec_enc_multipoint_record(
    mp: MultiPointModel,
    order: Endianness,
    b: Seq<u8>,
    o: int,
)
    requires
        GeometryModel::MultiPoint(mp).wf(),
        0 <= o,
        o + multipoint_size(mp) <= b.len(),
        b.subrange(o, o + multipoint_size(mp) as int) == enc_geometry(
            GeometryModel::MultiPoint(mp),
            order,
        ),
    ensures
        dec_geometry(b, o) == Ok::<_, WKBError>(
            (GeometryModel::MultiPoint(mp), o + multipoint_size(mp)),
        ),
{
    lemma_points_bytes_len(mp.points, mp.dim, order);
    assert(header_bytes(WKBType::MultiPoint(mp.dim), order) + (u32_bytes(
        mp.points.len() as u32,
        order,
    ) + points_bytes(mp.points, order)) =~= enc_geometry(GeometryModel::MultiPoint(mp), order));
    lemma_split_at(
        b,
        o,
        header_bytes(WKBType::MultiPoint(mp.dim), order),
        u32_bytes(mp.points.len() as u32, order) + points_bytes(mp.points, order),
    );
    lemma_dec_enc_header(WKBType::MultiPoint(mp.dim), order, b, o);
    lemma_split_at(
        b,
        o + 5,
        u32_bytes(mp.points.len() as u32, order),
        points_bytes(mp.points, order),
    );
    lemma_u32_bytes_roundtrip(mp.points.len() as u32, order, b, o + 5);
    lemma_dec_enc_point_records(mp.points, mp.dim, order, b, o + 9);
}

/// Reading back a whole written multi line string record finds the multi
/// line string.
proof fn lemma_dec_enc_multilinestring_record(
    mls: MultiLineStringModel,
    order: Endianness,
    b: Seq<u8>,
    o: int,
)
    requires
        GeometryModel::MultiLineString(mls).wf(),
        0 <= o,
        o + geometry_size(GeometryModel::MultiLineString(mls)) <= b.len(),
        b.subrange(o, o + geometry_size(GeometryModel::MultiLineString(mls)) as int)
            == enc_geometry(GeometryModel::MultiLineString(mls), order),
    ensures
        dec_geometry(b, o) == Ok::<_, WKBError>(
            (
                GeometryModel::MultiLineString(mls),
                o + geometry_size(GeometryModel::MultiLineString(mls)),
            ),
        ),
{
    lemma_linestrings_bytes_len(mls.line_strings, order);
    assert(header_bytes(WKBType::MultiLineString(mls.dim), order) + (u32_bytes(
        mls.line_strings.len() as u32,
        order,
    ) + linestrings_bytes(mls.line_strings, order)) =~= enc_geometry(
        GeometryModel::MultiLineString(mls),
        order,
    ));
    lemma_split_at(
        b,
        o,
        header_bytes(WKBType::MultiLineString(mls.dim), order),
        u32_bytes(mls.line_strings.len() as u32, order) + linestrings_bytes(
            mls.line_strings,
            order,
        ),
    );
    lemma_dec_enc_header(WKBType::MultiLineString(mls.dim), order, b, o);
    lemma_split_at(
        b,
        o + 5,
        u32_bytes(mls.line_strings.len() as u32, order),
        linestrings_bytes(mls.line_strings, order),
    );
    lemma_u32_bytes_roundtrip(mls.line_strings.len() as u32, order, b, o + 5);
    lemma_dec_enc_linestring_records(mls.line_strings, order, b, o + 9);
}

/// Reading back a whole written multi polygon record finds the multi
/// polygon.
proof fn lemma_dec_enc_multipolygon_record(
    mp: MultiPolygonModel,
    order: Endianness,
    b: Seq<u8>,
    o: int,
)
    requires
        GeometryModel::MultiPolygon(mp).wf(),
        0 <= o,
        o + geometry_size(GeometryModel::MultiPolygon(mp)) <= b.len(),
        b.subrange(o, o + geometry_size(GeometryModel::MultiPolygon(mp)) as int) == enc_geometry(
            GeometryModel::MultiPolygon(mp),
            order,
        ),
    ensures
        dec_geometry(b, o) == Ok::<_, WKBError>(
            (
                GeometryModel::MultiPolygon(mp),
                o + geometry_size(GeometryModel::MultiPolygon(mp)),
            ),
        ),
{
    lemma_polygons_bytes_len(mp.polygons, order);
    assert(header_bytes(WKBType::MultiPolygon(mp.dim), order) + (u32_bytes(
        mp.polygons.len() as u32,
        order,
    ) + polygons_bytes(mp.polygons, order)) =~= enc_geometry(
        GeometryModel::MultiPolygon(mp),
        order,
    ));
    lemma_split_at(
        b,
        o,
        header_bytes(WKBType::MultiPolygon(mp.dim), order),
        u32_bytes(mp.polygons.len() as u32, order) + polygons_bytes(mp.polygons, order),
    );
    lemma_dec_enc_header(WKBType::MultiPolygon(mp.dim), order, b, o);
    lemma_split_at(
        b,
        o + 5,
        u32_bytes(mp.polygons.len() as u32, order),
        polygons_bytes(mp.polygons, order),
    );
    lemma_u32_bytes_roundtrip(mp.polygons.len() as u32, order, b, o + 5);
    lemma_dec_enc_polygon_records(mp.polygons, order, b, o + 9);
}

/// Round-trip for whole records: reading back any well-formed geometry that
/// was written at `o` finds exactly that geometry, consuming exactly its
/// encoded bytes. Holds for both byte orders.
#[verifier::rlimit(100)]
pub proof fn lemma_dec_enc_geometry(g: GeometryModel, order: Endianness, b: Seq<u8>, o: int)
    requires
        g.wf(),
        0 <= o,
        o + geometry_size(g) <= b.len(),
        b.subrange(o, o + geometry_size(g) as int) == enc_geometry(g, order),
    ensures
        dec_geometry(b, o) == Ok::<_, WKBError>((g, o + geometry_size(g))),
    decreases g, 0int,
{
    lemma_enc_geometry_len(g, order);
    match g {
        GeometryModel::Point(p) => {
            lemma_dec_enc_point_record(p, order, b, o);
        },
        GeometryModel::LineString(ls) => {
            lemma_dec_enc_linestring_record(ls, order, b, o);
        },
        GeometryModel::Polygon(p) => {
            lemma_dec_enc_polygon_record(p, order, b, o);
        },
        GeometryModel::MultiPoint(mp) => {
            lemma_dec_enc_multipoint_record(mp, order, b, o);
        },
        GeometryModel::MultiLineString(mls) => {
            lemma_dec_enc_multilinestring_record(mls, order, b, o);
        },
        GeometryModel::MultiPolygon(mp) => {
            lemma_dec_enc_multipolygon_record(mp, order, b, o);
        },
        GeometryModel::GeometryCollection(c) => {
            lemma_members_bytes_len(c.geometries, order);
            assert(header_bytes(WKBType::GeometryCollection(c.dim), order) + (u32_bytes(
                c.geometries.len() as u32,
                order,
            ) + members_bytes(c.geometries, order)) =~= enc_geometry(g, order));
            lemma_split_at(
                b,
                o,
                header_bytes(WKBType::GeometryCollection(c.dim), order),
                u32_bytes(c.geometries.len() as u32, order) + members_bytes(c.geometries, order),
            );
            lemma_dec_enc_header(WKBType::GeometryCollection(c.dim), order, b, o);
            lemma_split_at(
                b,
                o + 5,
                u32_bytes(c.geometries.len() as u32, order),
                members_bytes(c.geometries, order),
            );
            lemma_u32_bytes_roundtrip(c.geometries.len() as u32, order, b, o + 5);
            lemma_dec_enc_members(c.geometries, order, b, o + 9);
        },
    }
}

/// Reading back a written run of full geometry records finds the members
/// that were written.
proof fn lemma_dec_enc_members(ms: Seq<GeometryModel>, order: Endianness, b: Seq<u8>, o: int)
    requires
        forall|i: int| 0 <= i < ms.len() ==> (#[trigger] ms[i]).wf(),
        0 <= o,
        o + members_size(ms) <= b.len(),
        b.subrange(o, o + members_size(ms) as int) == members_bytes(ms, order),
    ensures
        dec_members(b, o, ms.len() as nat) == Ok::<_, WKBError>((ms, o + members_size(ms))),
    decreases ms, 1int,
{
    lemma_members_bytes_len(ms, order);
    if ms.len() > 0 {
        let rest = ms.subrange(1, ms.len() as int);
        lemma_members_bytes_len(rest, order);
        lemma_enc_geometry_len(ms[0], order);
        lemma_split_at(b, o, enc_geometry(ms[0], order), members_bytes(rest, order));
        lemma_dec_enc_geometry(ms[0], order, b, o);
        lemma_dec_enc_members(rest, order, b, o + geometry_size(ms[0]));
        assert(seq![ms[0]] + rest =~= ms);
    } else {
        assert(ms =~= Seq::<GeometryModel>::empty());
    }
}

/// Reading back a written run of full line string records finds the line
/// strings that were written.
proof fn lemma_dec_enc_linestring_records(
    ms: Seq<LineStringModel>,
    order: Endianness,
    b: Seq<u8>,
    o: int,
)
    requires
        forall|i: int| 0 <= i < ms.len() ==> (#[trigger] ms[i]).wf(),
        0 <= o,
        o + linestrings_size(ms) <= b.len(),
        b.subrange(o, o + linestrings_size(ms) as int) == linestrings_bytes(ms, order),
    ensures
        dec_linestring_records(b, o, ms.len() as nat) == Ok::<_, WKBError>(
            (ms, o + linestrings_size(ms)),
        ),
    decreases ms.len(),
{
    lemma_linestrings_bytes_len(ms, order);
    if ms.len() > 0 {
        let rest = ms.subrange(1, ms.len() as int);
        lemma_linestrings_bytes_len(rest, order);
        lemma_enc_linestring_len(ms[0], order);
        lemma_split_at(b, o, enc_linestring(ms[0], order), linestrings_bytes(rest, order));
        lemma_dec_enc_linestring_record(ms[0], order, b, o);
        lemma_dec_enc_linestring_records(rest, order, b, o + linestring_size(ms[0]));
        assert(seq![ms[0]] + rest =~= ms);
    } else {
        assert(ms =~= Seq::<LineStringModel>::empty());
    }
}

/// Reading back a written run of full polygon records finds the polygons
/// that were written.
proof fn lemma_dec_enc_polygon_records(
    ms: Seq<PolygonModel>,
    order: Endianness,
    b: Seq<u8>,
    o: int,
)
    requires
        forall|i: int| 0 <= i < ms.len() ==> (#[trigger] ms[i]).wf(),
        0 <= o,
        o + polygons_size(ms) <= b.len(),
        b.subrange(o, o + polygons_size(ms) as int) == polygons_bytes(ms, order),
    ensures
        dec_polygon_records(b, o, ms.len() as nat) == Ok::<_, WKBError>(
            (ms, o + polygons_size(ms)),
        ),
    decreases ms.len(),
{
    lemma_polygons_bytes_len(ms, order);
    if ms.len() > 0 {
        let rest = ms.subrange(1, ms.len() as int);
        lemma_polygons_bytes_len(rest, order);
        lemma_enc_polygon_len(ms[0], order);
        lemma_split_at(b, o, enc_polygon(ms[0], order), polygons_bytes(rest, order));
        lemma_dec_enc_polygon_record(ms[0], order, b, o);
        lemma_dec_enc_polygon_records(rest, order, b, o + polygon_size(ms[0]));
        assert(seq![ms[0]] + rest =~= ms);
    } else {
        assert(ms =~= Seq::<PolygonModel>::empty());
    }
}

/// Round-trip: decoding the encoding of any well-formed geometry gives the
/// geometry back, for either byte order, consuming the whole buffer.
pub proof fn lemma_roundtrip(g: GeometryModel, order: Endianness)
    requires
        g.wf(),
    ensures
        dec_geometry(enc_geometry(g, order), 0) == Ok::<_, WKBError>(
            (g, enc_geometry(g, order).len() as int),
        ),
{
    let b = enc_geometry(g, order);
    lemma_enc_geometry_len(g, order);
    assert(b.subrange(0, b.len() as int) =~= b);
    lemma_dec_enc_geometry(g, order, b, 0);
}

/// Empty-point sentinel: encoding a point with no coordinate yields the
/// record header followed by `width` NaN doubles, and decoding those bytes
/// yields a point with no coordinate.
#[verifier::rlimit(60)]
pub proof fn lemma_empty_point_sentinel(dim: WKBDimension, order: Endianness)
    ensures
        ({
            let p = PointModel { dim, coord: None };
            let b = enc_point(p, order);
            &&& b.len() == 5 + 8 * dim.spec_size()
            &&& forall|i: int|
                0 <= i < dim.spec_size() ==> is_nan_bits(#[trigger] u64_at(b, 5 + 8 * i, order))
            &&& dec_geometry(b, 0) == Ok::<_, WKBError>((GeometryModel::Point(p), b.len() as int))
        }),
{
    let p = PointModel { dim, coord: None };
    let b = enc_point(p, order);
    let w = dim.spec_size() as nat;
    lemma_enc_point_len(p, order);
    assert(enc_geometry(GeometryModel::Point(p), order) == b);
    lemma_roundtrip(GeometryModel::Point(p), order);
    lemma_coord_bytes_len(nan_coord(w), order);
    assert(b.subrange(5, 5 + 8 * w as int) =~= coord_bytes(nan_coord(w), order)) by {
        assert(b.subrange(0, b.len() as int) =~= b);
        lemma_split_at(b, 0, header_bytes(WKBType::Point(dim), order), coord_bytes(
            nan_coord(w),
            order,
        ));
    };
    lemma_dec_enc_coord(nan_coord(w), order, b, 5);
    lemma_nan_bits_is_nan();
    assert forall|i: int| 0 <= i < dim.spec_size() implies is_nan_bits(#[trigger] u64_at(
        b,
        5 + 8 * i,
        order,
    )) by {
        assert(coord_at(b, 5, w, order)[i] == nan_coord(w)[i]);
        assert(nan_coord(w)[i] == NAN_BITS);
    };
}

/// Size agreement: the number of bytes the encoder produces for a
/// well-formed geometry is exactly its computed size, in either byte order.
pub proof fn lemma_size_agreement(g: GeometryModel, order: Endianness)
    requires
        g.wf(),
    ensures
        enc_geometry(g, order).len() == geometry_size(g),
{
    lemma_enc_geometry_len(g, order);
}


/// The byte-order byte of any record header is 0 or 1.
proof fn lemma_header_first_byte(t: WKBType, order: Endianness)
    ensures
        header_bytes(t, order)[0] == order.spec_as_u8(),
        order.spec_as_u8() == 0 || order.spec_as_u8() == 1,
{
}

/// A truncated count-plus-coordinates run decodes to `TruncatedBuffer`.
proof fn lemma_trunc_counted_coords(
    cs: Seq<Seq<u64>>,
    dim: WKBDimension,
    order: Endianness,
    b: Seq<u8>,
    o: int,
)
    requires
        coords_wf(cs, dim),
        cs.len() <= u32::MAX,
        0 <= o <= b.len(),
        b.len() < o + 4 + cs.len() * coord_size(dim),
        forall|i: int| #![trigger b[o + i]]
            0 <= i < b.len() - o ==> b[o + i] == counted_coords_bytes(cs, order)[i],
    ensures
        dec_counted_coords(b, o, order, dim) == Err::<(Seq<Seq<u64>>, int), _>(
            WKBError::TruncatedBuffer,
        ),
{
    let avail = b.len() - o;
    lemma_coords_bytes_len(cs, dim, order);
    if avail < 4 {
        // the count itself cannot be read
    } else {
        assert(b.subrange(o, o + 4) =~= u32_bytes(cs.len() as u32, order)) by {
            assert forall|i: int| #![trigger b.subrange(o, o + 4)[i]] 0 <= i < 4 implies b.subrange(
                o,
                o + 4,
            )[i] == u32_bytes(cs.len() as u32, order)[i] by {
                assert(b[o + i] == counted_coords_bytes(cs, order)[i]);
            };
        };
        lemma_u32_bytes_roundtrip(cs.len() as u32, order, b, o);
    }
}

/// A truncated run of rings decodes to `TruncatedBuffer`: complete leading
/// rings parse, and the ring crossing the end of the buffer fails.
proof fn lemma_trunc_rings(
    rs: Seq<Seq<Seq<u64>>>,
    dim: WKBDimension,
    order: Endianness,
    b: Seq<u8>,
    o: int,
)
    requires
        forall|i: int|
            0 <= i < rs.len() ==> coords_wf(#[trigger] rs[i], dim) && rs[i].len() <= u32::MAX,
        0 <= o <= b.len(),
        b.len() < o + rings_size(rs, dim),
        forall|i: int| #![trigger b[o + i]]
            0 <= i < b.len() - o ==> b[o + i] == rings_bytes(rs, order)[i],
    ensures
        dec_rings(b, o, order, dim, rs.len() as nat) == Err::<(Seq<Seq<Seq<u64>>>, int), _>(
            WKBError::TruncatedBuffer,
        ),
    decreases rs.len(),
{
    lemma_rings_bytes_len(rs, dim, order);
    let head_size = 4 + rs[0].len() * coord_size(dim);
    let rest = rs.subrange(1, rs.len() as int);
    lemma_rings_bytes_len(rest, dim, order);
    lemma_coords_bytes_len(rs[0], dim, order);
    if o + head_size <= b.len() {
        // the first ring is complete: it parses, and the boundary falls in
        // the remaining rings
        assert(b.subrange(o, o + head_size) =~= counted_coords_bytes(rs[0], order)) by {
            assert forall|i: int| #![trigger b.subrange(o, o + head_size)[i]] 0 <= i < head_size implies b.subrange(
                o,
                o + head_size,
            )[i] == counted_coords_bytes(rs[0], order)[i] by {
                assert(b[o + i] == rings_bytes(rs, order)[i]);
            };
        };
        lemma_dec_enc_counted_coords(rs[0], dim, order, b, o);
        assert forall|i: int| #![trigger b[o + head_size + i]] 0 <= i < b.len() - (o + head_size) implies b[o
            + head_size + i] == rings_bytes(rest, order)[i] by {
            let j = head_size + i;
            assert(b[o + j] == rings_bytes(rs, order)[j]);
        };
        lemma_trunc_rings(rest, dim, order, b, o + head_size);
    } else {
        // the boundary falls inside the first ring
        assert forall|i: int| #![trigger b[o + i]] 0 <= i < b.len() - o implies b[o + i]
            == counted_coords_bytes(rs[0], order)[i] by {
            assert(b[o + i] == rings_bytes(rs, order)[i]);
        };
        lemma_trunc_counted_coords(rs[0], dim, order, b, o);
    }
}

/// A truncated point record decodes to `TruncatedBuffer`.
proof fn lemma_trunc_point_record(pm: PointModel, order: Endianness, b: Seq<u8>, o: int)
    requires
        pm.wf(),
        0 <= o <= b.len(),
        b.len() < o + point_size(pm.dim),
        forall|i: int| #![trigger b[o + i]]
            0 <= i < b.len() - o ==> b[o + i] == enc_point(pm, order)[i],
    ensures
        dec_point_record(b, o, pm.dim) == Err::<(PointModel, int), _>(WKBError::TruncatedBuffer),
        dec_geometry(b, o) == Err::<(GeometryModel, int), _>(WKBError::TruncatedBuffer),
    decreases 0int,
{
    let avail = b.len() - o;
    lemma_enc_point_len(pm, order);
    lemma_header_first_byte(WKBType::Point(pm.dim), order);
    if avail < 1 {
    } else {
        assert(b[o + 0] == enc_point(pm, order)[0]);
        assert(b[o] == enc_point(pm, order)[0]);
        if avail < 5 {
        } else {
            assert(b.subrange(o, o + 5) =~= header_bytes(WKBType::Point(pm.dim), order)) by {
                assert forall|i: int| #![trigger b.subrange(o, o + 5)[i]] 0 <= i < 5 implies b.subrange(
                    o,
                    o + 5,
                )[i] == header_bytes(
                    WKBType::Point(pm.dim),
                    order,
                )[i] by {
                    assert(b[o + i] == enc_point(pm, order)[i]);
                };
            };
            lemma_dec_enc_header(WKBType::Point(pm.dim), order, b, o);
        }
    }
}

/// A truncated run of point records decodes to `TruncatedBuffer`.
proof fn lemma_trunc_point_records(
    ps: Seq<PointModel>,
    dim: WKBDimension,
    order: Endianness,
    b: Seq<u8>,
    o: int,
)
    requires
        forall|i: int| 0 <= i < ps.len() ==> (#[trigger] ps[i]).wf() && ps[i].dim == dim,
        0 <= o <= b.len(),
        b.len() < o + ps.len() * point_size(dim),
        forall|i: int| #![trigger b[o + i]]
            0 <= i < b.len() - o ==> b[o + i] == points_bytes(ps, order)[i],
    ensures
        dec_point_records(b, o, dim, ps.len() as nat) == Err::<(Seq<PointModel>, int), _>(
            WKBError::TruncatedBuffer,
        ),
    decreases ps.len(),
{
    lemma_points_bytes_len(ps, dim, order);
    assert(ps.len() > 0) by {
        if ps.len() == 0 {
            assert(ps.len() * point_size(dim) == 0);
        }
    };
    let rest = ps.subrange(1, ps.len() as int);
    lemma_points_bytes_len(rest, dim, order);
    lemma_enc_point_len(ps[0], order);
    assert(ps.len() * point_size(dim) == point_size(dim) + rest.len() * point_size(dim)) by (
    nonlinear_arith)
        requires
            ps.len() == rest.len() + 1,
    ;
    let head_size = point_size(dim) as int;
    if o + head_size <= b.len() {
        assert(b.subrange(o, o + head_size) =~= enc_point(ps[0], order)) by {
            assert forall|i: int| #![trigger b.subrange(o, o + head_size)[i]] 0 <= i < head_size implies b.subrange(
                o,
                o + head_size,
            )[i] == enc_point(ps[0], order)[i] by {
                assert(b[o + i] == points_bytes(ps, order)[i]);
            };
        };
        lemma_dec_enc_point_record(ps[0], order, b, o);
        assert forall|i: int| #![trigger b[o + head_size + i]] 0 <= i < b.len() - (o + head_size) implies b[o
            + head_size + i] == points_bytes(rest, order)[i] by {
            let j = head_size + i;
            assert(b[o + j] == points_bytes(ps, order)[j]);
        };
        lemma_trunc_point_records(rest, dim, order, b, o + head_size);
    } else {
        assert forall|i: int| #![trigger b[o + i]] 0 <= i < b.len() - o implies b[o + i] == enc_point(
            ps[0],
            order,
        )[i] by {
            assert(b[o + i] == points_bytes(ps, order)[i]);
        };
        lemma_trunc_point_record(ps[0], order, b, o);
    }
}

/// A truncated line string record decodes to `TruncatedBuffer`.
proof fn lemma_trunc_linestring_record(
    ls: LineStringModel,
    order: Endianness,
    b: Seq<u8>,
    o: int,
)
    requires
        ls.wf(),
        0 <= o <= b.len(),
        b.len() < o + linestring_size(ls),
        forall|i: int| #![trigger b[o + i]]
            0 <= i < b.len() - o ==> b[o + i] == enc_linestring(ls, order)[i],
    ensures
        dec_geometry(b, o) == Err::<(GeometryModel, int), _>(WKBError::TruncatedBuffer),
{
    let avail = b.len() - o;
    lemma_enc_linestring_len(ls, order);
    lemma_coords_bytes_len(ls.coords, ls.dim, order);
    lemma_header_first_byte(WKBType::LineString(ls.dim), order);
    if avail < 1 {
    } else {
        assert(b[o + 0] == enc_linestring(ls, order)[0]);
        assert(b[o] == enc_linestring(ls, order)[0]);
        if avail < 5 {
        } else {
            assert(b.subrange(o, o + 5) =~= header_bytes(WKBType::LineString(ls.dim), order)) by {
                assert forall|i: int| #![trigger b.subrange(o, o + 5)[i]] 0 <= i < 5 implies b.subrange(
                    o,
                    o + 5,
                )[i] == header_bytes(
                    WKBType::LineString(ls.dim),
                    order,
                )[i] by {
                    assert(b[o + i] == enc_linestring(ls, order)[i]);
                };
            };
            lemma_dec_enc_header(WKBType::LineString(ls.dim), order, b, o);
            assert forall|i: int| #![trigger b[o + 5 + i]] 0 <= i < b.len() - (o + 5) implies b[o + 5 + i]
                == counted_coords_bytes(ls.coords, order)[i] by {
                let j = 5 + i;
                assert(b[o + j] == enc_linestring(ls, order)[j]);
            };
            lemma_trunc_counted_coords(ls.coords, ls.dim, order, b, o + 5);
        }
    }
}

/// A truncated polygon record decodes to `TruncatedBuffer`.
proof fn lemma_trunc_polygon_record(p: PolygonModel, order: Endianness, b: Seq<u8>, o: int)
    requires
        p.wf(),
        0 <= o <= b.len(),
        b.len() < o + polygon_size(p),
        forall|i: int| #![trigger b[o + i]]
            0 <= i < b.len() - o ==> b[o + i] == enc_polygon(p, order)[i],
    ensures
        dec_geometry(b, o) == Err::<(GeometryModel, int), _>(WKBError::TruncatedBuffer),
{
    let avail = b.len() - o;
    lemma_enc_polygon_len(p, order);
    lemma_rings_bytes_len(p.rings, p.dim, order);
    lemma_header_first_byte(WKBType::Polygon(p.dim), order);
    if avail < 1 {
    } else {
        assert(b[o + 0] == enc_polygon(p, order)[0]);
        assert(b[o] == enc_polygon(p, order)[0]);
        if avail < 5 {
        } else {
            assert(b.subrange(o, o + 5) =~= header_bytes(WKBType::Polygon(p.dim), order)) by {
                assert forall|i: int| #![trigger b.subrange(o, o + 5)[i]] 0 <= i < 5 implies b.subrange(
                    o,
                    o + 5,
                )[i] == header_bytes(
                    WKBType::Polygon(p.dim),
                    order,
                )[i] by {
                    assert(b[o + i] == enc_polygon(p, order)[i]);
                };
            };
            lemma_dec_enc_header(WKBType::Polygon(p.dim), order, b, o);
            if avail < 9 {
            } else {
                assert(b.subrange(o + 5, o + 9) =~= u32_bytes(p.rings.len() as u32, order)) by {
                    assert forall|i: int| #![trigger b.subrange(o + 5, o + 9)[i]] 0 <= i < 4 implies b.subrange(
                        o + 5,
                        o + 9,
                    )[i] == u32_bytes(p.rings.len() as u32, order)[i] by {
                        let j = 5 + i;
                        assert(b[o + j] == enc_polygon(p, order)[j]);
                    };
                };
                lemma_u32_bytes_roundtrip(p.rings.len() as u32, order, b, o + 5);
                assert forall|i: int| #![trigger b[o + 9 + i]] 0 <= i < b.len() - (o + 9) implies b[o + 9
                    + i] == rings_bytes(p.rings, order)[i] by {
                    let j = 9 + i;
                    assert(b[o + j] == enc_polygon(p, order)[j]);
                };
                lemma_trunc_rings(p.rings, p.dim, order, b, o + 9);
            }
        }
    }
}


/// A truncated multi point record decodes to `TruncatedBuffer`.
proof fn lemma_trunc_multipoint_record(
    mp: MultiPointModel,
    order: Endianness,
    b: Seq<u8>,
    o: int,
)
    requires
        GeometryModel::MultiPoint(mp).wf(),
        0 <= o <= b.len(),
        b.len() < o + multipoint_size(mp),
        forall|i: int| #![trigger b[o + i]]
            0 <= i < b.len() - o ==> b[o + i] == enc_geometry(GeometryModel::MultiPoint(mp), order)[i],
    ensures
        dec_geometry(b, o) == Err::<(GeometryModel, int), _>(WKBError::TruncatedBuffer),
{
    let g = GeometryModel::MultiPoint(mp);
    let avail = b.len() - o;
    lemma_enc_geometry_len(g, order);
    lemma_points_bytes_len(mp.points, mp.dim, order);
    lemma_header_first_byte(WKBType::MultiPoint(mp.dim), order);
    if avail < 1 {
    } else {
        assert(b[o + 0] == enc_geometry(g, order)[0]);
        assert(b[o] == enc_geometry(g, order)[0]);
        if avail < 5 {
        } else {
            assert(b.subrange(o, o + 5) =~= header_bytes(WKBType::MultiPoint(mp.dim), order)) by {
                assert forall|i: int| #![trigger b.subrange(o, o + 5)[i]] 0 <= i < 5 implies b.subrange(
                    o,
                    o + 5,
                )[i] == header_bytes(WKBType::MultiPoint(mp.dim), order)[i] by {
                    assert(b[o + i] == enc_geometry(g, order)[i]);
                };
            };
            lemma_dec_enc_header(WKBType::MultiPoint(mp.dim), order, b, o);
            if avail < 9 {
            } else {
                assert(b.subrange(o + 5, o + 9) =~= u32_bytes(mp.points.len() as u32, order)) by {
                    assert forall|i: int| #![trigger b.subrange(o + 5, o + 9)[i]] 0 <= i < 4 implies b.subrange(
                        o + 5,
                        o + 9,
                    )[i] == u32_bytes(mp.points.len() as u32, order)[i] by {
                        let j = 5 + i;
                        assert(b[o + j] == enc_geometry(g, order)[j]);
                    };
                };
                lemma_u32_bytes_roundtrip(mp.points.len() as u32, order, b, o + 5);
                assert forall|i: int| #![trigger b[o + 9 + i]] 0 <= i < b.len() - (o + 9) implies b[o + 9
                    + i] == points_bytes(mp.points, order)[i] by {
                    let j = 9 + i;
                    assert(b[o + j] == enc_geometry(g, order)[j]);
                };
                lemma_trunc_point_records(mp.points, mp.dim, order, b, o + 9);
            }
        }
    }
}

/// A truncated run of full line string records decodes to
/// `TruncatedBuffer`: complete leading members parse, and the member
/// crossing the end of the buffer fails.
proof fn lemma_trunc_linestring_records(
    ms: Seq<LineStringModel>,
    order: Endianness,
    b: Seq<u8>,
    o: int,
)
    requires
        forall|i: int| 0 <= i < ms.len() ==> (#[trigger] ms[i]).wf(),
        0 <= o <= b.len(),
        b.len() < o + linestrings_size(ms),
        forall|i: int| #![trigger b[o + i]]
            0 <= i < b.len() - o ==> b[o + i] == linestrings_bytes(ms, order)[i],
    ensures
        dec_linestring_records(b, o, ms.len() as nat) == Err::<(Seq<LineStringModel>, int), _>(
            WKBError::TruncatedBuffer,
        ),
    decreases ms.len(),
{
    lemma_linestrings_bytes_len(ms, order);
    assert(ms.len() > 0);
    let rest = ms.subrange(1, ms.len() as int);
    lemma_linestrings_bytes_len(rest, order);
    lemma_enc_linestring_len(ms[0], order);
    let head_size = linestring_size(ms[0]) as int;
    if o + head_size <= b.len() {
        assert(b.subrange(o, o + head_size) =~= enc_linestring(ms[0], order)) by {
            assert forall|i: int| #![trigger b.subrange(o, o + head_size)[i]] 0 <= i < head_size implies b.subrange(
                o,
                o + head_size,
            )[i] == enc_linestring(ms[0], order)[i] by {
                assert(b[o + i] == linestrings_bytes(ms, order)[i]);
            };
        };
        lemma_dec_enc_linestring_record(ms[0], order, b, o);
        assert forall|i: int| #![trigger b[o + head_size + i]] 0 <= i < b.len() - (o + head_size) implies b[o
            + head_size + i] == linestrings_bytes(rest, order)[i] by {
            let j = head_size + i;
            assert(b[o + j] == linestrings_bytes(ms, order)[j]);
        };
        lemma_trunc_linestring_records(rest, order, b, o + head_size);
    } else {
        assert forall|i: int| #![trigger b[o + i]] 0 <= i < b.len() - o implies b[o + i] == enc_linestring(
            ms[0],
            order,
        )[i] by {
            assert(b[o + i] == linestrings_bytes(ms, order)[i]);
        };
        lemma_trunc_linestring_record(ms[0], order, b, o);
    }
}

/// A truncated run of full polygon records decodes to `TruncatedBuffer`.
proof fn lemma_trunc_polygon_records(ms: Seq<PolygonModel>, order: Endianness, b: Seq<u8>, o: int)
    requires
        forall|i: int| 0 <= i < ms.len() ==> (#[trigger] ms[i]).wf(),
        0 <= o <= b.len(),
        b.len() < o + polygons_size(ms),
        forall|i: int| #![trigger b[o + i]]
            0 <= i < b.len() - o ==> b[o + i] == polygons_bytes(ms, order)[i],
    ensures
        dec_polygon_records(b, o, ms.len() as nat) == Err::<(Seq<PolygonModel>, int), _>(
            WKBError::TruncatedBuffer,
        ),
    decreases ms.len(),
{
    lemma_polygons_bytes_len(ms, order);
    assert(ms.len() > 0);
    let rest = ms.subrange(1, ms.len() as int);
    lemma_polygons_bytes_len(rest, order);
    lemma_enc_polygon_len(ms[0], order);
    let head_size = polygon_size(ms[0]) as int;
    if o + head_size <= b.len() {
        assert(b.subrange(o, o + head_size) =~= enc_polygon(ms[0], order)) by {
            assert forall|i: int| #![trigger b.subrange(o, o + head_size)[i]] 0 <= i < head_size implies b.subrange(
                o,
                o + head_size,
            )[i] == enc_polygon(ms[0], order)[i] by {
                assert(b[o + i] == polygons_bytes(ms, order)[i]);
            };
        };
        lemma_dec_enc_polygon_record(ms[0], order, b, o);
        assert forall|i: int| #![trigger b[o + head_size + i]] 0 <= i < b.len() - (o + head_size) implies b[o
            + head_size + i] == polygons_bytes(rest, order)[i] by {
            let j = head_size + i;
            assert(b[o + j] == polygons_bytes(ms, order)[j]);
        };
        lemma_trunc_polygon_records(rest, order, b, o + head_size);
    } else {
        assert forall|i: int| #![trigger b[o + i]] 0 <= i < b.len() - o implies b[o + i] == enc_polygon(
            ms[0],
            order,
        )[i] by {
            assert(b[o + i] == polygons_bytes(ms, order)[i]);
        };
        lemma_trunc_polygon_record(ms[0], order, b, o);
    }
}

/// A truncated multi line string record decodes to `TruncatedBuffer`.
proof fn lemma_trunc_mls_record(
    mls: MultiLineStringModel,
    order: Endianness,
    b: Seq<u8>,
    o: int,
)
    requires
        GeometryModel::MultiLineString(mls).wf(),
        0 <= o <= b.len(),
        b.len() < o + geometry_size(GeometryModel::MultiLineString(mls)),
        forall|i: int| #![trigger b[o + i]]
            0 <= i < b.len() - o ==> b[o + i] == enc_geometry(
                GeometryModel::MultiLineString(mls),
                order,
            )[i],
    ensures
        dec_geometry(b, o) == Err::<(GeometryModel, int), _>(WKBError::TruncatedBuffer),
{
    let g = GeometryModel::MultiLineString(mls);
    let avail = b.len() - o;
    lemma_enc_geometry_len(g, order);
    lemma_linestrings_bytes_len(mls.line_strings, order);
    lemma_header_first_byte(WKBType::MultiLineString(mls.dim), order);
    if avail < 1 {
    } else {
        assert(b[o + 0] == enc_geometry(g, order)[0]);
        assert(b[o] == enc_geometry(g, order)[0]);
        if avail < 5 {
        } else {
            assert(b.subrange(o, o + 5) =~= header_bytes(WKBType::MultiLineString(mls.dim), order))
                by {
                assert forall|i: int| #![trigger b.subrange(o, o + 5)[i]] 0 <= i < 5 implies b.subrange(
                    o,
                    o + 5,
                )[i] == header_bytes(WKBType::MultiLineString(mls.dim), order)[i] by {
                    assert(b[o + i] == enc_geometry(g, order)[i]);
                };
            };
            lemma_dec_enc_header(WKBType::MultiLineString(mls.dim), order, b, o);
            if avail < 9 {
            } else {
                assert(b.subrange(o + 5, o + 9) =~= u32_bytes(
                    mls.line_strings.len() as u32,
                    order,
                )) by {
                    assert forall|i: int| #![trigger b.subrange(o + 5, o + 9)[i]] 0 <= i < 4 implies b.subrange(
                        o + 5,
                        o + 9,
                    )[i] == u32_bytes(mls.line_strings.len() as u32, order)[i] by {
                        let j = 5 + i;
                        assert(b[o + j] == enc_geometry(g, order)[j]);
                    };
                };
                lemma_u32_bytes_roundtrip(mls.line_strings.len() as u32, order, b, o + 5);
                assert forall|i: int| #![trigger b[o + 9 + i]] 0 <= i < b.len() - (o + 9) implies b[o + 9
                    + i] == linestrings_bytes(mls.line_strings, order)[i] by {
                    let j = 9 + i;
                    assert(b[o + j] == enc_geometry(g, order)[j]);
                };
                lemma_trunc_linestring_records(mls.line_strings, order, b, o + 9);
            }
        }
    }
}

/// A truncated multi polygon record decodes to `TruncatedBuffer`.
proof fn lemma_trunc_mpoly_record(mp: MultiPolygonModel, order: Endianness, b: Seq<u8>, o: int)
    requires
        GeometryModel::MultiPolygon(mp).wf(),
        0 <= o <= b.len(),
        b.len() < o + geometry_size(GeometryModel::MultiPolygon(mp)),
        forall|i: int| #![trigger b[o + i]]
            0 <= i < b.len() - o ==> b[o + i] == enc_geometry(
                GeometryModel::MultiPolygon(mp),
                order,
            )[i],
    ensures
        dec_geometry(b, o) == Err::<(GeometryModel, int), _>(WKBError::TruncatedBuffer),
{
    let g = GeometryModel::MultiPolygon(mp);
    let avail = b.len() - o;
    lemma_enc_geometry_len(g, order);
    lemma_polygons_bytes_len(mp.polygons, order);
    lemma_header_first_byte(WKBType::MultiPolygon(mp.dim), order);
    if avail < 1 {
    } else {
        assert(b[o + 0] == enc_geometry(g, order)[0]);
        assert(b[o] == enc_geometry(g, order)[0]);
        if avail < 5 {
        } else {
            assert(b.subrange(o, o + 5) =~= header_bytes(WKBType::MultiPolygon(mp.dim), order))
                by {
                assert forall|i: int| #![trigger b.subrange(o, o + 5)[i]] 0 <= i < 5 implies b.subrange(
                    o,
                    o + 5,
                )[i] == header_bytes(WKBType::MultiPolygon(mp.dim), order)[i] by {
                    assert(b[o + i] == enc_geometry(g, order)[i]);
                };
            };
            lemma_dec_enc_header(WKBType::MultiPolygon(mp.dim), order, b, o);
            if avail < 9 {
            } else {
                assert(b.subrange(o + 5, o + 9) =~= u32_bytes(mp.polygons.len() as u32, order))
                    by {
                    assert forall|i: int| #![trigger b.subrange(o + 5, o + 9)[i]] 0 <= i < 4 implies b.subrange(
                        o + 5,
                        o + 9,
                    )[i] == u32_bytes(mp.polygons.len() as u32, order)[i] by {
                        let j = 5 + i;
                        assert(b[o + j] == enc_geometry(g, order)[j]);
                    };
                };
                lemma_u32_bytes_roundtrip(mp.polygons.len() as u32, order, b, o + 5);
                assert forall|i: int| #![trigger b[o + 9 + i]] 0 <= i < b.len() - (o + 9) implies b[o + 9
                    + i] == polygons_bytes(mp.polygons, order)[i] by {
                    let j = 9 + i;
                    assert(b[o + j] == enc_geometry(g, order)[j]);
                };
                lemma_trunc_polygon_records(mp.polygons, order, b, o + 9);
            }
        }
    }
}

/// Truncation, for whole records: a buffer that ends before the record the
/// encoder wrote is complete decodes to `TruncatedBuffer` — never to a
/// different error, a wrong geometry, or an out-of-bounds access.
pub proof fn lemma_trunc_geometry(g: GeometryModel, order: Endianness, b: Seq<u8>, o: int)
    requires
        g.wf(),
        0 <= o <= b.len(),
        b.len() < o + geometry_size(g),
        forall|i: int| #![trigger b[o + i]]
            0 <= i < b.len() - o ==> b[o + i] == enc_geometry(g, order)[i],
    ensures
        dec_geometry(b, o) == Err::<(GeometryModel, int), _>(WKBError::TruncatedBuffer),
    decreases g, 0int,
{
    let avail = b.len() - o;
    lemma_enc_geometry_len(g, order);
    match g {
        GeometryModel::Point(p) => {
            lemma_trunc_point_record(p, order, b, o);
        },
        GeometryModel::LineString(ls) => {
            lemma_trunc_linestring_record(ls, order, b, o);
        },
        GeometryModel::Polygon(p) => {
            lemma_trunc_polygon_record(p, order, b, o);
        },
        GeometryModel::MultiPoint(mp) => {
            lemma_trunc_multipoint_record(mp, order, b, o);
        },
        GeometryModel::MultiLineString(mls) => {
            lemma_trunc_mls_record(mls, order, b, o);
        },
        GeometryModel::MultiPolygon(mp) => {
            lemma_trunc_mpoly_record(mp, order, b, o);
        },
        GeometryModel::GeometryCollection(c) => {
            lemma_members_bytes_len(c.geometries, order);
            lemma_header_first_byte(WKBType::GeometryCollection(c.dim), order);
            if avail < 1 {
            } else {
                assert(b[o + 0] == enc_geometry(g, order)[0]);
                assert(b[o] == enc_geometry(g, order)[0]);
                if avail < 5 {
                } else {
                    assert(b.subrange(o, o + 5) =~= header_bytes(
                        WKBType::GeometryCollection(c.dim),
                        order,
                    )) by {
                        assert forall|i: int| #![trigger b.subrange(o, o + 5)[i]] 0 <= i < 5 implies b.subrange(
                            o,
                            o + 5,
                        )[i] == header_bytes(WKBType::GeometryCollection(c.dim), order)[i] by {
                            assert(b[o + i] == enc_geometry(g, order)[i]);
                        };
                    };
                    lemma_dec_enc_header(WKBType::GeometryCollection(c.dim), order, b, o);
                    if avail < 9 {
                    } else {
                        assert(b.subrange(o + 5, o + 9) =~= u32_bytes(
                            c.geometries.len() as u32,
                            order,
                        )) by {
                            assert forall|i: int| #![trigger b.subrange(o + 5, o + 9)[i]] 0 <= i < 4 implies b.subrange(
                                o + 5,
                                o + 9,
                            )[i] == u32_bytes(c.geometries.len() as u32, order)[i] by {
                                let j = 5 + i;
                                assert(b[o + j] == enc_geometry(g, order)[j]);
                            };
                        };
                        lemma_u32_bytes_roundtrip(c.geometries.len() as u32, order, b, o + 5);
                        assert forall|i: int| #![trigger b[o + 9 + i]] 0 <= i < b.len() - (o + 9) implies b[o
                            + 9 + i] == members_bytes(c.geometries, order)[i] by {
                            let j = 9 + i;
                            assert(b[o + j] == enc_geometry(g, order)[j]);
                        };
                        lemma_trunc_members(c.geometries, order, b, o + 9);
                    }
                }
            }
        },
    }
}

/// A truncated run of full geometry records decodes to `TruncatedBuffer`.
proof fn lemma_trunc_members(ms: Seq<GeometryModel>, order: Endianness, b: Seq<u8>, o: int)
    requires
        forall|i: int| 0 <= i < ms.len() ==> (#[trigger] ms[i]).wf(),
        0 <= o <= b.len(),
        b.len() < o + members_size(ms),
        forall|i: int| #![trigger b[o + i]]
            0 <= i < b.len() - o ==> b[o + i] == members_bytes(ms, order)[i],
    ensures
        dec_members(b, o, ms.len() as nat) == Err::<(Seq<GeometryModel>, int), _>(
            WKBError::TruncatedBuffer,
        ),
    decreases ms, 1int,
{
    lemma_members_bytes_len(ms, order);
    assert(ms.len() > 0);
    let rest = ms.subrange(1, ms.len() as int);
    lemma_members_bytes_len(rest, order);
    lemma_enc_geometry_len(ms[0], order);
    let head_size = geometry_size(ms[0]) as int;
    if o + head_size <= b.len() {
        assert(b.subrange(o, o + head_size) =~= enc_geometry(ms[0], order)) by {
            assert forall|i: int| #![trigger b.subrange(o, o + head_size)[i]] 0 <= i < head_size implies b.subrange(
                o,
                o + head_size,
            )[i] == enc_geometry(ms[0], order)[i] by {
                assert(b[o + i] == members_bytes(ms, order)[i]);
            };
        };
        lemma_dec_enc_geometry(ms[0], order, b, o);
        assert forall|i: int| #![trigger b[o + head_size + i]] 0 <= i < b.len() - (o + head_size) implies b[o
            + head_size + i] == members_bytes(rest, order)[i] by {
            let j = head_size + i;
            assert(b[o + j] == members_bytes(ms, order)[j]);
        };
        lemma_trunc_members(rest, order, b, o + head_size);
    } else {
        assert forall|i: int| #![trigger b[o + i]] 0 <= i < b.len() - o implies b[o + i] == enc_geometry(
            ms[0],
            order,
        )[i] by {
            assert(b[o + i] == members_bytes(ms, order)[i]);
        };
        lemma_trunc_geometry(ms[0], order, b, o);
    }
}

/// Boundary law: decoding any strict prefix of an encoded record — a buffer
/// truncated anywhere short of the record's end — yields `TruncatedBuffer`.
pub proof fn lemma_truncated_prefix(g: GeometryModel, order: Endianness, n: int)
    requires
        g.wf(),
        0 <= n < geometry_size(g),
    ensures
        dec_geometry(enc_geometry(g, order).take(n), 0) == Err::<(GeometryModel, int), _>(
            WKBError::TruncatedBuffer,
        ),
{
    let full = enc_geometry(g, order);
    let b = full.take(n);
    lemma_enc_geometry_len(g, order);
    assert forall|i: int| #![trigger b[0 + i]] 0 <= i < b.len() - 0 implies b[0 + i] == full[i] by {
        assert(b[i] == full[i]);
    };
    lemma_trunc_geometry(g, order, b, 0);
}

} // verus!
