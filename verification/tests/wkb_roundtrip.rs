//! Round trips through the top-level geometry dispatch, in both byte
//! orders, including size agreement with the size query.

use wkb::geom::{
    Geometry, GeometryCollection, LineString, MultiLineString, MultiPoint, MultiPolygon, Point,
    Polygon,
};
use wkb::reader::read_wkb;
use wkb::writer::{geometry_wkb_size, write_geometry};
use wkb::{Endianness, WKBDimension};

fn c2(x: f64, y: f64) -> Vec<u64> {
    vec![x.to_bits(), y.to_bits()]
}

fn point_2d() -> Point {
    Point { dim: WKBDimension::Xy, coord: Some(c2(0., 1.)) }
}

fn linestring_2d() -> LineString {
    LineString { dim: WKBDimension::Xy, coords: vec![c2(0., 1.), c2(1., 2.)] }
}

fn polygon_2d() -> Polygon {
    Polygon {
        dim: WKBDimension::Xy,
        rings: vec![vec![c2(-111., 45.), c2(-111., 41.), c2(-104., 41.), c2(-104., 45.)]],
    }
}

fn polygon_2d_with_interior() -> Polygon {
    Polygon {
        dim: WKBDimension::Xy,
        rings: vec![
            vec![c2(-111., 45.), c2(-111., 41.), c2(-104., 41.), c2(-104., 45.)],
            vec![c2(-110., 44.), c2(-110., 42.), c2(-105., 42.), c2(-105., 44.)],
        ],
    }
}

fn multi_point_2d() -> MultiPoint {
    MultiPoint {
        dim: WKBDimension::Xy,
        points: vec![
            Point { dim: WKBDimension::Xy, coord: Some(c2(0., 1.)) },
            Point { dim: WKBDimension::Xy, coord: Some(c2(1., 2.)) },
        ],
    }
}

fn multi_line_string_2d() -> MultiLineString {
    MultiLineString {
        dim: WKBDimension::Xy,
        line_strings: vec![
            LineString {
                dim: WKBDimension::Xy,
                coords: vec![c2(-111., 45.), c2(-111., 41.), c2(-104., 41.), c2(-104., 45.)],
            },
            LineString {
                dim: WKBDimension::Xy,
                coords: vec![c2(-110., 44.), c2(-110., 42.), c2(-105., 42.), c2(-105., 44.)],
            },
        ],
    }
}

fn multi_polygon_2d() -> MultiPolygon {
    MultiPolygon { dim: WKBDimension::Xy, polygons: vec![polygon_2d(), polygon_2d_with_interior()] }
}

fn geometry_collection_2d() -> GeometryCollection {
    GeometryCollection {
        dim: WKBDimension::Xy,
        geometries: vec![
            Geometry::Point(point_2d()),
            Geometry::LineString(linestring_2d()),
            Geometry::Polygon(polygon_2d()),
            Geometry::Polygon(polygon_2d_with_interior()),
            Geometry::MultiPoint(multi_point_2d()),
            Geometry::MultiLineString(multi_line_string_2d()),
            Geometry::MultiPolygon(multi_polygon_2d()),
        ],
    }
}

/// Writes the geometry in the given order, checks the size query against the
/// bytes actually produced, decodes them and returns the abstract form.
fn round_trip(orig: &Geometry, endianness: Endianness) -> Geometry {
    let mut buf = Vec::new();
    write_geometry(&mut buf, orig, endianness);
    assert_eq!(geometry_wkb_size(orig), buf.len());
    let retour = read_wkb(&buf).unwrap();
    assert_eq!(retour.size(), buf.len() as u64);
    retour.to_geometry(&buf)
}

#[test]
fn wkb_round_trip_point() {
    let orig = Geometry::Point(point_2d());
    assert_eq!(orig, round_trip(&orig, Endianness::LittleEndian));
    assert_eq!(orig, round_trip(&orig, Endianness::BigEndian));
}

#[test]
fn wkb_round_trip_line_string() {
    let orig = Geometry::LineString(linestring_2d());
    assert_eq!(orig, round_trip(&orig, Endianness::LittleEndian));
    assert_eq!(orig, round_trip(&orig, Endianness::BigEndian));
}

#[test]
fn wkb_round_trip_polygon() {
    let orig = Geometry::Polygon(polygon_2d());
    assert_eq!(orig, round_trip(&orig, Endianness::LittleEndian));
    assert_eq!(orig, round_trip(&orig, Endianness::BigEndian));
}

#[test]
fn wkb_round_trip_polygon_with_interior() {
    let orig = Geometry::Polygon(polygon_2d_with_interior());
    assert_eq!(orig, round_trip(&orig, Endianness::LittleEndian));
    assert_eq!(orig, round_trip(&orig, Endianness::BigEndian));
}

#[test]
fn wkb_round_trip_multi_point() {
    let orig = Geometry::MultiPoint(multi_point_2d());
    assert_eq!(orig, round_trip(&orig, Endianness::LittleEndian));
    assert_eq!(orig, round_trip(&orig, Endianness::BigEndian));
}

#[test]
fn wkb_round_trip_multi_line_string() {
    let orig = Geometry::MultiLineString(multi_line_string_2d());
    assert_eq!(orig, round_trip(&orig, Endianness::LittleEndian));
    assert_eq!(orig, round_trip(&orig, Endianness::BigEndian));
}

#[test]
fn wkb_round_trip_multi_polygon() {
    let orig = Geometry::MultiPolygon(multi_polygon_2d());
    assert_eq!(orig, round_trip(&orig, Endianness::LittleEndian));
    assert_eq!(orig, round_trip(&orig, Endianness::BigEndian));
}

#[test]
fn wkb_round_trip_geometry_collection() {
    let orig = Geometry::GeometryCollection(geometry_collection_2d());
    assert_eq!(orig, round_trip(&orig, Endianness::LittleEndian));
    assert_eq!(orig, round_trip(&orig, Endianness::BigEndian));
}

#[test]
fn wkb_round_trip_higher_dimensions() {
    let xyz = Geometry::Point(Point {
        dim: WKBDimension::Xyz,
        coord: Some(vec![1.5f64.to_bits(), 2.5f64.to_bits(), 3.5f64.to_bits()]),
    });
    assert_eq!(xyz, round_trip(&xyz, Endianness::LittleEndian));
    assert_eq!(xyz, round_trip(&xyz, Endianness::BigEndian));

    let xyzm = Geometry::LineString(LineString {
        dim: WKBDimension::Xyzm,
        coords: vec![
            vec![1f64.to_bits(), 2f64.to_bits(), 3f64.to_bits(), 4f64.to_bits()],
            vec![5f64.to_bits(), 6f64.to_bits(), 7f64.to_bits(), 8f64.to_bits()],
        ],
    });
    assert_eq!(xyzm, round_trip(&xyzm, Endianness::LittleEndian));
    assert_eq!(xyzm, round_trip(&xyzm, Endianness::BigEndian));

    let xym = Geometry::Point(Point {
        dim: WKBDimension::Xym,
        coord: Some(vec![1f64.to_bits(), 2f64.to_bits(), 9f64.to_bits()]),
    });
    assert_eq!(xym, round_trip(&xym, Endianness::LittleEndian));
    assert_eq!(xym, round_trip(&xym, Endianness::BigEndian));
}

#[test]
fn wkb_round_trip_empty_geometries() {
    let empty_point = Geometry::Point(Point { dim: WKBDimension::Xy, coord: None });
    assert_eq!(empty_point, round_trip(&empty_point, Endianness::LittleEndian));
    assert_eq!(empty_point, round_trip(&empty_point, Endianness::BigEndian));

    let empty_polygon = Geometry::Polygon(Polygon { dim: WKBDimension::Xy, rings: vec![] });
    assert_eq!(empty_polygon, round_trip(&empty_polygon, Endianness::LittleEndian));
    assert_eq!(empty_polygon, round_trip(&empty_polygon, Endianness::BigEndian));

    let nested = Geometry::GeometryCollection(GeometryCollection {
        dim: WKBDimension::Xy,
        geometries: vec![Geometry::GeometryCollection(GeometryCollection {
            dim: WKBDimension::Xy,
            geometries: vec![Geometry::Point(point_2d())],
        })],
    });
    assert_eq!(nested, round_trip(&nested, Endianness::LittleEndian));
    assert_eq!(nested, round_trip(&nested, Endianness::BigEndian));
}
