//! Round trips through encode and decode for every geometry kind, in both
//! byte orders.

use wkb::geom::{
    Geometry, GeometryCollection, LineString, MultiLineString, MultiPoint, MultiPolygon, Point,
    Polygon,
};
use wkb::reader::read_wkb;
use wkb::writer::{
    write_geometry_collection, write_line_string, write_multi_line_string, write_multi_point,
    write_multi_polygon, write_point, write_polygon,
};
use wkb::{Endianness, WKBDimension};

fn c2(x: f64, y: f64) -> Vec<u64> {
    vec![x.to_bits(), y.to_bits()]
}

fn point_2d() -> Point {
    Point { dim: WKBDimension::Xy, coord: Some(c2(0., 1.)) }
}

fn linestring_2d() -> LineString {
    LineString { dim: WKBDimension::Xy, coords: vec![c2(0., 1.), c2(1., 2.)] }
}

fn polygon_2d() -> Polygon {
    Polygon {
        dim: WKBDimension::Xy,
        rings: vec![vec![c2(-111., 45.), c2(-111., 41.), c2(-104., 41.), c2(-104., 45.)]],
    }
}

fn polygon_2d_with_interior() -> Polygon {
    Polygon {
        dim: WKBDimension::Xy,
        rings: vec![
            vec![c2(-111., 45.), c2(-111., 41.), c2(-104., 41.), c2(-104., 45.)],
            vec![c2(-110., 44.), c2(-110., 42.), c2(-105., 42.), c2(-105., 44.)],
        ],
    }
}

fn multi_point_2d() -> MultiPoint {
    MultiPoint {
        dim: WKBDimension::Xy,
        points: vec![
            Point { dim: WKBDimension::Xy, coord: Some(c2(0., 1.)) },
            Point { dim: WKBDimension::Xy, coord: Some(c2(1., 2.)) },
        ],
    }
}

fn multi_line_string_2d() -> MultiLineString {
    MultiLineString {
        dim: WKBDimension::Xy,
        line_strings: vec![
            LineString {
                dim: WKBDimension::Xy,
                coords: vec![c2(-111., 45.), c2(-111., 41.), c2(-104., 41.), c2(-104., 45.)],
            },
            LineString {
                dim: WKBDimension::Xy,
                coords: vec![c2(-110., 44.), c2(-110., 42.), c2(-105., 42.), c2(-105., 44.)],
            },
        ],
    }
}

fn multi_polygon_2d() -> MultiPolygon {
    MultiPolygon { dim: WKBDimension::Xy, polygons: vec![polygon_2d(), polygon_2d_with_interior()] }
}

fn geometry_collection_2d() -> GeometryCollection {
    GeometryCollection {
        dim: WKBDimension::Xy,
        geometries: vec![
            Geometry::Point(point_2d()),
            Geometry::LineString(linestring_2d()),
            Geometry::Polygon(polygon_2d()),
            Geometry::Polygon(polygon_2d_with_interior()),
            Geometry::MultiPoint(multi_point_2d()),
            Geometry::MultiLineString(multi_line_string_2d()),
            Geometry::MultiPolygon(multi_polygon_2d()),
        ],
    }
}

#[test]
fn test_round_trip_point() {
    let orig = point_2d();
    let mut buf = Vec::new();
    write_point(&mut buf, &orig, Endianness::LittleEndian);
    let retour = read_wkb(&buf).unwrap();
    assert_eq!(Geometry::Point(orig), retour.to_geometry(&buf));

    // Big endian
    let orig = point_2d();
    let mut buf = Vec::new();
    write_point(&mut buf, &orig, Endianness::BigEndian);
    let retour = read_wkb(&buf).unwrap();
    assert_eq!(Geometry::Point(orig), retour.to_geometry(&buf));
}

#[test]
fn test_round_trip_line_string() {
    let orig = linestring_2d();
    let mut buf = Vec::new();
    write_line_string(&mut buf, &orig, Endianness::LittleEndian);
    let retour = read_wkb(&buf).unwrap();
    assert_eq!(Geometry::LineString(orig), retour.to_geometry(&buf));

    // Big endian
    let orig = linestring_2d();
    let mut buf = Vec::new();
    write_line_string(&mut buf, &orig, Endianness::BigEndian);
    let retour = read_wkb(&buf).unwrap();
    assert_eq!(Geometry::LineString(orig), retour.to_geometry(&buf));
}

#[test]
fn test_round_trip_polygon() {
    let orig = polygon_2d();
    let mut buf = Vec::new();
    write_polygon(&mut buf, &orig, Endianness::LittleEndian);
    let retour = read_wkb(&buf).unwrap();
    assert_eq!(Geometry::Polygon(orig), retour.to_geometry(&buf));

    // Big endian
    let orig = polygon_2d();
    let mut buf = Vec::new();
    write_polygon(&mut buf, &orig, Endianness::BigEndian);
    let retour = read_wkb(&buf).unwrap();
    assert_eq!(Geometry::Polygon(orig), retour.to_geometry(&buf));
}

#[test]
fn test_round_trip_polygon_with_interior() {
    let orig = polygon_2d_with_interior();
    let mut buf = Vec::new();
    write_polygon(&mut buf, &orig, Endianness::LittleEndian);
    let retour = read_wkb(&buf).unwrap();
    assert_eq!(Geometry::Polygon(orig), retour.to_geometry(&buf));

    // Big endian
    let orig = polygon_2d_with_interior();
    let mut buf = Vec::new();
    write_polygon(&mut buf, &orig, Endianness::BigEndian);
    let retour = read_wkb(&buf).unwrap();
    assert_eq!(Geometry::Polygon(orig), retour.to_geometry(&buf));
}

#[test]
fn test_round_trip_multi_point() {
    let orig = multi_point_2d();
    let mut buf = Vec::new();
    write_multi_point(&mut buf, &orig, Endianness::LittleEndian);
    let retour = read_wkb(&buf).unwrap();
    assert_eq!(Geometry::MultiPoint(orig), retour.to_geometry(&buf));

    // Big endian
    let orig = multi_point_2d();
    let mut buf = Vec::new();
    write_multi_point(&mut buf, &orig, Endianness::BigEndian);
    let retour = read_wkb(&buf).unwrap();
    assert_eq!(Geometry::MultiPoint(orig), retour.to_geometry(&buf));
}

#[test]
fn test_round_trip_multi_line_string() {
    let orig = multi_line_string_2d();
    let mut buf = Vec::new();
    write_multi_line_string(&mut buf, &orig, Endianness::LittleEndian);
    let retour = read_wkb(&buf).unwrap();
    assert_eq!(Geometry::MultiLineString(orig), retour.to_geometry(&buf));

    // Big endian
    let orig = multi_line_string_2d();
    let mut buf = Vec::new();
    write_multi_line_string(&mut buf, &orig, Endianness::BigEndian);
    let retour = read_wkb(&buf).unwrap();
    assert_eq!(Geometry::MultiLineString(orig), retour.to_geometry(&buf));
}

#[test]
fn test_round_trip_multi_polygon() {
    let orig = multi_polygon_2d();
    let mut buf = Vec::new();
    write_multi_polygon(&mut buf, &orig, Endianness::LittleEndian);
    let retour = read_wkb(&buf).unwrap();
    assert_eq!(Geometry::MultiPolygon(orig), retour.to_geometry(&buf));

    // Big endian
    let orig = multi_polygon_2d();
    let mut buf = Vec::new();
    write_multi_polygon(&mut buf, &orig, Endianness::BigEndian);
    let retour = read_wkb(&buf).unwrap();
    assert_eq!(Geometry::MultiPolygon(orig), retour.to_geometry(&buf));
}

#[test]
fn test_round_trip_geometry_collection() {
    let orig = geometry_collection_2d();
    let mut buf = Vec::new();
    write_geometry_collection(&mut buf, &orig, Endianness::LittleEndian);
    let retour = read_wkb(&buf).unwrap();
    assert_eq!(Geometry::GeometryCollection(orig), retour.to_geometry(&buf));

    // Big endian
    let orig = geometry_collection_2d();
    let mut buf = Vec::new();
    write_geometry_collection(&mut buf, &orig, Endianness::BigEndian);
    let retour = read_wkb(&buf).unwrap();
    assert_eq!(Geometry::GeometryCollection(orig), retour.to_geometry(&buf));
}
