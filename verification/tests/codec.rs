//! Exact byte layouts, the type and byte-order tags, the empty-point
//! sentinel, the shape adapters, and every decode error.

use wkb::geom::{Geometry, Line, LineString, MultiPoint, Point, Rect, Triangle};
use wkb::reader::{read_wkb, Wkb};
use wkb::writer::{
    geometry_wkb_size, line_string_wkb_size, line_wkb_size, multi_point_wkb_size, point_wkb_size,
    polygon_wkb_size, rect_wkb_size, triangle_wkb_size, write_line, write_line_string,
    write_multi_point, write_point, write_polygon, write_rect, write_triangle,
};
use wkb::{Endianness, WKBDimension, WKBError, WKBType};

fn c2(x: f64, y: f64) -> Vec<u64> {
    vec![x.to_bits(), y.to_bits()]
}

fn linestring_2d() -> LineString {
    LineString { dim: WKBDimension::Xy, coords: vec![c2(0., 1.), c2(1., 2.)] }
}

#[test]
fn exact_line_string_bytes() {
    // A 2-point 2D line string, little-endian: byte order 01, tag 2,
    // count 2, then the four doubles.
    let mut buf = Vec::new();
    write_line_string(&mut buf, &linestring_2d(), Endianness::LittleEndian);

    let mut expected: Vec<u8> = vec![0x01, 0x02, 0x00, 0x00, 0x00, 0x02, 0x00, 0x00, 0x00];
    expected.extend_from_slice(&0.0f64.to_le_bytes());
    expected.extend_from_slice(&1.0f64.to_le_bytes());
    expected.extend_from_slice(&1.0f64.to_le_bytes());
    expected.extend_from_slice(&2.0f64.to_le_bytes());
    assert_eq!(buf, expected);

    let retour = read_wkb(&buf).unwrap();
    let ls = match retour {
        Wkb::LineString(ls) => ls,
        _ => panic!("expected a line string"),
    };
    assert_eq!(ls.num_coords(), 2);
    let c0 = ls.coord(&buf, 0);
    assert_eq!(f64::from_bits(c0.x(&buf)), 0.0);
    assert_eq!(f64::from_bits(c0.y(&buf)), 1.0);
    let c1 = ls.coord(&buf, 1);
    assert_eq!(f64::from_bits(c1.x(&buf)), 1.0);
    assert_eq!(f64::from_bits(c1.y(&buf)), 2.0);
}

#[test]
fn constant_time_coord_offsets() {
    // Accessing the last point goes through the closed-form offset formula,
    // not a scan: offset of point i is 9 + 16 * i for a 2D line string.
    let mut buf = Vec::new();
    write_line_string(&mut buf, &linestring_2d(), Endianness::LittleEndian);
    let ls = match read_wkb(&buf).unwrap() {
        Wkb::LineString(ls) => ls,
        _ => panic!("expected a line string"),
    };
    assert_eq!(ls.coord_offset(0), 9);
    assert_eq!(ls.coord_offset(1), 9 + 16);
    assert_eq!(ls.size(), 9 + 2 * 16);

    // Multi point members likewise: each full point record is 21 bytes.
    let mp = MultiPoint {
        dim: WKBDimension::Xy,
        points: vec![
            Point { dim: WKBDimension::Xy, coord: Some(c2(0., 1.)) },
            Point { dim: WKBDimension::Xy, coord: Some(c2(1., 2.)) },
        ],
    };
    let mut buf = Vec::new();
    write_multi_point(&mut buf, &mp, Endianness::LittleEndian);
    let view = match read_wkb(&buf).unwrap() {
        Wkb::MultiPoint(v) => v,
        _ => panic!("expected a multi point"),
    };
    assert_eq!(view.point_offset(0), 9);
    assert_eq!(view.point_offset(1), 9 + 21);
    let last = view.point(&buf, 1);
    let c = last.coord(&buf).unwrap();
    assert_eq!(f64::from_bits(c.x(&buf)), 1.0);
    assert_eq!(f64::from_bits(c.y(&buf)), 2.0);
}

#[test]
fn type_tag_round_trip() {
    let dims = [WKBDimension::Xy, WKBDimension::Xyz, WKBDimension::Xym, WKBDimension::Xyzm];
    let kinds: Vec<Box<dyn Fn(WKBDimension) -> WKBType>> = vec![
        Box::new(WKBType::Point),
        Box::new(WKBType::LineString),
        Box::new(WKBType::Polygon),
        Box::new(WKBType::MultiPoint),
        Box::new(WKBType::MultiLineString),
        Box::new(WKBType::MultiPolygon),
        Box::new(WKBType::GeometryCollection),
    ];
    for dim in dims {
        for kind in &kinds {
            let t = kind(dim);
            assert_eq!(WKBType::try_from_u32(t.as_u32()), Ok(t));
        }
    }
    assert_eq!(WKBType::Polygon(WKBDimension::Xyzm).as_u32(), 3003);
    assert_eq!(WKBType::try_from_u32(1002), Ok(WKBType::LineString(WKBDimension::Xyz)));
    assert_eq!(WKBType::try_from_u32(0), Err(WKBError::InvalidTypeTag));
    assert_eq!(WKBType::try_from_u32(8), Err(WKBError::InvalidTypeTag));
    assert_eq!(WKBType::try_from_u32(4001), Err(WKBError::InvalidTypeTag));
    assert_eq!(WKBType::try_from_u32(1008), Err(WKBError::InvalidTypeTag));
}

#[test]
fn empty_point_sentinel() {
    // Encoding an empty point writes `width` NaN doubles.
    let empty = Point { dim: WKBDimension::Xy, coord: None };
    let mut buf = Vec::new();
    write_point(&mut buf, &empty, Endianness::LittleEndian);
    assert_eq!(buf.len(), 5 + 16);
    assert!(f64::from_le_bytes(buf[5..13].try_into().unwrap()).is_nan());
    assert!(f64::from_le_bytes(buf[13..21].try_into().unwrap()).is_nan());

    // Decoding those bytes yields a point with no coordinate.
    let view = match read_wkb(&buf).unwrap() {
        Wkb::Point(p) => p,
        _ => panic!("expected a point"),
    };
    assert!(view.coord(&buf).is_none());
}

#[test]
fn decode_errors() {
    // Byte-order byte must be 0 or 1.
    assert_eq!(read_wkb(&[2u8, 1, 0, 0, 0]).err(), Some(WKBError::InvalidByteOrder));
    assert_eq!(Endianness::try_from_u8(9), Err(WKBError::InvalidByteOrder));
    // Tag kind 8 does not exist.
    assert_eq!(read_wkb(&[1u8, 8, 0, 0, 0]).err(), Some(WKBError::InvalidTypeTag));
    // The empty buffer is truncated.
    assert_eq!(read_wkb(&[]).err(), Some(WKBError::TruncatedBuffer));
    // An axis count the format cannot represent.
    assert_eq!(
        WKBDimension::try_from_axis_count(5),
        Err(WKBError::UnsupportedDimensionality)
    );
    assert_eq!(WKBDimension::try_from_axis_count(3), Ok(WKBDimension::Xyz));
}

#[test]
fn truncated_buffers() {
    // Decoding any buffer cut short of the record end, at every possible
    // length, is TruncatedBuffer — never a panic or another error.
    let mut buf = Vec::new();
    write_line_string(&mut buf, &linestring_2d(), Endianness::BigEndian);
    for n in 0..buf.len() {
        assert_eq!(read_wkb(&buf[..n]).err(), Some(WKBError::TruncatedBuffer));
    }

    let mp = MultiPoint {
        dim: WKBDimension::Xy,
        points: vec![Point { dim: WKBDimension::Xy, coord: Some(c2(0., 1.)) }],
    };
    let mut buf = Vec::new();
    write_multi_point(&mut buf, &mp, Endianness::LittleEndian);
    for n in 0..buf.len() {
        assert_eq!(read_wkb(&buf[..n]).err(), Some(WKBError::TruncatedBuffer));
    }
}

#[test]
fn malformed_members() {
    // A multi line string whose member is a point record is Malformed.
    let mut buf: Vec<u8> = vec![0x01, 0x05, 0x00, 0x00, 0x00, 0x01, 0x00, 0x00, 0x00];
    write_point(
        &mut buf,
        &Point { dim: WKBDimension::Xy, coord: Some(c2(0., 1.)) },
        Endianness::LittleEndian,
    );
    assert_eq!(read_wkb(&buf).err(), Some(WKBError::Malformed));

    // A multi point member of the wrong dimensionality is Malformed.
    let mut buf: Vec<u8> = vec![0x01, 0x04, 0x00, 0x00, 0x00, 0x01, 0x00, 0x00, 0x00];
    write_point(
        &mut buf,
        &Point {
            dim: WKBDimension::Xyz,
            coord: Some(vec![0f64.to_bits(), 1f64.to_bits(), 2f64.to_bits()]),
        },
        Endianness::LittleEndian,
    );
    assert_eq!(read_wkb(&buf).err(), Some(WKBError::Malformed));
}

#[test]
fn srid_record() {
    // An EWKB point: flag bit 0x20000000 in the tag, then a 4-byte SRID.
    let mut buf: Vec<u8> = vec![0x01, 0x01, 0x00, 0x00, 0x20];
    buf.extend_from_slice(&4326u32.to_le_bytes());
    buf.extend_from_slice(&10.5f64.to_le_bytes());
    buf.extend_from_slice(&(-3.25f64).to_le_bytes());
    let view = match read_wkb(&buf).unwrap() {
        Wkb::Point(p) => p,
        _ => panic!("expected a point"),
    };
    assert_eq!(view.size(), buf.len() as u64);
    let c = view.coord(&buf).unwrap();
    assert_eq!(f64::from_bits(c.x(&buf)), 10.5);
    assert_eq!(f64::from_bits(c.y(&buf)), -3.25);

    // Cut one byte short, the SRID record is TruncatedBuffer too.
    for n in 0..buf.len() {
        assert_eq!(read_wkb(&buf[..n]).err(), Some(WKBError::TruncatedBuffer));
    }
}

#[test]
fn from_buffer_reads_the_tag() {
    let mut buf = Vec::new();
    write_line_string(&mut buf, &linestring_2d(), Endianness::BigEndian);
    assert_eq!(
        WKBType::from_buffer(&buf),
        Ok(WKBType::LineString(WKBDimension::Xy))
    );
    assert_eq!(WKBType::from_buffer(&[1u8]), Err(WKBError::TruncatedBuffer));
}

#[test]
fn shape_adapters() {
    // A rectangle encodes as a polygon with one closed 5-point ring.
    let rect = Rect {
        min_x: 0f64.to_bits(),
        min_y: 1f64.to_bits(),
        max_x: 4f64.to_bits(),
        max_y: 9f64.to_bits(),
    };
    let mut buf = Vec::new();
    write_rect(&mut buf, &rect, Endianness::LittleEndian);
    assert_eq!(rect_wkb_size(&rect), buf.len());
    let poly = match read_wkb(&buf).unwrap() {
        Wkb::Polygon(p) => p,
        _ => panic!("expected a polygon"),
    };
    assert_eq!(poly.num_interiors(), 0);
    let ring = poly.exterior().unwrap();
    assert_eq!(ring.num_coords(), 5);
    let expected = [(0., 1.), (0., 9.), (4., 9.), (4., 1.), (0., 1.)];
    for (i, (x, y)) in expected.iter().enumerate() {
        let c = ring.coord(&buf, i);
        assert_eq!(f64::from_bits(c.x(&buf)), *x);
        assert_eq!(f64::from_bits(c.y(&buf)), *y);
    }

    // A triangle encodes as a polygon with a single 3-point ring.
    let tri = Triangle {
        dim: WKBDimension::Xy,
        first: c2(0., 0.),
        second: c2(1., 0.),
        third: c2(0., 1.),
    };
    let mut buf = Vec::new();
    write_triangle(&mut buf, &tri, Endianness::BigEndian);
    assert_eq!(triangle_wkb_size(&tri), buf.len());
    let poly = match read_wkb(&buf).unwrap() {
        Wkb::Polygon(p) => p,
        _ => panic!("expected a polygon"),
    };
    assert_eq!(poly.num_interiors(), 0);
    assert_eq!(poly.exterior().unwrap().num_coords(), 3);

    // A line segment encodes as a 2-point line string.
    let line = Line { dim: WKBDimension::Xy, start: c2(7., 8.), end: c2(9., 10.) };
    let mut buf = Vec::new();
    write_line(&mut buf, &line, Endianness::LittleEndian);
    assert_eq!(line_wkb_size(&line), buf.len());
    let ls = match read_wkb(&buf).unwrap() {
        Wkb::LineString(ls) => ls,
        _ => panic!("expected a line string"),
    };
    assert_eq!(ls.num_coords(), 2);
    let c = ls.coord(&buf, 1);
    assert_eq!(f64::from_bits(c.x(&buf)), 9.0);
    assert_eq!(f64::from_bits(c.y(&buf)), 10.0);
}

#[test]
fn size_queries() {
    assert_eq!(point_wkb_size(WKBDimension::Xy), 21);
    assert_eq!(point_wkb_size(WKBDimension::Xyzm), 37);
    assert_eq!(line_string_wkb_size(&linestring_2d()), 41);
    let poly = wkb::geom::Polygon {
        dim: WKBDimension::Xy,
        rings: vec![vec![c2(0., 0.), c2(1., 0.), c2(0., 1.)]],
    };
    assert_eq!(polygon_wkb_size(&poly), 9 + 4 + 3 * 16);
    let mp = MultiPoint {
        dim: WKBDimension::Xy,
        points: vec![Point { dim: WKBDimension::Xy, coord: Some(c2(0., 1.)) }],
    };
    assert_eq!(multi_point_wkb_size(&mp), 9 + 21);
    assert_eq!(geometry_wkb_size(&Geometry::Point(Point { dim: WKBDimension::Xy, coord: None })), 21);
}

#[test]
fn well_formedness_checks() {
    assert!(Geometry::Point(Point { dim: WKBDimension::Xy, coord: Some(c2(0., 1.)) }).is_wf());
    // Wrong coordinate width.
    assert!(!Geometry::Point(Point { dim: WKBDimension::Xyz, coord: Some(c2(0., 1.)) }).is_wf());
    // A present coordinate may not be all NaN: that pattern is reserved for
    // the empty point.
    assert!(!Geometry::Point(Point {
        dim: WKBDimension::Xy,
        coord: Some(c2(f64::NAN, f64::NAN)),
    })
        .is_wf());
    assert!(Geometry::Point(Point { dim: WKBDimension::Xy, coord: None }).is_wf());
}

#[test]
fn endianness_tags() {
    assert_eq!(Endianness::default(), Endianness::LittleEndian);
    assert_eq!(Endianness::BigEndian.as_u8(), 0);
    assert_eq!(Endianness::LittleEndian.as_u8(), 1);
    assert_eq!(Endianness::try_from_u8(0), Ok(Endianness::BigEndian));
    assert_eq!(Endianness::try_from_u8(1), Ok(Endianness::LittleEndian));
}

#[test]
fn polygon_view_rings() {
    // A polygon with a 4-point exterior ring and no interior rings comes
    // back with num_interiors() == 0 and the 4 points in original order.
    let exterior = [(-111., 45.), (-111., 41.), (-104., 41.), (-104., 45.)];
    let poly = wkb::geom::Polygon {
        dim: WKBDimension::Xy,
        rings: vec![exterior.iter().map(|(x, y)| c2(*x, *y)).collect()],
    };
    let mut buf = Vec::new();
    write_polygon(&mut buf, &poly, Endianness::LittleEndian);
    let view = match read_wkb(&buf).unwrap() {
        Wkb::Polygon(p) => p,
        _ => panic!("expected a polygon"),
    };
    assert_eq!(view.num_interiors(), 0);
    let ring = view.exterior().unwrap();
    assert_eq!(ring.num_coords(), 4);
    for (i, (x, y)) in exterior.iter().enumerate() {
        let c = ring.coord(&buf, i);
        assert_eq!(f64::from_bits(c.x(&buf)), *x);
        assert_eq!(f64::from_bits(c.y(&buf)), *y);
    }

    // An explicitly empty polygon has no exterior at all.
    let empty = wkb::geom::Polygon { dim: WKBDimension::Xy, rings: vec![] };
    let mut buf = Vec::new();
    write_polygon(&mut buf, &empty, Endianness::LittleEndian);
    let view = match read_wkb(&buf).unwrap() {
        Wkb::Polygon(p) => p,
        _ => panic!("expected a polygon"),
    };
    assert!(view.exterior().is_none());
    assert_eq!(view.num_interiors(), 0);

    // With one interior ring, interior(0) is the second ring of the record.
    let two_ring = wkb::geom::Polygon {
        dim: WKBDimension::Xy,
        rings: vec![
            exterior.iter().map(|(x, y)| c2(*x, *y)).collect(),
            vec![c2(-110., 44.), c2(-110., 42.), c2(-105., 42.)],
        ],
    };
    let mut buf = Vec::new();
    write_polygon(&mut buf, &two_ring, Endianness::BigEndian);
    let view = match read_wkb(&buf).unwrap() {
        Wkb::Polygon(p) => p,
        _ => panic!("expected a polygon"),
    };
    assert_eq!(view.num_interiors(), 1);
    let hole = view.interior(0);
    assert_eq!(hole.num_coords(), 3);
    assert_eq!(f64::from_bits(hole.coord(&buf, 0).x(&buf)), -110.0);
}
