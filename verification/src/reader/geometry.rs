//! The decode side of the top-level dispatch: a view of a geometry record
//! of any kind, and the recursive decoder that builds it.

use vstd::prelude::*;

use crate::common::{WKBDimension, WKBError, WKBType};
use crate::decoding::{dec_geometry, lemma_dec_geometry_end};
use crate::geom::GeometryModel;
use crate::reader::geometry_collection::GeometryCollection;
use crate::reader::linestring::LineString;
use crate::reader::multilinestring::MultiLineString;
use crate::reader::multipoint::MultiPoint;
use crate::reader::multipolygon::MultiPolygon;
use crate::reader::point::Point;
use crate::reader::polygon::Polygon;
use crate::reader::util::read_header;

verus! {

/// A decoded geometry record of any of the seven kinds.
#[derive(Debug)]
pub enum Wkb {
    Point(Point),
    LineString(LineString),
    Polygon(Polygon),
    MultiPoint(MultiPoint),
    MultiLineString(MultiLineString),
    MultiPolygon(MultiPolygon),
    GeometryCollection(GeometryCollection),
}

impl Wkb {
    /// The view matches the buffer, whichever kind it is.
    pub open spec fn wf(self, b: Seq<u8>) -> bool
        decreases self, 1int,
    {
        match self {
            Wkb::Point(v) => v.wf(b),
            Wkb::LineString(v) => v.wf(b),
            Wkb::Polygon(v) => v.wf(b),
            Wkb::MultiPoint(v) => v.wf(b),
            Wkb::MultiLineString(v) => v.wf(b),
            Wkb::MultiPolygon(v) => v.wf(b),
            Wkb::GeometryCollection(v) => v.wf(b),
        }
    }

    /// The geometry this view denotes.
    pub open spec fn abs(self, b: Seq<u8>) -> GeometryModel
        decreases self, 1int,
    {
        match self {
            Wkb::Point(v) => GeometryModel::Point(v.abs(b)),
            Wkb::LineString(v) => GeometryModel::LineString(v.abs(b)),
            Wkb::Polygon(v) => GeometryModel::Polygon(v.abs(b)),
            Wkb::MultiPoint(v) => GeometryModel::MultiPoint(v.abs(b)),
            Wkb::MultiLineString(v) => GeometryModel::MultiLineString(v.abs(b)),
            Wkb::MultiPolygon(v) => GeometryModel::MultiPolygon(v.abs(b)),
            Wkb::GeometryCollection(v) => GeometryModel::GeometryCollection(v.abs(b)),
        }
    }

    /// Where the record starts in the buffer.
    pub open spec fn spec_offset(self) -> int {
        match self {
            Wkb::Point(v) => v.offset as int,
            Wkb::LineString(v) => v.offset as int,
            Wkb::Polygon(v) => v.offset as int,
            Wkb::MultiPoint(v) => v.offset as int,
            Wkb::MultiLineString(v) => v.offset as int,
            Wkb::MultiPolygon(v) => v.offset as int,
            Wkb::GeometryCollection(v) => v.offset as int,
        }
    }

    /// The number of bytes of the record.
    pub open spec fn spec_size(self) -> int {
        match self {
            Wkb::Point(v) => v.spec_size(),
            Wkb::LineString(v) => v.spec_size(),
            Wkb::Polygon(v) => v.size as int,
            Wkb::MultiPoint(v) => v.spec_size(),
            Wkb::MultiLineString(v) => v.size as int,
            Wkb::MultiPolygon(v) => v.size as int,
            Wkb::GeometryCollection(v) => v.size as int,
        }
    }

    /// Decodes the full geometry record at `offset`: the header, then the
    /// body of whichever kind the tag announces. Members of collections are
    /// decoded recursively; the recursion depth equals the nesting depth of
    /// the input record.
    #[verifier::rlimit(100)]
    pub fn decode_at(buf: &[u8], offset: usize) -> (r: Result<(Wkb, usize), WKBError>)
        ensures
            match r {
                Ok((w, end)) => {
                    &&& dec_geometry(buf@, offset as int) == Ok::<_, WKBError>(
                        (w.abs(buf@), end as int),
                    )
                    &&& w.wf(buf@)
                    &&& w.spec_offset() == offset
                    &&& offset < end <= buf@.len()
                },
                Err(e) => dec_geometry(buf@, offset as int) == Err::<(GeometryModel, int), _>(e),
            },
        decreases buf@.len() - offset, 1int,
    {
        let (order, wkb_type, has_srid) = match read_header(buf, offset) {
            Ok(h) => h,
            Err(e) => {
                return Err(e);
            },
        };
        let r = match wkb_type {
            WKBType::Point(dim) => match Point::new(buf, order, offset, dim, has_srid) {
                Ok((v, end)) => Ok((Wkb::Point(v), end)),
                Err(e) => Err(e),
            },
            WKBType::LineString(dim) => match LineString::new(buf, order, offset, dim, has_srid) {
                Ok((v, end)) => Ok((Wkb::LineString(v), end)),
                Err(e) => Err(e),
            },
            WKBType::Polygon(dim) => match Polygon::new(buf, order, offset, dim, has_srid) {
                Ok((v, end)) => Ok((Wkb::Polygon(v), end)),
                Err(e) => Err(e),
            },
            WKBType::MultiPoint(dim) => match MultiPoint::new(buf, order, offset, dim, has_srid) {
                Ok((v, end)) => Ok((Wkb::MultiPoint(v), end)),
                Err(e) => Err(e),
            },
            WKBType::MultiLineString(dim) => match MultiLineString::new(
                buf,
                order,
                offset,
                dim,
                has_srid,
            ) {
                Ok((v, end)) => Ok((Wkb::MultiLineString(v), end)),
                Err(e) => Err(e),
            },
            WKBType::MultiPolygon(dim) => match MultiPolygon::new(
                buf,
                order,
                offset,
                dim,
                has_srid,
            ) {
                Ok((v, end)) => Ok((Wkb::MultiPolygon(v), end)),
                Err(e) => Err(e),
            },
            WKBType::GeometryCollection(dim) => match GeometryCollection::try_new(
                buf,
                order,
                offset,
                dim,
                has_srid,
            ) {
                Ok((v, end)) => Ok((Wkb::GeometryCollection(v), end)),
                Err(e) => Err(e),
            },
        };
        proof {
            if r is Ok {
                lemma_dec_geometry_end(buf@, offset as int);
            }
        }
        r
    }

    /// Decodes the geometry record at the start of the buffer. Bytes past
    /// the record are ignored.
    pub fn try_new(buf: &[u8]) -> (r: Result<Wkb, WKBError>)
        ensures
            match r {
                Ok(w) => {
                    &&& dec_geometry(buf@, 0) matches Ok((g, _)) && g == w.abs(buf@)
                    &&& w.wf(buf@)
                    &&& w.spec_offset() == 0
                },
                Err(e) => dec_geometry(buf@, 0) == Err::<(GeometryModel, int), _>(e),
            },
    {
        match Wkb::decode_at(buf, 0) {
            Ok((w, _)) => Ok(w),
            Err(e) => Err(e),
        }
    }

    /// The dimensionality the record's type tag announced.
    pub fn dimension(&self) -> (r: WKBDimension)
        ensures
            r == self.abs_dim(),
    {
        match self {
            Wkb::Point(v) => v.dimension(),
            Wkb::LineString(v) => v.dimension(),
            Wkb::Polygon(v) => v.dimension(),
            Wkb::MultiPoint(v) => v.dimension(),
            Wkb::MultiLineString(v) => v.dimension(),
            Wkb::MultiPolygon(v) => v.dimension(),
            Wkb::GeometryCollection(v) => v.dimension(),
        }
    }

    /// The dimensionality of the geometry this view denotes.
    pub open spec fn abs_dim(self) -> WKBDimension {
        match self {
            Wkb::Point(v) => v.dim,
            Wkb::LineString(v) => v.dim,
            Wkb::Polygon(v) => v.dim,
            Wkb::MultiPoint(v) => v.dim,
            Wkb::MultiLineString(v) => v.dim,
            Wkb::MultiPolygon(v) => v.dim,
            Wkb::GeometryCollection(v) => v.dim,
        }
    }

    /// The number of bytes of the record, header through last child.
    pub fn size(&self) -> (r: u64)
        ensures
            r == self.spec_size(),
    {
        match self {
            Wkb::Point(v) => v.size(),
            Wkb::LineString(v) => v.size(),
            Wkb::Polygon(v) => v.size(),
            Wkb::MultiPoint(v) => v.size(),
            Wkb::MultiLineString(v) => v.size(),
            Wkb::MultiPolygon(v) => v.size(),
            Wkb::GeometryCollection(v) => v.size(),
        }
    }

    /// Copies the geometry out of the buffer into the in-memory model.
    pub fn to_geometry(&self, buf: &[u8]) -> (r: crate::geom::Geometry)
        requires
            self.wf(buf@),
        ensures
            r@ == self.abs(buf@),
        decreases self, 1int,
    {
        match self {
            Wkb::Point(v) => crate::geom::Geometry::Point(v.to_geometry(buf)),
            Wkb::LineString(v) => crate::geom::Geometry::LineString(v.to_geometry(buf)),
            Wkb::Polygon(v) => crate::geom::Geometry::Polygon(v.to_geometry(buf)),
            Wkb::MultiPoint(v) => crate::geom::Geometry::MultiPoint(v.to_geometry(buf)),
            Wkb::MultiLineString(v) => crate::geom::Geometry::MultiLineString(v.to_geometry(buf)),
            Wkb::MultiPolygon(v) => crate::geom::Geometry::MultiPolygon(v.to_geometry(buf)),
            Wkb::GeometryCollection(v) => crate::geom::Geometry::GeometryCollection(
                v.to_geometry(buf),
            ),
        }
    }
}

/// The geometry each member view of a collection denotes, in order.
pub open spec fn wkbs_abs(gs: Seq<Wkb>, b: Seq<u8>) -> Seq<GeometryModel>
    decreases gs, 2int,
{
    if gs.len() == 0 {
        Seq::empty()
    } else {
        seq![gs[0].abs(b)] + wkbs_abs(gs.subrange(1, gs.len() as int), b)
    }
}

/// Membership of `wkbs_abs`: the model sequence has the same length and is
/// the member model pointwise.
pub proof fn lemma_wkbs_abs(gs: Seq<Wkb>, b: Seq<u8>)
    ensures
        wkbs_abs(gs, b).len() == gs.len(),
        forall|i: int| 0 <= i < gs.len() ==> wkbs_abs(gs, b)[i] == gs[i].abs(b),
    decreases gs,
{
    if gs.len() > 0 {
        let rest = gs.subrange(1, gs.len() as int);
        lemma_wkbs_abs(rest, b);
        assert forall|i: int| 0 <= i < gs.len() implies wkbs_abs(gs, b)[i] == gs[i].abs(b) by {
            if i > 0 {
                assert(rest[i - 1] == gs[i]);
            }
        };
    }
}

/// Parses a WKB byte buffer into a geometry view.
///
/// WKB is not a zero-copy format: coordinates are unaligned, and one
/// forward scan is needed to learn internal offsets. This function makes
/// that scan, validating the record and recording offsets without copying
/// coordinate bytes, so every later coordinate access is constant-time.
pub fn read_wkb(buf: &[u8]) -> (r: Result<Wkb, WKBError>)
    ensures
        match r {
            Ok(w) => {
                &&& dec_geometry(buf@, 0) matches Ok((g, _)) && g == w.abs(buf@)
                &&& w.wf(buf@)
            },
            Err(e) => dec_geometry(buf@, 0) == Err::<(GeometryModel, int), _>(e),
        },
{
    Wkb::try_new(buf)
}

} // verus!
