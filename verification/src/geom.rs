//! The in-memory geometry model the encoder consumes and the decoder's
//! abstract form.
//!
//! Each coordinate axis is carried as the 64 raw bits of an IEEE-754 double,
//! so the whole model is plain integer data. Alongside each executable type
//! stands its mathematical model over `Seq`, which the contracts speak of.

use vstd::prelude::*;

use crate::bytes::is_nan_bits;
use crate::common::WKBDimension;

verus! {

/// Mathematical model of a point: an optional coordinate of
/// `dim.size()` axes. `None` is the empty point.
pub struct PointModel {
    pub dim: WKBDimension,
    pub coord: Option<Seq<u64>>,
}

/// Mathematical model of a line string: a sequence of coordinates.
pub struct LineStringModel {
    pub dim: WKBDimension,
    pub coords: Seq<Seq<u64>>,
}

/// Mathematical model of a polygon: its rings in encoding order. Ring 0 is
/// the exterior; an explicitly empty polygon has no rings at all.
pub struct PolygonModel {
    pub dim: WKBDimension,
    pub rings: Seq<Seq<Seq<u64>>>,
}

/// Mathematical model of a multi point.
pub struct MultiPointModel {
    pub dim: WKBDimension,
    pub points: Seq<PointModel>,
}

/// Mathematical model of a multi line string.
pub struct MultiLineStringModel {
    pub dim: WKBDimension,
    pub line_strings: Seq<LineStringModel>,
}

/// Mathematical model of a multi polygon.
pub struct MultiPolygonModel {
    pub dim: WKBDimension,
    pub polygons: Seq<PolygonModel>,
}

/// Mathematical model of a geometry collection: members of any kind,
/// including nested collections.
pub struct GeometryCollectionModel {
    pub dim: WKBDimension,
    pub geometries: Seq<GeometryModel>,
}

/// Mathematical model of a geometry of any of the seven kinds.
pub enum GeometryModel {
    Point(PointModel),
    LineString(LineStringModel),
    Polygon(PolygonModel),
    MultiPoint(MultiPointModel),
    MultiLineString(MultiLineStringModel),
    MultiPolygon(MultiPolygonModel),
    GeometryCollection(GeometryCollectionModel),
}

/// Whether every axis of a coordinate is a NaN double: the sentinel the
/// format uses for an empty point.
pub open spec fn all_nan(c: Seq<u64>) -> bool {
    forall|i: int| 0 <= i < c.len() ==> is_nan_bits(#[trigger] c[i])
}

/// A coordinate is well-formed when it stores exactly the width of its
/// dimensionality.
pub open spec fn coord_wf(c: Seq<u64>, dim: WKBDimension) -> bool {
    c.len() == dim.spec_size()
}

/// All coordinates of a sequence are well-formed for `dim`.
pub open spec fn coords_wf(cs: Seq<Seq<u64>>, dim: WKBDimension) -> bool {
    forall|i: int| 0 <= i < cs.len() ==> coord_wf(#[trigger] cs[i], dim)
}

impl PointModel {
    /// A present coordinate has the right width and is not all NaN — the
    /// all-NaN pattern is reserved for the empty point, which is `None`.
    pub open spec fn wf(self) -> bool {
        match self.coord {
            None => true,
            Some(c) => coord_wf(c, self.dim) && !all_nan(c),
        }
    }
}

impl LineStringModel {
    /// Coordinates have the right width and the count fits the 32-bit count
    /// field.
    pub open spec fn wf(self) -> bool {
        coords_wf(self.coords, self.dim) && self.coords.len() <= u32::MAX
    }
}

impl PolygonModel {
    /// Every ring's coordinates have the right width, and the ring count and
    /// every point count fit their 32-bit count fields.
    pub open spec fn wf(self) -> bool {
        &&& self.rings.len() <= u32::MAX
        &&& forall|i: int|
            0 <= i < self.rings.len() ==> coords_wf(#[trigger] self.rings[i], self.dim)
                && self.rings[i].len() <= u32::MAX
    }
}

impl MultiPointModel {
    /// Every member is a well-formed point of the same dimensionality as the
    /// container (member records of a multi point have a uniform size, which
    /// is what gives constant-time member access).
    pub open spec fn wf(self) -> bool {
        &&& self.points.len() <= u32::MAX
        &&& forall|i: int|
            0 <= i < self.points.len() ==> (#[trigger] self.points[i]).wf() && self.points[i].dim
                == self.dim
    }
}

impl MultiLineStringModel {
    /// Every member is a well-formed line string.
    pub open spec fn wf(self) -> bool {
        &&& self.line_strings.len() <= u32::MAX
        &&& forall|i: int| 0 <= i < self.line_strings.len() ==> (#[trigger] self.line_strings[i]).wf()
    }
}

impl MultiPolygonModel {
    /// Every member is a well-formed polygon.
    pub open spec fn wf(self) -> bool {
        &&& self.polygons.len() <= u32::MAX
        &&& forall|i: int| 0 <= i < self.polygons.len() ==> (#[trigger] self.polygons[i]).wf()
    }
}

impl GeometryModel {
    /// Structural well-formedness: coordinate widths match the declared
    /// dimensionalities and every count fits its 32-bit count field.
    pub open spec fn wf(self) -> bool
        decreases self,
    {
        match self {
            GeometryModel::Point(p) => p.wf(),
            GeometryModel::LineString(ls) => ls.wf(),
            GeometryModel::Polygon(p) => p.wf(),
            GeometryModel::MultiPoint(mp) => mp.wf(),
            GeometryModel::MultiLineString(mls) => mls.wf(),
            GeometryModel::MultiPolygon(mp) => mp.wf(),
            GeometryModel::GeometryCollection(c) => {
                &&& c.geometries.len() <= u32::MAX
                &&& forall|i: int|
                    0 <= i < c.geometries.len() ==> (#[trigger] c.geometries[i]).wf()
            },
        }
    }

    /// The dimensionality a geometry declares.
    pub open spec fn dim(self) -> WKBDimension {
        match self {
            GeometryModel::Point(p) => p.dim,
            GeometryModel::LineString(ls) => ls.dim,
            GeometryModel::Polygon(p) => p.dim,
            GeometryModel::MultiPoint(mp) => mp.dim,
            GeometryModel::MultiLineString(mls) => mls.dim,
            GeometryModel::MultiPolygon(mp) => mp.dim,
            GeometryModel::GeometryCollection(c) => c.dim,
        }
    }
}

/// A point the encoder consumes: an optional coordinate whose axes are
/// double bit patterns. `None` encodes as `dim.size()` NaN doubles.
#[derive(Clone, Debug, PartialEq)]
pub struct Point {
    pub dim: WKBDimension,
    pub coord: Option<Vec<u64>>,
}

/// A line string the encoder consumes.
#[derive(Clone, Debug, PartialEq)]
pub struct LineString {
    pub dim: WKBDimension,
    pub coords: Vec<Vec<u64>>,
}

/// A polygon the encoder consumes: rings in encoding order, ring 0 the
/// exterior. No rings at all is the explicitly empty polygon.
#[derive(Clone, Debug, PartialEq)]
pub struct Polygon {
    pub dim: WKBDimension,
    pub rings: Vec<Vec<Vec<u64>>>,
}

/// A multi point the encoder consumes.
#[derive(Clone, Debug, PartialEq)]
pub struct MultiPoint {
    pub dim: WKBDimension,
    pub points: Vec<Point>,
}

/// A multi line string the encoder consumes.
#[derive(Clone, Debug, PartialEq)]
pub struct MultiLineString {
    pub dim: WKBDimension,
    pub line_strings: Vec<LineString>,
}

/// A multi polygon the encoder consumes.
#[derive(Clone, Debug, PartialEq)]
pub struct MultiPolygon {
    pub dim: WKBDimension,
    pub polygons: Vec<Polygon>,
}

/// A geometry collection the encoder consumes.
#[derive(Debug, PartialEq)]
pub struct GeometryCollection {
    pub dim: WKBDimension,
    pub geometries: Vec<Geometry>,
}

/// A geometry of any of the seven kinds.
#[derive(Debug, PartialEq)]
pub enum Geometry {
    Point(Point),
    LineString(LineString),
    Polygon(Polygon),
    MultiPoint(MultiPoint),
    MultiLineString(MultiLineString),
    MultiPolygon(MultiPolygon),
    GeometryCollection(GeometryCollection),
}

impl View for Point {
    type V = PointModel;

    open spec fn view(&self) -> PointModel {
        PointModel {
            dim: self.dim,
            coord: match self.coord {
                None => None,
                Some(c) => Some(c@),
            },
        }
    }
}

impl DeepView for Point {
    type V = PointModel;

    open spec fn deep_view(&self) -> PointModel {
        self.view()
    }
}

/// The sequence of coordinates a `Vec` of coordinates denotes.
pub open spec fn coords_view(v: Vec<Vec<u64>>) -> Seq<Seq<u64>> {
    Seq::new(v@.len(), |i: int| v@[i]@)
}

/// The sequence of rings a `Vec` of rings denotes.
pub open spec fn rings_view(v: Vec<Vec<Vec<u64>>>) -> Seq<Seq<Seq<u64>>> {
    Seq::new(v@.len(), |i: int| coords_view(v@[i]))
}

impl View for LineString {
    type V = LineStringModel;

    open spec fn view(&self) -> LineStringModel {
        LineStringModel { dim: self.dim, coords: coords_view(self.coords) }
    }
}

impl DeepView for LineString {
    type V = LineStringModel;

    open spec fn deep_view(&self) -> LineStringModel {
        self.view()
    }
}

impl View for Polygon {
    type V = PolygonModel;

    open spec fn view(&self) -> PolygonModel {
        PolygonModel { dim: self.dim, rings: rings_view(self.rings) }
    }
}

impl DeepView for Polygon {
    type V = PolygonModel;

    open spec fn deep_view(&self) -> PolygonModel {
        self.view()
    }
}

impl View for MultiPoint {
    type V = MultiPointModel;

    open spec fn view(&self) -> MultiPointModel {
        MultiPointModel { dim: self.dim, points: self.points.deep_view() }
    }
}

impl DeepView for MultiPoint {
    type V = MultiPointModel;

    open spec fn deep_view(&self) -> MultiPointModel {
        self.view()
    }
}

impl View for MultiLineString {
    type V = MultiLineStringModel;

    open spec fn view(&self) -> MultiLineStringModel {
        MultiLineStringModel { dim: self.dim, line_strings: self.line_strings.deep_view() }
    }
}

impl DeepView for MultiLineString {
    type V = MultiLineStringModel;

    open spec fn deep_view(&self) -> MultiLineStringModel {
        self.view()
    }
}

impl View for MultiPolygon {
    type V = MultiPolygonModel;

    open spec fn view(&self) -> MultiPolygonModel {
        MultiPolygonModel { dim: self.dim, polygons: self.polygons.deep_view() }
    }
}

impl DeepView for MultiPolygon {
    type V = MultiPolygonModel;

    open spec fn deep_view(&self) -> MultiPolygonModel {
        self.view()
    }
}

/// The model of each member of a collection, in order.
pub open spec fn geometries_model(gs: Seq<Geometry>) -> Seq<GeometryModel>
    decreases gs,
{
    if gs.len() == 0 {
        Seq::empty()
    } else {
        seq![geometry_model(gs[0])] + geometries_model(gs.subrange(1, gs.len() as int))
    }
}

/// Membership of `geometries_model`: the model sequence has the same length
/// and is the member model pointwise.
pub proof fn lemma_geometries_model(gs: Seq<Geometry>)
    ensures
        geometries_model(gs).len() == gs.len(),
        forall|i: int| 0 <= i < gs.len() ==> geometries_model(gs)[i] == geometry_model(gs[i]),
    decreases gs,
{
    if gs.len() > 0 {
        let rest = gs.subrange(1, gs.len() as int);
        lemma_geometries_model(rest);
        assert forall|i: int| 0 <= i < gs.len() implies geometries_model(gs)[i] == geometry_model(
            gs[i],
        ) by {
            if i > 0 {
                assert(rest[i - 1] == gs[i]);
            }
        };
    }
}

/// The mathematical model of a geometry value.
pub open spec fn geometry_model(g: Geometry) -> GeometryModel
    decreases g,
{
    match g {
        Geometry::Point(p) => GeometryModel::Point(p@),
        Geometry::LineString(ls) => GeometryModel::LineString(ls@),
        Geometry::Polygon(p) => GeometryModel::Polygon(p@),
        Geometry::MultiPoint(mp) => GeometryModel::MultiPoint(mp@),
        Geometry::MultiLineString(mls) => GeometryModel::MultiLineString(mls@),
        Geometry::MultiPolygon(mp) => GeometryModel::MultiPolygon(mp@),
        Geometry::GeometryCollection(c) => GeometryModel::GeometryCollection(
            GeometryCollectionModel { dim: c.dim, geometries: geometries_model(c.geometries@) },
        ),
    }
}

impl View for GeometryCollection {
    type V = GeometryCollectionModel;

    open spec fn view(&self) -> GeometryCollectionModel {
        GeometryCollectionModel { dim: self.dim, geometries: geometries_model(self.geometries@) }
    }
}

impl DeepView for GeometryCollection {
    type V = GeometryCollectionModel;

    open spec fn deep_view(&self) -> GeometryCollectionModel {
        self.view()
    }
}

impl View for Geometry {
    type V = GeometryModel;

    open spec fn view(&self) -> GeometryModel {
        geometry_model(*self)
    }
}

impl DeepView for Geometry {
    type V = GeometryModel;

    open spec fn deep_view(&self) -> GeometryModel {
        self.view()
    }
}

/// Whether every axis of a coordinate is a NaN double.
fn coord_all_nan(c: &Vec<u64>) -> (r: bool)
    ensures
        r == all_nan(c@),
{
    let n = c.len();
    for i in 0..n
        invariant
            n == c@.len(),
            forall|k: int| 0 <= k < i ==> is_nan_bits(#[trigger] c@[k]),
    {
        if !crate::bytes::u64_is_nan_bits(c[i]) {
            proof {
                assert(!is_nan_bits(c@[i as int]));
            }
            return false;
        }
    }
    true
}

/// Whether every coordinate of a run has the width of `dim`.
fn coords_check(cs: &Vec<Vec<u64>>, dim: WKBDimension) -> (r: bool)
    ensures
        r == coords_wf(coords_view(*cs), dim),
{
    let n = cs.len();
    let w = dim.size();
    for i in 0..n
        invariant
            n == cs@.len(),
            w == dim.spec_size(),
            forall|k: int| 0 <= k < i ==> coord_wf(#[trigger] coords_view(*cs)[k], dim),
    {
        if cs[i].len() != w {
            proof {
                assert(!coord_wf(coords_view(*cs)[i as int], dim));
            }
            return false;
        }
    }
    true
}

impl Point {
    /// Whether this point is well-formed: a present coordinate has the
    /// right width and is not the reserved all-NaN pattern.
    pub fn is_wf(&self) -> (r: bool)
        ensures
            r == self@.wf(),
    {
        match &self.coord {
            None => true,
            Some(c) => c.len() == self.dim.size() && !coord_all_nan(c),
        }
    }
}

impl LineString {
    /// Whether this line string is well-formed: coordinate widths match and
    /// the count fits the 32-bit count field.
    pub fn is_wf(&self) -> (r: bool)
        ensures
            r == self@.wf(),
    {
        self.coords.len() <= u32::MAX as usize && coords_check(&self.coords, self.dim)
    }
}

impl Polygon {
    /// Whether this polygon is well-formed: every ring's widths match and
    /// every count fits its 32-bit count field.
    pub fn is_wf(&self) -> (r: bool)
        ensures
            r == self@.wf(),
    {
        if self.rings.len() > u32::MAX as usize {
            return false;
        }
        let n = self.rings.len();
        for i in 0..n
            invariant
                n == self.rings@.len(),
                forall|k: int|
                    0 <= k < i ==> coords_wf(#[trigger] rings_view(self.rings)[k], self.dim)
                        && rings_view(self.rings)[k].len() <= u32::MAX,
        {
            if self.rings[i].len() > u32::MAX as usize || !coords_check(&self.rings[i], self.dim) {
                proof {
                    assert(rings_view(self.rings)[i as int] == coords_view(self.rings@[i as int]));
                }
                return false;
            }
        }
        true
    }
}

impl MultiPoint {
    /// Whether this multi point is well-formed: every member is a
    /// well-formed point of the container's dimensionality.
    pub fn is_wf(&self) -> (r: bool)
        ensures
            r == self@.wf(),
    {
        if self.points.len() > u32::MAX as usize {
            return false;
        }
        let n = self.points.len();
        for i in 0..n
            invariant
                n == self.points@.len(),
                forall|k: int|
                    0 <= k < i ==> (#[trigger] self.points.deep_view()[k]).wf()
                        && self.points.deep_view()[k].dim == self.dim,
        {
            if !(self.points[i].is_wf() && self.points[i].dim == self.dim) {
                proof {
                    assert(self.points.deep_view()[i as int] == self.points@[i as int]@);
                }
                return false;
            }
        }
        true
    }
}

impl MultiLineString {
    /// Whether this multi line string is well-formed: every member is.
    pub fn is_wf(&self) -> (r: bool)
        ensures
            r == self@.wf(),
    {
        if self.line_strings.len() > u32::MAX as usize {
            return false;
        }
        let n = self.line_strings.len();
        for i in 0..n
            invariant
                n == self.line_strings@.len(),
                forall|k: int|
                    0 <= k < i ==> (#[trigger] self.line_strings.deep_view()[k]).wf(),
        {
            if !self.line_strings[i].is_wf() {
                proof {
                    assert(self.line_strings.deep_view()[i as int]
                        == self.line_strings@[i as int]@);
                }
                return false;
            }
        }
        true
    }
}

impl MultiPolygon {
    /// Whether this multi polygon is well-formed: every member is.
    pub fn is_wf(&self) -> (r: bool)
        ensures
            r == self@.wf(),
    {
        if self.polygons.len() > u32::MAX as usize {
            return false;
        }
        let n = self.polygons.len();
        for i in 0..n
            invariant
                n == self.polygons@.len(),
                forall|k: int| 0 <= k < i ==> (#[trigger] self.polygons.deep_view()[k]).wf(),
        {
            if !self.polygons[i].is_wf() {
                proof {
                    assert(self.polygons.deep_view()[i as int] == self.polygons@[i as int]@);
                }
                return false;
            }
        }
        true
    }
}

impl GeometryCollection {
    /// Whether this collection is well-formed: every member geometry is.
    pub fn is_wf(&self) -> (r: bool)
        ensures
            r == GeometryModel::GeometryCollection(self@).wf(),
        decreases self, 0int,
    {
        proof {
            lemma_geometries_model(self.geometries@);
        }
        if self.geometries.len() > u32::MAX as usize {
            return false;
        }
        let n = self.geometries.len();
        for i in 0..n
            invariant
                n == self.geometries@.len(),
                geometries_model(self.geometries@).len() == n,
                forall|k: int|
                    0 <= k < n ==> geometries_model(self.geometries@)[k] == geometry_model(
                        self.geometries@[k],
                    ),
                forall|k: int|
                    0 <= k < i ==> (#[trigger] geometries_model(self.geometries@)[k]).wf(),
            decreases n - i,
        {
            if !self.geometries[i].is_wf() {
                proof {
                    assert(!(geometries_model(self.geometries@)[i as int]).wf());
                }
                return false;
            }
        }
        true
    }
}

impl Geometry {
    /// Whether this geometry is well-formed: coordinate widths match their
    /// declared dimensionalities and every count fits its 32-bit count
    /// field. Encoding expects a well-formed geometry.
    pub fn is_wf(&self) -> (r: bool)
        ensures
            r == self@.wf(),
        decreases self, 1int,
    {
        match self {
            Geometry::Point(p) => p.is_wf(),
            Geometry::LineString(ls) => ls.is_wf(),
            Geometry::Polygon(p) => p.is_wf(),
            Geometry::MultiPoint(mp) => mp.is_wf(),
            Geometry::MultiLineString(mls) => mls.is_wf(),
            Geometry::MultiPolygon(mp) => mp.is_wf(),
            Geometry::GeometryCollection(c) => c.is_wf(),
        }
    }
}

/// An axis-aligned rectangle given by its minimum and maximum corners, as
/// double bit patterns. The format has no tag for it; it encodes as a
/// polygon with one closed 5-point exterior ring.
#[derive(Clone, Copy, Debug, PartialEq)]
pub struct Rect {
    pub min_x: u64,
    pub min_y: u64,
    pub max_x: u64,
    pub max_y: u64,
}

/// The closed 5-point ring a rectangle encodes as: minimum corner, up,
/// across, down, and back to the minimum corner.
pub open spec fn rect_ring(r: Rect) -> Seq<Seq<u64>> {
    seq![
        seq![r.min_x, r.min_y],
        seq![r.min_x, r.max_y],
        seq![r.max_x, r.max_y],
        seq![r.max_x, r.min_y],
        seq![r.min_x, r.min_y],
    ]
}

/// A triangle given by its three vertices. The format has no tag for it; it
/// encodes as a polygon with a single 3-point exterior ring (ring closure is
/// left implicit).
#[derive(Clone, Debug, PartialEq)]
pub struct Triangle {
    pub dim: WKBDimension,
    pub first: Vec<u64>,
    pub second: Vec<u64>,
    pub third: Vec<u64>,
}

/// The 3-point ring a triangle encodes as.
pub open spec fn triangle_ring(t: Triangle) -> Seq<Seq<u64>> {
    seq![t.first@, t.second@, t.third@]
}

impl Triangle {
    /// Vertices have the width of the declared dimensionality.
    pub open spec fn wf(self) -> bool {
        coord_wf(self.first@, self.dim) && coord_wf(self.second@, self.dim) && coord_wf(
            self.third@,
            self.dim,
        )
    }
}

/// A line segment given by its two endpoints. The format has no tag for it;
/// it encodes as a 2-point line string.
#[derive(Clone, Debug, PartialEq)]
pub struct Line {
    pub dim: WKBDimension,
    pub start: Vec<u64>,
    pub end: Vec<u64>,
}

/// The 2-point coordinate sequence a line segment encodes as.
pub open spec fn line_coords(l: Line) -> Seq<Seq<u64>> {
    seq![l.start@, l.end@]
}

impl Line {
    /// Endpoints have the width of the declared dimensionality.
    pub open spec fn wf(self) -> bool {
        coord_wf(self.start@, self.dim) && coord_wf(self.end@, self.dim)
    }
}

impl Geometry {
    /// The dimensionality a geometry declares.
    pub fn dimension(&self) -> (r: WKBDimension)
        ensures
            r == self@.dim(),
    {
        match self {
            Geometry::Point(p) => p.dim,
            Geometry::LineString(ls) => ls.dim,
            Geometry::Polygon(p) => p.dim,
            Geometry::MultiPoint(mp) => mp.dim,
            Geometry::MultiLineString(mls) => mls.dim,
            Geometry::MultiPolygon(mp) => mp.dim,
            Geometry::GeometryCollection(c) => c.dim,
        }
    }
}

} // verus!
