//! The type, dimension and byte-order model shared by the decoder and the
//! encoder: numeric type tags, coordinate widths, and the typed errors.

use vstd::prelude::*;

verus! {

/// Errors arising while decoding or encoding WKB bytes.
///
/// Every failure is a deterministic function of the input bytes; decoding
/// never panics on malformed input.
#[derive(Clone, Copy, Debug, PartialEq, Eq, Structural)]
pub enum WKBError {
    /// The leading byte of a record is neither 0 (big-endian) nor 1
    /// (little-endian).
    InvalidByteOrder,
    /// The kind or dimension portion of a type tag is out of range.
    InvalidTypeTag,
    /// A dimensionality that the format cannot represent.
    UnsupportedDimensionality,
    /// A read would exceed the buffer bounds.
    TruncatedBuffer,
    /// A structural inconsistency, e.g. a collection member whose kind does
    /// not match what its container requires.
    Malformed,
}

/// Supported WKB dimensions.
#[derive(Clone, Copy, Debug, PartialEq, Eq, Structural)]
pub enum WKBDimension {
    Xy,
    Xyz,
    Xym,
    Xyzm,
}

impl WKBDimension {
    /// The dimension portion of a type tag: 0, 1000, 2000 or 3000.
    pub open spec fn spec_as_u32_offset(&self) -> u32 {
        match self {
            WKBDimension::Xy => 0,
            WKBDimension::Xyz => 1000,
            WKBDimension::Xym => 2000,
            WKBDimension::Xyzm => 3000,
        }
    }

    /// The dimension portion of a type tag.
    #[verifier::when_used_as_spec(spec_as_u32_offset)]
    pub fn as_u32_offset(&self) -> (r: u32)
        ensures
            r == self.spec_as_u32_offset(),
    {
        match self {
            WKBDimension::Xy => 0,
            WKBDimension::Xyz => 1000,
            WKBDimension::Xym => 2000,
            WKBDimension::Xyzm => 3000,
        }
    }

    /// How many doubles one coordinate of this dimensionality stores.
    ///
    /// XYM stores 3 because the measure axis is stored alongside X and Y;
    /// the width counts stored doubles, not spatial axes.
    pub open spec fn spec_size(&self) -> usize {
        match self {
            WKBDimension::Xy => 2,
            WKBDimension::Xyz => 3,
            WKBDimension::Xym => 3,
            WKBDimension::Xyzm => 4,
        }
    }

    /// How many doubles one coordinate of this dimensionality stores.
    #[verifier::when_used_as_spec(spec_size)]
    pub fn size(&self) -> (r: usize)
        ensures
            r == self.spec_size(),
    {
        match self {
            WKBDimension::Xy => 2,
            WKBDimension::Xyz | WKBDimension::Xym => 3,
            WKBDimension::Xyzm => 4,
        }
    }

    /// Maps an axis count reported by a host geometry model to a
    /// dimensionality, as far as the format can represent it.
    ///
    /// Two axes are XY, three are XYZ (a bare axis count cannot express XYM),
    /// four are XYZM; anything else is `UnsupportedDimensionality`.
    pub fn try_from_axis_count(count: u32) -> (r: Result<WKBDimension, WKBError>)
        ensures
            count == 2 ==> r == Ok::<_, WKBError>(WKBDimension::Xy),
            count == 3 ==> r == Ok::<_, WKBError>(WKBDimension::Xyz),
            count == 4 ==> r == Ok::<_, WKBError>(WKBDimension::Xyzm),
            count != 2 && count != 3 && count != 4 ==> r == Err::<WKBDimension, _>(
                WKBError::UnsupportedDimensionality,
            ),
    {
        match count {
            2 => Ok(WKBDimension::Xy),
            3 => Ok(WKBDimension::Xyz),
            4 => Ok(WKBDimension::Xyzm),
            _ => Err(WKBError::UnsupportedDimensionality),
        }
    }
}

/// The geometry kinds the format enumerates, each carrying its
/// dimensionality; together they form the type tag.
#[derive(Clone, Copy, Debug, PartialEq, Eq, Structural)]
pub enum WKBType {
    /// A WKB Point
    Point(WKBDimension),
    /// A WKB LineString
    LineString(WKBDimension),
    /// A WKB Polygon
    Polygon(WKBDimension),
    /// A WKB MultiPoint
    MultiPoint(WKBDimension),
    /// A WKB MultiLineString
    MultiLineString(WKBDimension),
    /// A WKB MultiPolygon
    MultiPolygon(WKBDimension),
    /// A WKB GeometryCollection
    GeometryCollection(WKBDimension),
}

impl WKBType {
    /// The kind portion of the type tag, in 1..=7.
    pub open spec fn spec_kind_code(&self) -> u32 {
        match self {
            WKBType::Point(_) => 1,
            WKBType::LineString(_) => 2,
            WKBType::Polygon(_) => 3,
            WKBType::MultiPoint(_) => 4,
            WKBType::MultiLineString(_) => 5,
            WKBType::MultiPolygon(_) => 6,
            WKBType::GeometryCollection(_) => 7,
        }
    }

    /// The dimensionality this tag carries.
    pub open spec fn spec_dimension(&self) -> WKBDimension {
        match *self {
            WKBType::Point(dim) => dim,
            WKBType::LineString(dim) => dim,
            WKBType::Polygon(dim) => dim,
            WKBType::MultiPoint(dim) => dim,
            WKBType::MultiLineString(dim) => dim,
            WKBType::MultiPolygon(dim) => dim,
            WKBType::GeometryCollection(dim) => dim,
        }
    }

    /// The numeric type tag: kind code plus dimension offset.
    pub open spec fn spec_as_u32(&self) -> u32 {
        (self.spec_kind_code() + self.spec_dimension().spec_as_u32_offset()) as u32
    }

    /// Encodes this type as its numeric tag. Total; never fails.
    #[verifier::when_used_as_spec(spec_as_u32)]
    pub fn as_u32(&self) -> (r: u32)
        ensures
            r == self.spec_as_u32(),
    {
        match self {
            WKBType::Point(dim) => 1 + dim.as_u32_offset(),
            WKBType::LineString(dim) => 2 + dim.as_u32_offset(),
            WKBType::Polygon(dim) => 3 + dim.as_u32_offset(),
            WKBType::MultiPoint(dim) => 4 + dim.as_u32_offset(),
            WKBType::MultiLineString(dim) => 5 + dim.as_u32_offset(),
            WKBType::MultiPolygon(dim) => 6 + dim.as_u32_offset(),
            WKBType::GeometryCollection(dim) => 7 + dim.as_u32_offset(),
        }
    }

    /// Whether a numeric tag denotes a (kind, dimension) pair: the dimension
    /// portion `value / 1000` must be at most 3 and the kind portion
    /// `value % 1000` must lie in 1..=7.
    pub open spec fn spec_tag_valid(value: u32) -> bool {
        value / 1000 <= 3 && 1 <= value % 1000 <= 7
    }

    /// The (kind, dimension) pair a valid numeric tag denotes.
    pub open spec fn spec_from_u32(value: u32) -> WKBType {
        let dim = if value / 1000 == 0 {
            WKBDimension::Xy
        } else if value / 1000 == 1 {
            WKBDimension::Xyz
        } else if value / 1000 == 2 {
            WKBDimension::Xym
        } else {
            WKBDimension::Xyzm
        };
        if value % 1000 == 1 {
            WKBType::Point(dim)
        } else if value % 1000 == 2 {
            WKBType::LineString(dim)
        } else if value % 1000 == 3 {
            WKBType::Polygon(dim)
        } else if value % 1000 == 4 {
            WKBType::MultiPoint(dim)
        } else if value % 1000 == 5 {
            WKBType::MultiLineString(dim)
        } else if value % 1000 == 6 {
            WKBType::MultiPolygon(dim)
        } else {
            WKBType::GeometryCollection(dim)
        }
    }

    /// Decodes a numeric type tag.
    ///
    /// Values 1..=7 are XY, 1001..=1007 are XYZ, 2001..=2007 are XYM and
    /// 3001..=3007 are XYZM; everything else is `InvalidTypeTag`.
    pub fn try_from_u32(value: u32) -> (r: Result<WKBType, WKBError>)
        ensures
            Self::spec_tag_valid(value) ==> r == Ok::<_, WKBError>(Self::spec_from_u32(value)),
            !Self::spec_tag_valid(value) ==> r == Err::<WKBType, _>(WKBError::InvalidTypeTag),
    {
        let dim = match value / 1000 {
            0 => WKBDimension::Xy,
            1 => WKBDimension::Xyz,
            2 => WKBDimension::Xym,
            3 => WKBDimension::Xyzm,
            _ => {
                return Err(WKBError::InvalidTypeTag);
            },
        };
        let typ = match value % 1000 {
            1 => WKBType::Point(dim),
            2 => WKBType::LineString(dim),
            3 => WKBType::Polygon(dim),
            4 => WKBType::MultiPoint(dim),
            5 => WKBType::MultiLineString(dim),
            6 => WKBType::MultiPolygon(dim),
            7 => WKBType::GeometryCollection(dim),
            _ => {
                return Err(WKBError::InvalidTypeTag);
            },
        };
        Ok(typ)
    }
}

/// Tag round-trip law: every (kind, dimension) pair encodes to a valid
/// numeric tag, and decoding that tag gives the pair back.
pub proof fn lemma_type_tag_roundtrip(t: WKBType)
    ensures
        WKBType::spec_tag_valid(t.spec_as_u32()),
        WKBType::spec_from_u32(t.spec_as_u32()) == t,
{
}

/// Every valid numeric tag decodes to a pair that encodes back to the same
/// tag: the numeric tag and the (kind, dimension) pair are in bijection.
pub proof fn lemma_type_tag_roundtrip_u32(value: u32)
    requires
        WKBType::spec_tag_valid(value),
    ensures
        WKBType::spec_from_u32(value).spec_as_u32() == value,
{
    let t = WKBType::spec_from_u32(value);
    assert(t.spec_as_u32() == value) by {
        assert(value == 1000 * (value / 1000) + value % 1000);
    };
}

/// Endianness of one WKB record: the leading byte of the record.
#[derive(Clone, Copy, Debug, PartialEq, Eq, Structural)]
pub enum Endianness {
    BigEndian,
    LittleEndian,
}

impl Default for Endianness {
    /// Little-endian is the conventional default for writing.
    fn default() -> (r: Self)
        ensures
            r == Endianness::LittleEndian,
    {
        Endianness::LittleEndian
    }
}

impl Endianness {
    /// The byte-order byte: 0 is big-endian, 1 is little-endian.
    pub open spec fn spec_as_u8(&self) -> u8 {
        match self {
            Endianness::BigEndian => 0,
            Endianness::LittleEndian => 1,
        }
    }

    /// The byte-order byte: 0 is big-endian, 1 is little-endian.
    #[verifier::when_used_as_spec(spec_as_u8)]
    pub fn as_u8(&self) -> (r: u8)
        ensures
            r == self.spec_as_u8(),
    {
        match self {
            Endianness::BigEndian => 0,
            Endianness::LittleEndian => 1,
        }
    }

    /// Decodes the byte-order byte; any value other than 0 or 1 is
    /// `InvalidByteOrder`.
    pub fn try_from_u8(value: u8) -> (r: Result<Endianness, WKBError>)
        ensures
            value == 0 ==> r == Ok::<_, WKBError>(Endianness::BigEndian),
            value == 1 ==> r == Ok::<_, WKBError>(Endianness::LittleEndian),
            value != 0 && value != 1 ==> r == Err::<Endianness, _>(WKBError::InvalidByteOrder),
    {
        match value {
            0 => Ok(Endianness::BigEndian),
            1 => Ok(Endianness::LittleEndian),
            _ => Err(WKBError::InvalidByteOrder),
        }
    }
}

} // verus!
