//! The bridge to the geometry, codec and geohash libraries. Everything that
//! touches a floating-point coordinate lives behind the trusted wrappers
//! here; the rest of the crate reads a geometry only through its
//! [`GeometryKind`].

use vstd::prelude::*;

use crate::numeric::{is_decimal, magnitude_exceeds};
use crate::tag::is_geohash_text;

verus! {

/// A canonical geometry value as built by the geometry library, with
/// coordinates in (longitude, latitude) order. Opaque to verification: the
/// library's own decisions read it only through its kind.
#[verifier::external_body]
pub struct CanonicalGeometry {
    inner: geo_types::Geometry,
}

/// The variant of a canonical geometry. The wrappers canonicalize the
/// geometry library's special forms: a line segment counts as a line
/// string, a rectangle or triangle as a polygon.
#[derive(Clone, Copy, Debug, PartialEq, Eq, Structural)]
pub enum GeometryKind {
    Point,
    LineString,
    Polygon,
    MultiPoint,
    MultiLineString,
    MultiPolygon,
    GeometryCollection,
}

/// A polygonal kind: the only kinds a `contains` query may have.
pub open spec fn is_areal(k: GeometryKind) -> bool {
    k == GeometryKind::Polygon || k == GeometryKind::MultiPolygon
}

/// One canonical geometry together with its variant, the one piece of it
/// that the library's decisions read.
pub struct Geometry {
    pub value: CanonicalGeometry,
    pub kind: GeometryKind,
}

/// Relies on geo_types::Geometry: telling its variants apart. `Line`
/// becomes a line string; `Rect` and `Triangle` become polygons.
#[verifier::external_body]
fn kind_of(g: &CanonicalGeometry) -> GeometryKind {
    match &g.inner {
        geo_types::Geometry::Point(_) => GeometryKind::Point,
        geo_types::Geometry::Line(_) => GeometryKind::LineString,
        geo_types::Geometry::LineString(_) => GeometryKind::LineString,
        geo_types::Geometry::Polygon(_) => GeometryKind::Polygon,
        geo_types::Geometry::MultiPoint(_) => GeometryKind::MultiPoint,
        geo_types::Geometry::MultiLineString(_) => GeometryKind::MultiLineString,
        geo_types::Geometry::MultiPolygon(_) => GeometryKind::MultiPolygon,
        geo_types::Geometry::GeometryCollection(_) => GeometryKind::GeometryCollection,
        geo_types::Geometry::Rect(_) => GeometryKind::Polygon,
        geo_types::Geometry::Triangle(_) => GeometryKind::Polygon,
    }
}

impl Geometry {
    /// Pairs a freshly converted canonical geometry with its variant.
    pub fn from_canonical(value: CanonicalGeometry) -> (g: Geometry)
        ensures
            g.value == value,
    {
        let kind = kind_of(&value);
        Geometry { value, kind }
    }
}

#[verifier::external_type_specification]
#[verifier::external_body]
pub struct ExGeoJsonValue(geojson::GeometryValue);

/// Relies on geojson::GeometryValue: whether every position of the value
/// holds at least two coordinates. The geojson grammar admits shorter
/// positions, which the geo_types conversion rejects by panicking, so the
/// conversion wrappers refuse them first.
#[verifier::external_body]
fn positions_well_formed(v: &geojson::GeometryValue) -> bool {
    let ok = |p: &geojson::Position| p.len() >= 2;
    match v {
        geojson::Value::Point { coordinates: c } => ok(c),
        geojson::Value::MultiPoint { coordinates: c } => c.iter().all(ok),
        geojson::Value::LineString { coordinates: c } => c.iter().all(ok),
        geojson::Value::MultiLineString { coordinates: c } => c.iter().flatten().all(ok),
        geojson::Value::Polygon { coordinates: c } => c.iter().flatten().all(ok),
        geojson::Value::MultiPolygon { coordinates: c } => c.iter().flatten().flatten().all(ok),
        geojson::Value::GeometryCollection { geometries } => geometries.iter().all(|g| positions_well_formed(&g.value)),
    }
}

// ------------------------------------------------------------------
// Decoding: text to canonical geometry
// ------------------------------------------------------------------
/// The point geometry built for the two decimal component texts of a
/// "lat,lon" line: a function of the texts alone.
pub uninterp spec fn latlon_geometry(lat: Seq<char>, lon: Seq<char>) -> Geometry;

/// Relies on str::parse for the components (its documentation accepts the
/// decimal grammar) and on geo_types::Point::new: the point at
/// (lon, lat) for a "lat,lon" line.
#[verifier::external_body]
pub(crate) fn latlon_to_canonical(lat: &str, lon: &str) -> (r: Option<Geometry>)
    ensures
        is_decimal(lat@) && is_decimal(lon@) ==> r is Some,
        r matches Some(g) ==> g == latlon_geometry(lat@, lon@),
        r matches Some(g) ==> g.kind == GeometryKind::Point,
{
    match (lat.parse(), lon.parse()) {
        (Ok(y), Ok(x)) => Some(
            Geometry {
                value: CanonicalGeometry {
                    inner: geo_types::Geometry::Point(geo_types::Point::new(x, y)),
                },
                kind: GeometryKind::Point,
            },
        ),
        _ => None,
    }
}

/// Relies on geo::CoordsIter: whether every coordinate of the geometry is
/// finite. The geometry library's relate machinery is documented not to be
/// called on NaN coordinates, so the WKT decoder refuses them.
#[verifier::external_body]
fn coords_finite(g: &CanonicalGeometry) -> bool {
    geo::CoordsIter::coords_iter(&g.inner).all(|c| c.x.is_finite() && c.y.is_finite())
}

/// The geometry a text parses to as Well-Known Text with finite
/// coordinates, nothing when it does not parse or holds a non-finite one:
/// a function of the text alone.
pub uninterp spec fn wkt_geometry(s: Seq<char>) -> Option<Geometry>;

/// The variant the WKT text parses to, if it does.
pub open spec fn wkt_kind(s: Seq<char>) -> Option<GeometryKind> {
    match wkt_geometry(s) {
        Option::Some(g) => Option::Some(g.kind),
        Option::None => Option::None,
    }
}

/// Relies on wkt::TryFromWkt for geo_types::Geometry, guarded against
/// non-finite coordinates.
#[verifier::external_body]
pub(crate) fn wkt_to_canonical(s: &str) -> (r: Option<Geometry>)
    ensures
        r == wkt_geometry(s@),
{
    let g: Result<geo_types::Geometry, _> = wkt::TryFromWkt::try_from_wkt_str(s);
    match g {
        Ok(inner) => {
            let value = CanonicalGeometry { inner };
            if !coords_finite(&value) {
                return None;
            }
            let kind = kind_of(&value);
            Some(Geometry { value, kind })
        },
        Err(_) => None,
    }
}

/// The geometry a text parses to as GeoJSON with well-formed positions,
/// nothing when it does not parse or a position is too short: a function
/// of the text alone.
pub uninterp spec fn geojson_geometry(s: Seq<char>) -> Option<Geometry>;

/// The variant the GeoJSON geometry text parses to, if it does.
pub open spec fn geojson_kind(s: Seq<char>) -> Option<GeometryKind> {
    match geojson_geometry(s) {
        Option::Some(g) => Option::Some(g.kind),
        Option::None => Option::None,
    }
}

/// Relies on geojson::Geometry::from_str and the geojson-to-geo_types
/// conversion, guarded against short positions.
#[verifier::external_body]
pub(crate) fn geojson_geometry_to_canonical(s: &str) -> (r: Option<Geometry>)
    ensures
        r == geojson_geometry(s@),
{
    let parsed: Result<geojson::Geometry, _> = s.parse();
    let g = if let Ok(g) = parsed { g } else { return None };
    if !positions_well_formed(&g.value) {
        return None;
    }
    let c: Result<geo_types::Geometry, _> = std::convert::TryFrom::try_from(&g);
    match c {
        Ok(inner) => {
            let value = CanonicalGeometry { inner };
            let kind = kind_of(&value);
            Some(Geometry { value, kind })
        },
        Err(_) => None,
    }
}

/// What a text holds when read as a GeoJSON Feature: nothing when it does
/// not parse as one (or a position is too short); otherwise the converted
/// geometry of its `geometry` member, empty when that member is absent or
/// null. A function of the text alone.
pub uninterp spec fn feature_geometry(s: Seq<char>) -> Option<Option<Geometry>>;

/// The presence and variant of the feature's geometry, if the text parses.
pub open spec fn feature_geometry_state(s: Seq<char>) -> Option<Option<GeometryKind>> {
    match feature_geometry(s) {
        Option::Some(Option::Some(g)) => Option::Some(Option::Some(g.kind)),
        Option::Some(Option::None) => Option::Some(Option::None),
        Option::None => Option::None,
    }
}

/// Relies on geojson::Feature::from_str and the geojson-to-geo_types
/// conversion, guarded against short positions. A parsed feature whose
/// `geometry` member is absent or null comes back as the empty inner
/// option.
#[verifier::external_body]
pub(crate) fn feature_to_canonical(s: &str) -> (r: Option<Option<Geometry>>)
    ensures
        r == feature_geometry(s@),
{
    let parsed: Result<geojson::Feature, _> = s.parse();
    let f = if let Ok(f) = parsed { f } else { return None };
    let gj = match f.geometry { None => return Some(None), Some(gj) => gj };
    if !positions_well_formed(&gj.value) {
        return None;
    }
    let c: Result<geo_types::Geometry, _> = std::convert::TryFrom::try_from(&gj);
    match c {
        Ok(inner) => {
            let value = CanonicalGeometry { inner };
            let kind = kind_of(&value);
            Some(Some(Geometry { value, kind }))
        },
        Err(_) => None,
    }
}

/// The geometry-presence profile of a sequence of decoded features.
pub open spec fn presence_of(v: Seq<Option<CanonicalGeometry>>) -> Seq<bool> {
    Seq::new(v.len(), |i: int| v[i] is Some)
}

/// The converted geometries of a GeoJSON FeatureCollection's features, in
/// order, one entry per feature and empty entries for null geometries;
/// nothing when the text does not parse as a collection or a position is
/// too short. A function of the text alone.
pub uninterp spec fn fc_geometries(s: Seq<char>) -> Option<Seq<Option<CanonicalGeometry>>>;

/// Which features of the collection have a non-null geometry, if the text
/// parses.
pub open spec fn fc_geometry_presence(s: Seq<char>) -> Option<Seq<bool>> {
    match fc_geometries(s) {
        Option::Some(v) => Option::Some(presence_of(v)),
        Option::None => Option::None,
    }
}

/// Relies on geojson::FeatureCollection::from_str and the
/// geojson-to-geo_types conversion, feature by feature, guarded against
/// short positions.
#[verifier::external_body]
pub(crate) fn fc_to_canonical_list(s: &str) -> (r: Option<Vec<Option<CanonicalGeometry>>>)
    ensures
        match r {
            Option::Some(v) => fc_geometries(s@) == Option::Some(v@),
            Option::None => fc_geometries(s@) is None,
        },
{
    let parsed: Result<geojson::FeatureCollection, _> = s.parse();
    let fc = if let Ok(fc) = parsed { fc } else { return None };
    let mut out = Vec::new();
    for f in fc.features {
        match f.geometry {
            None => out.push(None),
            Some(g) if positions_well_formed(&g.value) => match geo_types::Geometry::try_from(&g) {
                Ok(inner) => out.push(Some(CanonicalGeometry { inner })),
                Err(_) => return None,
            },
            Some(_) => return None,
        }
    }
    Some(out)
}

/// The collection geometry gathered from the given parts, in order: a
/// function of the parts alone.
pub uninterp spec fn collection_of(parts: Seq<CanonicalGeometry>) -> Geometry;

/// Relies on geo_types::GeometryCollection: gathers parts into one
/// collection geometry.
#[verifier::external_body]
pub(crate) fn collect_canonical(parts: Vec<CanonicalGeometry>) -> (r: Geometry)
    ensures
        r == collection_of(parts@),
        r.kind == GeometryKind::GeometryCollection,
{
    let inner: Vec<geo_types::Geometry> = parts.into_iter().map(|p| p.inner).collect();
    Geometry {
        value: CanonicalGeometry {
            inner: geo_types::Geometry::GeometryCollection(geo_types::GeometryCollection(inner)),
        },
        kind: GeometryKind::GeometryCollection,
    }
}

/// Relies on geohash::decode_bbox: every text over the geohash alphabet of
/// length at most twelve decodes to its bounding box, returned as a
/// polygon. The empty text is excluded: on it the decoder reaches an
/// unchecked 64-bit shift.
/// The bounding-box polygon a geohash text decodes to: a function of the
/// text alone.
pub uninterp spec fn geohash_bbox_geometry(h: Seq<char>) -> Geometry;

#[verifier::external_body]
pub(crate) fn geohash_bbox_canonical(h: &str) -> (r: Option<Geometry>)
    requires
        h@.len() >= 1,
    ensures
        is_geohash_text(h@) ==> r is Some,
        r matches Some(g) ==> g == geohash_bbox_geometry(h@),
        r matches Some(g) ==> g.kind == GeometryKind::Polygon,
{
    match geohash::decode_bbox(h) {
        Ok(rect) => Some(
            Geometry {
                value: CanonicalGeometry { inner: geo_types::Geometry::Polygon(rect.to_polygon()) },
                kind: GeometryKind::Polygon,
            },
        ),
        Err(_) => None,
    }
}

/// Relies on geohash::decode: the center point of a geohash's box. The
/// empty text is excluded: on it the decoder reaches an unchecked 64-bit
/// shift.
/// The center point a geohash text decodes to: a function of the text
/// alone.
pub uninterp spec fn geohash_center_geometry(h: Seq<char>) -> Geometry;

#[verifier::external_body]
pub(crate) fn geohash_center_canonical(h: &str) -> (r: Option<Geometry>)
    requires
        h@.len() >= 1,
    ensures
        is_geohash_text(h@) ==> r is Some,
        r matches Some(g) ==> g == geohash_center_geometry(h@),
        r matches Some(g) ==> g.kind == GeometryKind::Point,
{
    match geohash::decode(h) {
        Ok((c, _, _)) => Some(
            Geometry {
                value: CanonicalGeometry {
                    inner: geo_types::Geometry::Point(geo_types::Point::new(c.x, c.y)),
                },
                kind: GeometryKind::Point,
            },
        ),
        Err(_) => None,
    }
}

/// The geohash of the coordinates written in the two decimal texts, at the
/// given precision: a function of the texts and the precision alone.
pub uninterp spec fn geohash_encoding(lat: Seq<char>, lon: Seq<char>, len: int) -> Option<
    Seq<char>,
>;

/// Relies on geohash::encode (and str::parse for the components): in-range
/// coordinates encode at any precision of one to twelve characters. A
/// decimal text whose magnitude stays within 90 or 180 parses to a double
/// within that bound, since each bound is exactly representable and
/// decimal-to-double rounding is monotone.
#[verifier::external_body]
pub(crate) fn geohash_encode_raw(lat: &str, lon: &str, len: usize) -> (r: Option<String>)
    ensures
        match r {
            Option::Some(h) => geohash_encoding(lat@, lon@, len as int) == Option::Some(h@),
            Option::None => geohash_encoding(lat@, lon@, len as int) is None,
        },
        is_decimal(lat@) && !magnitude_exceeds(lat@, 90) && is_decimal(lon@)
            && !magnitude_exceeds(lon@, 180) && 1 <= len <= 12 ==> r is Some,
{
    match (lat.parse(), lon.parse()) {
        (Ok(y), Ok(x)) => geohash::encode(geohash::Coord { x, y }, len).ok(),
        _ => None,
    }
}

// ------------------------------------------------------------------
// Encoding: canonical geometry back to text
// ------------------------------------------------------------------
/// Relies on wkt::ToWkt for geo_types::Geometry.
#[verifier::external_body]
pub(crate) fn canonical_to_wkt(g: &CanonicalGeometry) -> String {
    wkt::ToWkt::wkt_string(&g.inner)
}

/// Relies on the geo_types-to-geojson conversion and geojson's serializer.
#[verifier::external_body]
pub(crate) fn canonical_to_geojson(g: &CanonicalGeometry) -> String {
    let v = geojson::Value::from(&g.inner);
    geojson::Geometry::new(v).to_string()
}

/// Relies on format!: writes a point back as a "lat,lon" line; nothing for
/// any other variant.
#[verifier::external_body]
pub(crate) fn canonical_point_to_latlon(g: &CanonicalGeometry) -> Option<String> {
    match &g.inner {
        geo_types::Geometry::Point(p) => Some(format!("{},{}", p.y(), p.x())),
        _ => None,
    }
}

// ------------------------------------------------------------------
// Spatial predicates
// ------------------------------------------------------------------
/// Whether two canonical geometries share at least one point, as the
/// geometry library decides it: a function of the two values alone.
pub uninterp spec fn intersects_result(a: CanonicalGeometry, b: CanonicalGeometry) -> bool;

/// Relies on geo::Intersects for geo_types::Geometry.
#[verifier::external_body]
pub(crate) fn canonical_intersects(a: &CanonicalGeometry, b: &CanonicalGeometry) -> (r: bool)
    ensures
        r == intersects_result(*a, *b),
{
    geo::Intersects::intersects(&a.inner, &b.inner)
}

/// Whether the second canonical geometry lies entirely within the first,
/// as the geometry library decides it: a function of the two values alone.
pub uninterp spec fn contains_result(a: CanonicalGeometry, b: CanonicalGeometry) -> bool;

/// Relies on geo::Contains for geo_types::Geometry.
#[verifier::external_body]
pub(crate) fn canonical_contains(a: &CanonicalGeometry, b: &CanonicalGeometry) -> (r: bool)
    ensures
        r == contains_result(*a, *b),
{
    geo::Contains::contains(&a.inner, &b.inner)
}

} // verus!
