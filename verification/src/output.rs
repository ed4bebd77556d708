//! Re-serialization: turning a canonical geometry back into a target text
//! format. Pure functions of the geometry, with no knowledge of the entity
//! it came from.

use vstd::prelude::*;

use crate::geom::{
    canonical_point_to_latlon, canonical_to_geojson, canonical_to_wkt, Geometry,
};
use crate::tag::FormatTag;
use vstd::string::StringExecFns;

verus! {

/// The geometry as Well-Known Text.
pub fn to_wkt(g: &Geometry) -> String {
    canonical_to_wkt(&g.value)
}

/// The geometry as a bare GeoJSON geometry document.
pub fn to_geojson_geometry(g: &Geometry) -> String {
    canonical_to_geojson(&g.value)
}

/// Wraps a bare GeoJSON geometry text in a Feature with empty properties.
pub fn wrap_feature(geom_json: &str) -> (r: String)
    ensures
        r@ == "{\"type\":\"Feature\",\"geometry\":"@ + geom_json@ + ",\"properties\":{}}"@,
{
    let mut out = String::new();
    out.append("{\"type\":\"Feature\",\"geometry\":");
    out.append(geom_json);
    out.append(",\"properties\":{}}");
    out
}

/// The geometry as a GeoJSON Feature with empty properties.
pub fn to_geojson_feature(g: &Geometry) -> String {
    let body = canonical_to_geojson(&g.value);
    wrap_feature(body.as_str())
}

/// A point geometry written back as a "lat,lon" line; nothing for any
/// other geometry.
pub fn to_latlon(g: &Geometry) -> Option<String> {
    canonical_point_to_latlon(&g.value)
}

/// Re-serializes a geometry in the target format, with no knowledge of
/// the entity it came from. Every geometry has a WKT, GeoJSON geometry
/// and GeoJSON Feature form; only a point has a "lat,lon" form; a
/// geohash, a whole feature collection, or an unrecognized format is not
/// a re-encoding target.
pub fn to_format(g: &Geometry, target: FormatTag) -> (r: Option<String>)
    ensures
        (target == FormatTag::Wkt || target == FormatTag::GeoJsonGeometry || target
            == FormatTag::GeoJsonFeature) ==> r is Some,
        (target == FormatTag::Geohash || target == FormatTag::GeoJsonFeatureCollection || target
            == FormatTag::Unrecognized) ==> r is None,
{
    match target {
        FormatTag::Wkt => Some(to_wkt(g)),
        FormatTag::GeoJsonGeometry => Some(to_geojson_geometry(g)),
        FormatTag::GeoJsonFeature => Some(to_geojson_feature(g)),
        FormatTag::LatLon => to_latlon(g),
        FormatTag::Geohash => None,
        FormatTag::GeoJsonFeatureCollection => None,
        FormatTag::Unrecognized => None,
    }
}

} // verus!
