use geoq::tag::{classify, FormatTag};

#[test]
fn classify_latlon_basic() {
    assert_eq!(classify("12.5,-3.25"), FormatTag::LatLon);
    assert_eq!(classify("0,0"), FormatTag::LatLon);
    assert_eq!(classify("-90,180"), FormatTag::LatLon);
}

#[test]
fn classify_latlon_with_whitespace() {
    assert_eq!(classify("  45.0 , -122.0  "), FormatTag::LatLon);
    assert_eq!(classify("45.0,\t-122.0"), FormatTag::LatLon);
}

#[test]
fn classify_latlon_out_of_range_still_latlon() {
    // Sniffing and validation are decoupled: the numeric pair pattern wins
    // even when the magnitudes are invalid; conversion fails later.
    assert_eq!(classify("9999,0"), FormatTag::LatLon);
    assert_eq!(classify("91,181"), FormatTag::LatLon);
}

#[test]
fn classify_latlon_rejects_bad_numbers() {
    assert_eq!(classify("12.5,"), FormatTag::Unrecognized);
    assert_eq!(classify(",12.5"), FormatTag::Unrecognized);
    assert_eq!(classify("a,b"), FormatTag::Unrecognized);
    assert_eq!(classify("1.2.3,4"), FormatTag::Unrecognized);
}

#[test]
fn classify_geohash_basic() {
    assert_eq!(classify("9q8yyk"), FormatTag::Geohash);
    assert_eq!(classify("c"), FormatTag::Geohash);
    assert_eq!(classify("0123456789bc"), FormatTag::Geohash);
}

#[test]
fn classify_geohash_excluded_letters() {
    // a, i, l and o are not in the geohash alphabet.
    assert_eq!(classify("abc"), FormatTag::Unrecognized);
    assert_eq!(classify("9i"), FormatTag::Unrecognized);
    assert_eq!(classify("lol"), FormatTag::Unrecognized);
}

#[test]
fn classify_geohash_length_limits() {
    assert_eq!(classify(""), FormatTag::Unrecognized);
    assert_eq!(classify("0123456789bcd"), FormatTag::Unrecognized);  // 13 chars
}

#[test]
fn classify_digits_without_comma_are_geohash() {
    // Priority: the pair pattern needs a comma; plain digits fall through
    // to the geohash alphabet.
    assert_eq!(classify("90"), FormatTag::Geohash);
}

#[test]
fn classify_wkt_keywords() {
    assert_eq!(classify("POINT (1 2)"), FormatTag::Wkt);
    assert_eq!(classify("LINESTRING (0 0, 1 1)"), FormatTag::Wkt);
    assert_eq!(classify("POLYGON ((0 0, 1 0, 1 1, 0 0))"), FormatTag::Wkt);
    assert_eq!(classify("MULTIPOINT (1 2, 3 4)"), FormatTag::Wkt);
    assert_eq!(classify("MULTILINESTRING ((0 0, 1 1))"), FormatTag::Wkt);
    assert_eq!(classify("MULTIPOLYGON (((0 0, 1 0, 1 1, 0 0)))"), FormatTag::Wkt);
    assert_eq!(classify("GEOMETRYCOLLECTION (POINT (1 2))"), FormatTag::Wkt);
}

#[test]
fn classify_wkt_case_insensitive() {
    assert_eq!(classify("point(1 2)"), FormatTag::Wkt);
    assert_eq!(classify("Polygon((0 0, 1 0, 1 1, 0 0))"), FormatTag::Wkt);
}

#[test]
fn classify_geojson_geometry() {
    assert_eq!(
        classify("{\"type\":\"Point\",\"coordinates\":[1.0,2.0]}"),
        FormatTag::GeoJsonGeometry
    );
    assert_eq!(
        classify("{\"type\":\"MultiPolygon\",\"coordinates\":[]}"),
        FormatTag::GeoJsonGeometry
    );
}

#[test]
fn classify_geojson_feature() {
    assert_eq!(
        classify("{\"type\":\"Feature\",\"geometry\":{\"type\":\"Point\",\"coordinates\":[1.0,2.0]},\"properties\":{}}"),
        FormatTag::GeoJsonFeature
    );
}

#[test]
fn classify_geojson_feature_collection() {
    assert_eq!(
        classify("{\"type\":\"FeatureCollection\",\"features\":[]}"),
        FormatTag::GeoJsonFeatureCollection
    );
}

#[test]
fn classify_json_without_known_type_unrecognized() {
    assert_eq!(classify("{\"type\":\"Banana\"}"), FormatTag::Unrecognized);
    assert_eq!(classify("{\"kind\":\"Point\"}"), FormatTag::Unrecognized);
    assert_eq!(classify("[1,2]"), FormatTag::Unrecognized);
    // Valid JSON that is not an object: no type member to read.
    assert_eq!(classify("\"Point\""), FormatTag::Unrecognized);
}

#[test]
fn classify_malformed_json_unrecognized() {
    assert_eq!(classify("{not json"), FormatTag::Unrecognized);
}

#[test]
fn classify_is_total_on_noise() {
    assert_eq!(classify("hello world"), FormatTag::Unrecognized);
    assert_eq!(classify("   "), FormatTag::Unrecognized);
}
