use geoq::entity::{feature_collection_geometries, Entity};
use geoq::error::ConversionError;
use geoq::geom::GeometryKind;
use geoq::output::to_latlon;
use geoq::tag::FormatTag;

#[test]
fn latlon_converts_to_point() {
    let mut e = Entity::from_line("12.5,-3.25");
    assert!(e.ensure_geometry().is_ok());
    let g = e.cached.as_ref().unwrap();
    assert_eq!(g.kind, GeometryKind::Point);
}

#[test]
fn latlon_round_trip_preserves_coordinates() {
    let mut e = Entity::from_line("12.5,-3.25");
    assert!(e.ensure_geometry().is_ok());
    let g = e.cached.as_ref().unwrap();
    let back = to_latlon(g).unwrap();
    let mut parts = back.split(',');
    let lat: f64 = parts.next().unwrap().parse().unwrap();
    let lon: f64 = parts.next().unwrap().parse().unwrap();
    assert!((lat - 12.5).abs() < 1e-9);
    assert!((lon - -3.25).abs() < 1e-9);
}

#[test]
fn latlon_boundaries_are_in_range() {
    for line in ["90,180", "-90,-180", "90.000,180.000", "0.0,0.0"] {
        let mut e = Entity::from_line(line);
        assert!(e.ensure_geometry().is_ok(), "expected {} in range", line);
    }
}

#[test]
fn latlon_out_of_range_fails_with_range_error() {
    for line in ["91,0", "90.0001,10", "0,-180.5", "-90.5,0", "9999,0"] {
        let mut e = Entity::from_line(line);
        assert_eq!(e.kind, FormatTag::LatLon);
        match e.ensure_geometry() {
            Err(ConversionError::RangeError) => {}
            other => panic!("expected range error for {}, got {:?}", line, other),
        }
    }
}

#[test]
fn wkt_converts() {
    let mut e = Entity::from_line("POINT (1 2)");
    assert!(e.ensure_geometry().is_ok());
    assert_eq!(e.cached.as_ref().unwrap().kind, GeometryKind::Point);

    let mut p = Entity::from_line("POLYGON ((0 0, 2 0, 2 2, 0 2, 0 0))");
    assert!(p.ensure_geometry().is_ok());
    assert_eq!(p.cached.as_ref().unwrap().kind, GeometryKind::Polygon);
}

#[test]
fn wkt_grammar_failure_is_parse_error() {
    let mut e = Entity::from_line("POINT (1");
    assert_eq!(e.kind, FormatTag::Wkt);
    match e.ensure_geometry() {
        Err(ConversionError::ParseError(t)) => assert_eq!(t, "POINT (1"),
        other => panic!("expected parse error, got {:?}", other),
    }
}

#[test]
fn geojson_geometry_converts() {
    let mut e = Entity::from_line("{\"type\":\"Point\",\"coordinates\":[1.0,2.0]}");
    assert!(e.ensure_geometry().is_ok());
    assert_eq!(e.cached.as_ref().unwrap().kind, GeometryKind::Point);
}

#[test]
fn feature_with_geometry_converts() {
    let mut e = Entity::from_line(
        "{\"type\":\"Feature\",\"geometry\":{\"type\":\"Point\",\"coordinates\":[1.0,2.0]},\"properties\":{}}",
    );
    assert!(e.ensure_geometry().is_ok());
    assert_eq!(e.cached.as_ref().unwrap().kind, GeometryKind::Point);
}

#[test]
fn feature_with_null_geometry_is_missing_geometry() {
    let mut e = Entity::from_line("{\"type\":\"Feature\",\"geometry\":null,\"properties\":{}}");
    assert_eq!(e.kind, FormatTag::GeoJsonFeature);
    match e.ensure_geometry() {
        Err(ConversionError::MissingGeometryError) => {}
        other => panic!("expected missing geometry, got {:?}", other),
    }
}

#[test]
fn feature_without_geometry_member_is_missing_geometry() {
    let mut e = Entity::from_line("{\"type\":\"Feature\",\"properties\":{}}");
    match e.ensure_geometry() {
        Err(ConversionError::MissingGeometryError) => {}
        other => panic!("expected missing geometry, got {:?}", other),
    }
}

#[test]
fn feature_collection_with_null_geometry_yields_two() {
    let line = "{\"type\":\"FeatureCollection\",\"features\":[\
        {\"type\":\"Feature\",\"geometry\":{\"type\":\"Point\",\"coordinates\":[1.0,2.0]},\"properties\":{}},\
        {\"type\":\"Feature\",\"geometry\":null,\"properties\":{}},\
        {\"type\":\"Feature\",\"geometry\":{\"type\":\"Point\",\"coordinates\":[3.0,4.0]},\"properties\":{}}]}";
    let geoms = feature_collection_geometries(line).unwrap();
    assert_eq!(geoms.len(), 2);
}

#[test]
fn feature_collection_entity_converts_to_collection() {
    let line = "{\"type\":\"FeatureCollection\",\"features\":[\
        {\"type\":\"Feature\",\"geometry\":{\"type\":\"Point\",\"coordinates\":[1.0,2.0]},\"properties\":{}}]}";
    let mut e = Entity::from_line(line);
    assert_eq!(e.kind, FormatTag::GeoJsonFeatureCollection);
    assert!(e.ensure_geometry().is_ok());
    assert_eq!(e.cached.as_ref().unwrap().kind, GeometryKind::GeometryCollection);
}

#[test]
fn unrecognized_conversion_is_parse_error() {
    let mut e = Entity::from_line("hello world");
    assert_eq!(e.kind, FormatTag::Unrecognized);
    match e.ensure_geometry() {
        Err(ConversionError::ParseError(t)) => assert_eq!(t, "hello world"),
        other => panic!("expected parse error, got {:?}", other),
    }
}

#[test]
fn geometry_is_memoized() {
    let mut e = Entity::from_line("POINT (1 2)");
    assert!(e.ensure_geometry().is_ok());
    assert!(e.cached.is_some());
    // A second request succeeds without recomputing: the cache is kept.
    assert!(e.ensure_geometry().is_ok());
    assert!(e.cached.is_some());
}

#[test]
fn geohash_entity_converts_to_bbox_polygon() {
    let mut e = Entity::from_line("9q8yyk");
    assert_eq!(e.kind, FormatTag::Geohash);
    assert!(e.ensure_geometry().is_ok());
    assert_eq!(e.cached.as_ref().unwrap().kind, GeometryKind::Polygon);
}

#[test]
fn raw_text_is_kept_byte_for_byte() {
    let mut e = Entity::from_line("  9q8yyk  ");
    assert_eq!(e.raw, "  9q8yyk  ");
    assert_eq!(e.kind, FormatTag::Geohash);
    assert!(e.ensure_geometry().is_ok());
    assert_eq!(e.raw, "  9q8yyk  ");
}

#[test]
fn geojson_short_position_is_parse_error() {
    // The GeoJSON grammar admits positions with fewer than two numbers;
    // conversion refuses them instead of producing a broken geometry.
    let mut e = Entity::from_line("{\"type\":\"Point\",\"coordinates\":[]}");
    assert_eq!(e.kind, FormatTag::GeoJsonGeometry);
    match e.ensure_geometry() {
        Err(ConversionError::ParseError(_)) => {}
        other => panic!("expected parse error, got {:?}", other),
    }
    let mut e = Entity::from_line("{\"type\":\"LineString\",\"coordinates\":[[1.0],[2.0,3.0]]}");
    assert!(matches!(e.ensure_geometry(), Err(ConversionError::ParseError(_))));
}

#[test]
fn feature_with_short_position_is_parse_error() {
    let mut e = Entity::from_line(
        "{\"type\":\"Feature\",\"geometry\":{\"type\":\"Point\",\"coordinates\":[1.0]},\"properties\":{}}",
    );
    assert!(matches!(e.ensure_geometry(), Err(ConversionError::ParseError(_))));
}

#[test]
fn feature_collection_with_short_position_is_parse_error() {
    let line = "{\"type\":\"FeatureCollection\",\"features\":[\
        {\"type\":\"Feature\",\"geometry\":{\"type\":\"Point\",\"coordinates\":[1.0,2.0]},\"properties\":{}},\
        {\"type\":\"Feature\",\"geometry\":{\"type\":\"Point\",\"coordinates\":[]},\"properties\":{}}]}";
    assert!(matches!(
        feature_collection_geometries(line),
        Err(ConversionError::ParseError(_))
    ));
}

#[test]
fn wkt_with_non_finite_coordinates_is_parse_error() {
    // The geometry library's predicates must not see NaN coordinates, so
    // the WKT decoder refuses them (whether the grammar admits them or
    // not, the outcome is the same parse error).
    let mut e = Entity::from_line("LINESTRING (NaN 0, 1 1)");
    assert_eq!(e.kind, FormatTag::Wkt);
    assert!(matches!(e.ensure_geometry(), Err(ConversionError::ParseError(_))));
    let mut p = Entity::from_line("POINT (inf 2)");
    assert!(matches!(p.ensure_geometry(), Err(ConversionError::ParseError(_))));
}
