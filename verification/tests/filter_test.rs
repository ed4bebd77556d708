use geoq::entity::{entities_from_lines, Entity};
use geoq::error::{ConversionError, Error};
use geoq::filter::{contains, convert_stream, run_filter, Predicate, QuerySet};
use geoq::tag::FormatTag;

fn lines(v: &[&str]) -> Vec<String> {
    v.iter().map(|s| s.to_string()).collect()
}

const BOX_QUERY: &str = "POLYGON ((0 0, 10 0, 10 10, 0 10, 0 0))";

#[test]
fn stream_skips_blank_lines_and_keeps_order() {
    let input = lines(&["POINT (1 2)", "", "  ", "9q8yyk", "1.5,2.5"]);
    let ents = entities_from_lines(&input);
    assert_eq!(ents.len(), 3);
    assert_eq!(ents[0].raw, "POINT (1 2)");
    assert_eq!(ents[0].kind, FormatTag::Wkt);
    assert_eq!(ents[1].raw, "9q8yyk");
    assert_eq!(ents[1].kind, FormatTag::Geohash);
    assert_eq!(ents[2].raw, "1.5,2.5");
    assert_eq!(ents[2].kind, FormatTag::LatLon);
}

#[test]
fn filter_intersects_keeps_matching_in_order() {
    // e1 and e3 lie inside the query box, e2 does not.
    let stream = lines(&["POINT (1 1)", "POINT (20 20)", "POINT (2 2)"]);
    let queries = lines(&[BOX_QUERY]);
    let out = run_filter(&stream, &queries, Predicate::Intersects, false).unwrap();
    assert_eq!(out, vec!["POINT (1 1)".to_string(), "POINT (2 2)".to_string()]);
}

#[test]
fn filter_negate_yields_complement() {
    let stream = lines(&["POINT (1 1)", "POINT (20 20)", "POINT (2 2)"]);
    let queries = lines(&[BOX_QUERY]);
    let plain = run_filter(&stream, &queries, Predicate::Intersects, false).unwrap();
    let negated = run_filter(&stream, &queries, Predicate::Intersects, true).unwrap();
    assert_eq!(negated, vec!["POINT (20 20)".to_string()]);
    // Together the two runs hold every converted entity exactly once.
    let mut union: Vec<String> = plain.clone();
    union.extend(negated.clone());
    union.sort();
    let mut all: Vec<String> = stream.clone();
    all.sort();
    assert_eq!(union, all);
    for s in &plain {
        assert!(!negated.contains(s));
    }
}

#[test]
fn filter_matches_any_query() {
    // An entity passing against either query is kept.
    let stream = lines(&["POINT (1 1)", "POINT (20 20)", "POINT (50 50)"]);
    let queries = lines(&[BOX_QUERY, "POLYGON ((15 15, 25 15, 25 25, 15 25, 15 15))"]);
    let out = run_filter(&stream, &queries, Predicate::Intersects, false).unwrap();
    assert_eq!(out, vec!["POINT (1 1)".to_string(), "POINT (20 20)".to_string()]);
}

#[test]
fn filter_drops_unconvertible_stream_lines_without_aborting() {
    // A malformed JSON line in the middle of a valid stream is dropped,
    // never fatal; the other entities still flow through.
    let stream = lines(&[
        "{\"type\":\"Point\",\"coordinates\":[1.0,1.0]}",
        "{not json",
        "{\"type\":\"Point\",\"coordinates\":[2.0,2.0]}",
    ]);
    let queries = lines(&[BOX_QUERY]);
    let out = run_filter(&stream, &queries, Predicate::Intersects, false).unwrap();
    assert_eq!(
        out,
        vec![
            "{\"type\":\"Point\",\"coordinates\":[1.0,1.0]}".to_string(),
            "{\"type\":\"Point\",\"coordinates\":[2.0,2.0]}".to_string(),
        ]
    );
    // Dropped means dropped on the negated run too.
    let negated = run_filter(&stream, &queries, Predicate::Intersects, true).unwrap();
    assert!(negated.is_empty());
}

#[test]
fn filter_contains_keeps_contained_entities() {
    let stream = lines(&["POINT (1 1)", "POINT (20 20)"]);
    let queries = lines(&[BOX_QUERY]);
    let out = run_filter(&stream, &queries, Predicate::Contains, false).unwrap();
    assert_eq!(out, vec!["POINT (1 1)".to_string()]);
}

#[test]
fn empty_query_set_is_configuration_error() {
    let stream = lines(&["POINT (1 1)"]);
    let queries = lines(&["", "   "]);
    match run_filter(&stream, &queries, Predicate::Intersects, false) {
        Err(Error::ConfigurationError) => {}
        other => panic!("expected configuration error, got {:?}", other),
    }
}

#[test]
fn bad_query_is_fatal() {
    let stream = lines(&["POINT (1 1)"]);
    let queries = lines(&["POINT (1"]);
    match run_filter(&stream, &queries, Predicate::Intersects, false) {
        Err(Error::Conversion(ConversionError::ParseError(t))) => assert_eq!(t, "POINT (1"),
        other => panic!("expected fatal parse error, got {:?}", other),
    }
}

#[test]
fn contains_query_must_be_polygonal() {
    // A point query for `contains` is refused while building the set.
    let queries = lines(&["POINT (1 2)"]);
    match QuerySet::build(&queries, Predicate::Contains) {
        Err(Error::Conversion(ConversionError::UnsupportedPredicateGeometry)) => {}
        Err(other) => panic!("expected unsupported predicate geometry, got {:?}", other),
        Ok(_) => panic!("expected unsupported predicate geometry, got a query set"),
    }
    // A linestring query is refused the same way.
    let queries = lines(&["LINESTRING (0 0, 1 1)"]);
    match QuerySet::build(&queries, Predicate::Contains) {
        Err(Error::Conversion(ConversionError::UnsupportedPredicateGeometry)) => {}
        Err(other) => panic!("expected unsupported predicate geometry, got {:?}", other),
        Ok(_) => panic!("expected unsupported predicate geometry, got a query set"),
    }
    // The same queries are fine for intersects.
    let queries = lines(&["POINT (1 2)"]);
    assert!(QuerySet::build(&queries, Predicate::Intersects).is_ok());
}

#[test]
fn contains_on_non_areal_geometry_fails() {
    let mut point = Entity::from_line("POINT (1 2)");
    point.ensure_geometry().unwrap();
    let mut line = Entity::from_line("LINESTRING (0 0, 5 5)");
    line.ensure_geometry().unwrap();
    let mut poly = Entity::from_line(BOX_QUERY);
    poly.ensure_geometry().unwrap();

    let p = point.cached.as_ref().unwrap();
    let l = line.cached.as_ref().unwrap();
    let a = poly.cached.as_ref().unwrap();

    match contains(p, l) {
        Err(ConversionError::UnsupportedPredicateGeometry) => {}
        other => panic!("expected unsupported predicate geometry, got {:?}", other),
    }
    match contains(l, p) {
        Err(ConversionError::UnsupportedPredicateGeometry) => {}
        other => panic!("expected unsupported predicate geometry, got {:?}", other),
    }
    assert_eq!(contains(a, p).unwrap(), true);
    let mut far = Entity::from_line("POINT (50 50)");
    far.ensure_geometry().unwrap();
    assert_eq!(contains(a, far.cached.as_ref().unwrap()).unwrap(), false);
}

#[test]
fn filter_does_not_deduplicate() {
    let stream = lines(&["POINT (1 1)", "", "POINT (1 1)"]);
    let queries = lines(&[BOX_QUERY]);
    let out = run_filter(&stream, &queries, Predicate::Intersects, false).unwrap();
    assert_eq!(out, vec!["POINT (1 1)".to_string(), "POINT (1 1)".to_string()]);
}

#[test]
fn geohash_query_intersects_its_center() {
    // A geohash query converts to its bounding box; its center point
    // intersects it.
    let queries = lines(&["9q8yyk"]);
    let stream = lines(&["0,0"]);
    let out = run_filter(&stream, &queries, Predicate::Intersects, false).unwrap();
    assert!(out.is_empty());
    // The 9q8yyk cell spans latitudes 37.771 to 37.776 and longitudes
    // -122.4207 to -122.4097; this point lies inside it.
    let stream = lines(&["37.773,-122.415"]);
    let out = run_filter(&stream, &queries, Predicate::Intersects, false).unwrap();
    assert_eq!(out, vec!["37.773,-122.415".to_string()]);
}

#[test]
fn convert_stream_drops_failures_and_keeps_order() {
    let input = lines(&[
        "POINT (1 2)",
        "",
        "{not json",
        "91,0",
        "9q8yyk",
    ]);
    let ents = convert_stream(&input);
    // The malformed JSON line is unrecognized and the out-of-range pair
    // fails its range check; both are dropped, nothing aborts.
    assert_eq!(ents.len(), 2);
    assert_eq!(ents[0].raw, "POINT (1 2)");
    assert_eq!(ents[1].raw, "9q8yyk");
    assert!(ents[0].cached.is_some() && ents[1].cached.is_some());
}

#[test]
fn contains_succeeds_for_polygonal_queries() {
    let queries = lines(&[BOX_QUERY, "9q8yyk"]);
    assert!(QuerySet::build(&queries, Predicate::Contains).is_ok());
}
