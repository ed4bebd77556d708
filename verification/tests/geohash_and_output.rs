use geoq::error::ConversionError;
use geoq::geohash_ops::{bbox_of, center_of, children_of, encode_long, gh_point, neighbors_of, roots};
use geoq::output::{to_format, to_geojson_feature, to_geojson_geometry, to_wkt, wrap_feature};
use geoq::tag::FormatTag;
use geoq::entity::Entity;
use wkt::TryFromWkt;

fn wkt_bounds(w: &str) -> (f64, f64, f64, f64) {
    let g: geo_types::Geometry<f64> = geo_types::Geometry::try_from_wkt_str(w).unwrap();
    let poly = match g {
        geo_types::Geometry::Polygon(p) => p,
        other => panic!("expected polygon, got {:?}", other),
    };
    let mut min_x = f64::INFINITY;
    let mut min_y = f64::INFINITY;
    let mut max_x = f64::NEG_INFINITY;
    let mut max_y = f64::NEG_INFINITY;
    for c in poly.exterior().coords() {
        min_x = min_x.min(c.x);
        min_y = min_y.min(c.y);
        max_x = max_x.max(c.x);
        max_y = max_y.max(c.y);
    }
    (min_x, min_y, max_x, max_y)
}

#[test]
fn gh_point_golden_value() {
    // Golden-value regression test at the geohash codec boundary.
    let h = gh_point("45.0, -122.0", 5).unwrap();
    assert_eq!(h, "c210p");
}

#[test]
fn gh_point_rejects_non_latlon() {
    match gh_point("POINT (1 2)", 5) {
        Err(ConversionError::ParseError(t)) => assert_eq!(t, "POINT (1 2)"),
        other => panic!("expected parse error, got {:?}", other),
    }
}

#[test]
fn gh_point_rejects_out_of_range_coordinates() {
    match gh_point("91,0", 5) {
        Err(ConversionError::RangeError) => {}
        other => panic!("expected range error, got {:?}", other),
    }
}

#[test]
fn gh_point_rejects_bad_precision() {
    assert!(matches!(gh_point("45.0,-122.0", 0), Err(ConversionError::RangeError)));
    assert!(matches!(gh_point("45.0,-122.0", 13), Err(ConversionError::RangeError)));
    assert!(gh_point("45.0,-122.0", 12).is_ok());
}

#[test]
fn geohash_bbox_contains_longer_prefix_bbox() {
    // Monotonic containment: the box of a geohash lies within the box of
    // every shorter prefix of it.
    let hash = "9q8yykv4";
    for n in 2..=hash.len() {
        let longer = bbox_of(&hash[..n]).unwrap();
        let shorter = bbox_of(&hash[..n - 1]).unwrap();
        let (lx0, ly0, lx1, ly1) = wkt_bounds(&to_wkt(&longer));
        let (sx0, sy0, sx1, sy1) = wkt_bounds(&to_wkt(&shorter));
        assert!(sx0 <= lx0 && sy0 <= ly0 && lx1 <= sx1 && ly1 <= sy1,
            "prefix of length {} does not contain its extension", n - 1);
    }
}

#[test]
fn geohash_center_lies_in_its_bbox() {
    let c = center_of("c210p").unwrap();
    let w = to_wkt(&c);
    let g: geo_types::Geometry<f64> = geo_types::Geometry::try_from_wkt_str(&w).unwrap();
    let p = match g {
        geo_types::Geometry::Point(p) => p,
        other => panic!("expected point, got {:?}", other),
    };
    // The cell was encoded from (45.0, -122.0) at 5 characters; its center
    // stays within the cell size of that precision.
    assert!((p.y() - 45.0).abs() < 0.05);
    assert!((p.x() - -122.0).abs() < 0.05);
}

#[test]
fn bbox_of_rejects_invalid_hash() {
    match bbox_of("abc") {
        Err(ConversionError::ParseError(t)) => assert_eq!(t, "abc"),
        Err(other) => panic!("expected parse error, got {:?}", other),
        Ok(_) => panic!("expected parse error, got a geometry"),
    }
    assert!(center_of("0123456789bcd").is_err());
}

#[test]
fn wrap_feature_exact_shape() {
    assert_eq!(
        wrap_feature("{\"type\":\"Point\",\"coordinates\":[1.0,2.0]}"),
        "{\"type\":\"Feature\",\"geometry\":{\"type\":\"Point\",\"coordinates\":[1.0,2.0]},\"properties\":{}}"
    );
}

#[test]
fn wkt_output_round_trips() {
    let mut e = Entity::from_line("12.5,-3.25");
    e.ensure_geometry().unwrap();
    let w = to_wkt(e.cached.as_ref().unwrap());
    let g: geo_types::Geometry<f64> = geo_types::Geometry::try_from_wkt_str(&w).unwrap();
    match g {
        geo_types::Geometry::Point(p) => {
            // Coordinate order is canonical (lon, lat): x is the longitude.
            assert!((p.x() - -3.25).abs() < 1e-9);
            assert!((p.y() - 12.5).abs() < 1e-9);
        }
        other => panic!("expected point, got {:?}", other),
    }
}

#[test]
fn to_format_dispatches_by_target() {
    let mut e = Entity::from_line("POINT (1 2)");
    e.ensure_geometry().unwrap();
    let g = e.cached.as_ref().unwrap();
    assert!(to_format(g, FormatTag::Wkt).unwrap().to_uppercase().starts_with("POINT"));
    assert!(to_format(g, FormatTag::GeoJsonGeometry).unwrap().contains("\"Point\""));
    assert!(to_format(g, FormatTag::GeoJsonFeature).unwrap().contains("\"Feature\""));
    let pair = to_format(g, FormatTag::LatLon).unwrap();
    let mut parts = pair.split(',');
    let lat: f64 = parts.next().unwrap().parse().unwrap();
    let lon: f64 = parts.next().unwrap().parse().unwrap();
    assert!((lat - 2.0).abs() < 1e-9 && (lon - 1.0).abs() < 1e-9);
    assert!(to_format(g, FormatTag::Geohash).is_none());
    assert!(to_format(g, FormatTag::Unrecognized).is_none());

    // Only a point has a "lat,lon" form.
    let mut l = Entity::from_line("LINESTRING (0 0, 1 1)");
    l.ensure_geometry().unwrap();
    assert!(to_format(l.cached.as_ref().unwrap(), FormatTag::LatLon).is_none());
}

#[test]
fn geojson_output_is_valid_geojson() {
    let mut e = Entity::from_line("POINT (1 2)");
    e.ensure_geometry().unwrap();
    let s = to_geojson_geometry(e.cached.as_ref().unwrap());
    let v: serde_json::Value = serde_json::from_str(&s).unwrap();
    assert_eq!(v.get("type").unwrap().as_str().unwrap(), "Point");

    let f = to_geojson_feature(e.cached.as_ref().unwrap());
    let v: serde_json::Value = serde_json::from_str(&f).unwrap();
    assert_eq!(v.get("type").unwrap().as_str().unwrap(), "Feature");
    assert_eq!(
        v.get("geometry").unwrap().get("type").unwrap().as_str().unwrap(),
        "Point"
    );
    assert!(v.get("properties").unwrap().as_object().unwrap().is_empty());
}

#[test]
fn children_are_the_hash_plus_each_alphabet_char() {
    let kids = children_of("9q");
    assert_eq!(kids.len(), 32);
    assert_eq!(kids[0], "9q0");
    assert_eq!(kids[10], "9qb");
    assert_eq!(kids[31], "9qz");
    for k in &kids {
        assert!(k.starts_with("9q") && k.len() == 3);
    }
}

#[test]
fn roots_are_the_alphabet() {
    let r = roots();
    assert_eq!(r.len(), 32);
    assert_eq!(r.join(""), "0123456789bcdefghjkmnpqrstuvwxyz");
}

#[test]
fn neighbors_golden_values() {
    // Values for this hash as the geohash library documents them.
    let ns = neighbors_of("9q60y60rhs").unwrap();
    assert_eq!(
        ns,
        vec![
            "9q60y60rht".to_string(),
            "9q60y60rhv".to_string(),
            "9q60y60rhu".to_string(),
            "9q60y60rhg".to_string(),
            "9q60y60rhe".to_string(),
            "9q60y60rh7".to_string(),
            "9q60y60rhk".to_string(),
            "9q60y60rhm".to_string(),
        ]
    );
}

#[test]
fn neighbors_of_invalid_hash_fails() {
    assert!(neighbors_of("hello world").is_err());
}

#[test]
fn encode_long_fixed_values() {
    assert_eq!(encode_long(0), "000000000000");
    assert_eq!(encode_long(u64::MAX), "zzzzzzzzzzzz");
    // The top five bits (11010, i.e. 26) select the character 'u', the
    // alphabet's position 26.
    assert_eq!(encode_long(26u64 << 59), "u00000000000");
    // The low four bits select no character.
    assert_eq!(encode_long(0b1111), "000000000000");
}
