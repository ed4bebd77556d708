//! Format sniffing: deciding which textual geometry encoding one line of
//! input uses. Classification is total and purely syntactic; it never builds
//! a geometry. The checks run in a fixed priority order, so text that could
//! look like more than one format gets the earlier tag.

use vstd::prelude::*;

use crate::numeric::{is_decimal, is_decimal_str, is_digit, lemma_decimal_chars};
use crate::text::{is_ws_char, lemma_leading_ws, lemma_trailing_ws, trim_str, trimmed};

verus! {

/// The encodings one input line can be classified as.
#[derive(Clone, Copy, Debug, PartialEq, Eq, Structural)]
pub enum FormatTag {
    LatLon,
    Geohash,
    Wkt,
    GeoJsonGeometry,
    GeoJsonFeature,
    GeoJsonFeatureCollection,
    Unrecognized,
}

// ------------------------------------------------------------------
// "lat,lon" pairs
// ------------------------------------------------------------------
/// `s` splits at the comma at `i` into two decimal components, each
/// allowing surrounding whitespace.
pub open spec fn latlon_split_at(s: Seq<char>, i: int) -> bool {
    &&& 0 <= i < s.len()
    &&& s[i] == ','
    &&& is_decimal(trimmed(s.subrange(0, i)))
    &&& is_decimal(trimmed(s.subrange(i + 1, s.len() as int)))
}

/// The "lat,lon" numeric pair pattern.
pub open spec fn is_latlon_text(s: Seq<char>) -> bool {
    exists|i: int| latlon_split_at(s, i)
}

/// Only the first comma of a line can split it into two decimal components.
pub proof fn lemma_latlon_split_unique(s: Seq<char>, c: int)
    requires
        0 <= c < s.len(),
        s[c] == ',',
        forall|k: int| 0 <= k < c ==> s[k] != ',',
    ensures
        forall|i: int| latlon_split_at(s, i) ==> i == c,
{
    assert forall|i: int| latlon_split_at(s, i) implies i == c by {
        if i > c {
            let left = s.subrange(0, i);
            assert(left[c] == s[c]);
            lemma_leading_ws(left);
            lemma_trailing_ws(left);
            let a = crate::text::leading_ws(left);
            let b = left.len() - crate::text::trailing_ws(left);
            if a > c {
                assert(is_ws_char(left[c]));
            }
            if c >= b {
                assert(is_ws_char(left[c]));
            }
            let t = trimmed(left);
            assert(t[c - a] == left[c]);
            lemma_decimal_chars(t);
            assert(is_digit(',') || ',' == '-' || ',' == '.');
        }
    }
}

/// If the split at the first comma fails, no comma gives the pair pattern.
proof fn lemma_latlon_first_comma(s: Seq<char>, c: int)
    requires
        0 <= c < s.len(),
        s[c] == ',',
        forall|k: int| 0 <= k < c ==> s[k] != ',',
        !(is_decimal(trimmed(s.subrange(0, c))) && is_decimal(
            trimmed(s.subrange(c + 1, s.len() as int)),
        )),
    ensures
        !is_latlon_text(s),
{
    lemma_latlon_split_unique(s, c);
}

/// Decides the "lat,lon" pair pattern.
pub fn is_latlon_str(s: &str) -> (r: bool)
    ensures
        r == is_latlon_text(s@),
{
    let n: usize = s.unicode_len();
    let mut c: usize = 0;
    loop
        invariant
            0 <= c <= n,
            n == s@.len(),
            forall|k: int| 0 <= k < c ==> s@[k] != ',',
        ensures
            0 <= c <= n,
            forall|k: int| 0 <= k < c ==> s@[k] != ',',
            c == n || s@[c as int] == ',',
        decreases n - c,
    {
        if c >= n {
            break;
        }
        if s.get_char(c) == ',' {
            break;
        }
        c = c + 1;
    }
    if c == n {
        proof {
            assert forall|i: int| !latlon_split_at(s@, i) by {}
        }
        return false;
    }
    let left = s.substring_char(0, c);
    let lt = trim_str(left);
    let right = s.substring_char(c + 1, n);
    let rt = trim_str(right);
    let r = is_decimal_str(lt) && is_decimal_str(rt);
    proof {
        if r {
            assert(latlon_split_at(s@, c as int));
        } else {
            lemma_latlon_first_comma(s@, c as int);
        }
    }
    r
}

// ------------------------------------------------------------------
// Geohashes
// ------------------------------------------------------------------
/// The base-32 geohash alphabet: digits and lowercase letters except
/// `a`, `i`, `l` and `o`.
pub open spec fn is_geohash_char(c: char) -> bool {
    is_digit(c) || ('b' <= c && c <= 'z' && c != 'i' && c != 'l' && c != 'o')
}

/// A geohash: one to twelve characters, all from the geohash alphabet.
pub open spec fn is_geohash_text(s: Seq<char>) -> bool {
    1 <= s.len() <= 12 && forall|i: int| 0 <= i < s.len() ==> is_geohash_char(s[i])
}

pub fn geohash_char(c: char) -> (r: bool)
    ensures
        r == is_geohash_char(c),
{
    ('0' <= c && c <= '9') || ('b' <= c && c <= 'z' && c != 'i' && c != 'l' && c != 'o')
}

/// Decides the geohash pattern.
pub fn is_geohash_str(s: &str) -> (r: bool)
    ensures
        r == is_geohash_text(s@),
{
    let n: usize = s.unicode_len();
    if n < 1 || n > 12 {
        return false;
    }
    let mut i: usize = 0;
    loop
        invariant
            0 <= i <= n,
            n == s@.len(),
            forall|k: int| 0 <= k < i ==> is_geohash_char(s@[k]),
        ensures
            0 <= i <= n,
            forall|k: int| 0 <= k < i ==> is_geohash_char(s@[k]),
            i == n || !is_geohash_char(s@[i as int]),
        decreases n - i,
    {
        if i >= n {
            break;
        }
        if !geohash_char(s.get_char(i)) {
            break;
        }
        i = i + 1;
    }
    i == n
}

// ------------------------------------------------------------------
// Well-Known Text
// ------------------------------------------------------------------
/// `c` matches the uppercase ASCII letter `k`, ignoring case.
pub open spec fn ci_matches(c: char, k: char) -> bool {
    c == k || c as u32 == k as u32 + 32
}

/// `s` begins with `kw`, compared case-insensitively against the uppercase
/// keyword `kw`.
pub open spec fn has_prefix_ci(s: Seq<char>, kw: Seq<char>) -> bool {
    s.len() >= kw.len() && forall|i: int| 0 <= i < kw.len() ==> ci_matches(s[i], kw[i])
}

/// The text begins with one of the seven WKT geometry keywords.
pub open spec fn is_wkt_text(s: Seq<char>) -> bool {
    ||| has_prefix_ci(s, "POINT"@)
    ||| has_prefix_ci(s, "LINESTRING"@)
    ||| has_prefix_ci(s, "POLYGON"@)
    ||| has_prefix_ci(s, "MULTIPOINT"@)
    ||| has_prefix_ci(s, "MULTILINESTRING"@)
    ||| has_prefix_ci(s, "MULTIPOLYGON"@)
    ||| has_prefix_ci(s, "GEOMETRYCOLLECTION"@)
}

/// Case-insensitive prefix test against an uppercase keyword.
pub fn starts_with_ci(s: &str, kw: &str) -> (r: bool)
    ensures
        r == has_prefix_ci(s@, kw@),
{
    let n: usize = s.unicode_len();
    let m: usize = kw.unicode_len();
    if n < m {
        return false;
    }
    let mut i: usize = 0;
    loop
        invariant
            0 <= i <= m,
            m <= n,
            n == s@.len(),
            m == kw@.len(),
            forall|k: int| 0 <= k < i ==> ci_matches(s@[k], kw@[k]),
        ensures
            0 <= i <= m,
            forall|k: int| 0 <= k < i ==> ci_matches(s@[k], kw@[k]),
            i == m || !ci_matches(s@[i as int], kw@[i as int]),
        decreases m - i,
    {
        if i >= m {
            break;
        }
        let c = s.get_char(i);
        let k = kw.get_char(i);
        if !(c == k || c as u32 == k as u32 + 32) {
            break;
        }
        i = i + 1;
    }
    i == m
}

/// Decides whether the text begins with a WKT keyword.
pub fn is_wkt_str(s: &str) -> (r: bool)
    ensures
        r == is_wkt_text(s@),
{
    starts_with_ci(s, "POINT") || starts_with_ci(s, "LINESTRING") || starts_with_ci(s, "POLYGON")
        || starts_with_ci(s, "MULTIPOINT") || starts_with_ci(s, "MULTILINESTRING")
        || starts_with_ci(s, "MULTIPOLYGON") || starts_with_ci(s, "GEOMETRYCOLLECTION")
}

// ------------------------------------------------------------------
// GeoJSON
// ------------------------------------------------------------------
/// The top-level `type` member of `s` read as JSON: the member's string
/// value when `s` parses as a JSON object whose `type` member holds a
/// string, nothing otherwise.
pub uninterp spec fn json_type_of(s: Seq<char>) -> Option<Seq<char>>;

/// Relies on serde_json::from_str and serde_json::Map::get: whether a text
/// parses as JSON, and what its top-level `type` member holds, are functions
/// of the text alone.
#[verifier::external_body]
fn json_type_field(s: &str) -> (r: Option<String>)
    ensures
        match r {
            Option::Some(t) => json_type_of(s@) == Option::Some(t@),
            Option::None => json_type_of(s@) is None,
        },
{
    match serde_json::from_str::<serde_json::Value>(s) {
        Ok(serde_json::Value::Object(m)) => match m.get("type") {
            Some(serde_json::Value::String(t)) => Some(t.clone()),
            _ => None,
        },
        _ => None,
    }
}

/// One of the seven GeoJSON geometry type names.
pub open spec fn is_geojson_geometry_name(t: Seq<char>) -> bool {
    ||| t == "Point"@
    ||| t == "LineString"@
    ||| t == "Polygon"@
    ||| t == "MultiPoint"@
    ||| t == "MultiLineString"@
    ||| t == "MultiPolygon"@
    ||| t == "GeometryCollection"@
}

/// The tag a JSON line gets, from its top-level `type` member.
pub open spec fn geojson_tag(t: Option<Seq<char>>) -> FormatTag {
    match t {
        Option::Some(ty) => if is_geojson_geometry_name(ty) {
            FormatTag::GeoJsonGeometry
        } else if ty == "Feature"@ {
            FormatTag::GeoJsonFeature
        } else if ty == "FeatureCollection"@ {
            FormatTag::GeoJsonFeatureCollection
        } else {
            FormatTag::Unrecognized
        },
        Option::None => FormatTag::Unrecognized,
    }
}

// ------------------------------------------------------------------
// Classification
// ------------------------------------------------------------------
/// The tag of one line: the first match among the pair pattern, the geohash
/// pattern, the WKT keywords and the GeoJSON `type` probe, on the trimmed
/// text; `Unrecognized` otherwise.
pub open spec fn spec_classify(line: Seq<char>) -> FormatTag {
    let t = trimmed(line);
    if is_latlon_text(t) {
        FormatTag::LatLon
    } else if is_geohash_text(t) {
        FormatTag::Geohash
    } else if is_wkt_text(t) {
        FormatTag::Wkt
    } else {
        geojson_tag(json_type_of(t))
    }
}

/// Every line whose trimmed text matches the "lat,lon" pair pattern is
/// classified as a pair: that pattern has the highest priority.
pub proof fn lemma_latlon_classified(line: Seq<char>)
    requires
        is_latlon_text(trimmed(line)),
    ensures
        spec_classify(line) == FormatTag::LatLon,
{
}

/// Every line whose trimmed text is one to twelve characters of the
/// geohash alphabet is classified as a geohash: such text holds no comma,
/// so the pair pattern can never pre-empt it.
pub proof fn lemma_geohash_classified(line: Seq<char>)
    requires
        is_geohash_text(trimmed(line)),
    ensures
        spec_classify(line) == FormatTag::Geohash,
{
    let t = trimmed(line);
    assert forall|i: int| !latlon_split_at(t, i) by {
        if latlon_split_at(t, i) {
            assert(is_geohash_char(t[i]));
        }
    }
}

/// Classifies one line of input. Total: every line gets a tag, and no
/// geometry is built.
pub fn classify(line: &str) -> (tag: FormatTag)
    ensures
        tag == spec_classify(line@),
{
    let t = trim_str(line);
    if is_latlon_str(t) {
        return FormatTag::LatLon;
    }
    if is_geohash_str(t) {
        return FormatTag::Geohash;
    }
    if is_wkt_str(t) {
        return FormatTag::Wkt;
    }
    match json_type_field(t) {
        Option::Some(ty) => {
            if ty == String::from_str("Point") || ty == String::from_str("LineString") || ty
                == String::from_str("Polygon") || ty == String::from_str("MultiPoint") || ty
                == String::from_str("MultiLineString") || ty == String::from_str("MultiPolygon")
                || ty == String::from_str("GeometryCollection") {
                FormatTag::GeoJsonGeometry
            } else if ty == String::from_str("Feature") {
                FormatTag::GeoJsonFeature
            } else if ty == String::from_str("FeatureCollection") {
                FormatTag::GeoJsonFeatureCollection
            } else {
                FormatTag::Unrecognized
            }
        },
        Option::None => FormatTag::Unrecognized,
    }
}

} // verus!
