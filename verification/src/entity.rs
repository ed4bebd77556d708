//! Entities: one classified, lazily convertible input record, and the
//! stream of entities a block of input lines yields.

use vstd::prelude::*;

use crate::error::ConversionError;
use crate::geom::{
    collect_canonical, collection_of, fc_geometries, fc_geometry_presence, feature_geometry,
    feature_geometry_state, feature_to_canonical, fc_to_canonical_list, geohash_bbox_canonical,
    geohash_bbox_geometry, geojson_geometry, geojson_kind, geojson_geometry_to_canonical,
    latlon_geometry, latlon_to_canonical, presence_of, wkt_geometry, wkt_kind, wkt_to_canonical,
    CanonicalGeometry, Geometry, GeometryKind,
};
use crate::numeric::magnitude_exceeds;
use crate::tag::{
    classify, is_latlon_text, latlon_split_at, lemma_latlon_split_unique, spec_classify, FormatTag,
};
use crate::text::{is_blank, trim_str, trimmed};

verus! {

// ------------------------------------------------------------------
// Conversion outcomes
// ------------------------------------------------------------------
/// An in-range "lat,lon" line: at its split the latitude magnitude stays
/// within 90 and the longitude magnitude within 180.
pub open spec fn latlon_in_range(t: Seq<char>) -> bool {
    exists|i: int|
        latlon_split_at(t, i) && !magnitude_exceeds(trimmed(t.subrange(0, i)), 90)
            && !magnitude_exceeds(trimmed(t.subrange(i + 1, t.len() as int)), 180)
}

/// Whether converting text tagged `k` is owed a canonical geometry.
pub open spec fn conversion_succeeds(k: FormatTag, raw: Seq<char>) -> bool {
    let t = trimmed(raw);
    match k {
        FormatTag::LatLon => latlon_in_range(t),
        FormatTag::Geohash => true,
        FormatTag::Wkt => wkt_kind(t) is Some,
        FormatTag::GeoJsonGeometry => geojson_kind(t) is Some,
        FormatTag::GeoJsonFeature => (feature_geometry_state(t) matches Option::Some(st)
            && st is Some),
        FormatTag::GeoJsonFeatureCollection => fc_geometry_presence(t) is Some,
        FormatTag::Unrecognized => false,
    }
}

/// The variant the converted geometry of text tagged `k` is owed, when
/// conversion succeeds; nothing when it fails.
pub open spec fn converted_kind(k: FormatTag, raw: Seq<char>) -> Option<GeometryKind> {
    let t = trimmed(raw);
    match k {
        FormatTag::LatLon => if latlon_in_range(t) {
            Option::Some(GeometryKind::Point)
        } else {
            Option::None
        },
        FormatTag::Geohash => Option::Some(GeometryKind::Polygon),
        FormatTag::Wkt => wkt_kind(t),
        FormatTag::GeoJsonGeometry => geojson_kind(t),
        FormatTag::GeoJsonFeature => match feature_geometry_state(t) {
            Option::Some(st) => st,
            Option::None => Option::None,
        },
        FormatTag::GeoJsonFeatureCollection => if fc_geometry_presence(t) is Some {
            Option::Some(GeometryKind::GeometryCollection)
        } else {
            Option::None
        },
        FormatTag::Unrecognized => Option::None,
    }
}

/// The geometry an in-range "lat,lon" line converts to: the codec's point
/// for the line's two components at its (unique) comma split.
pub open spec fn latlon_geometry_of(t: Seq<char>) -> Geometry {
    let i = choose|i: int| latlon_split_at(t, i);
    latlon_geometry(trimmed(t.subrange(0, i)), trimmed(t.subrange(i + 1, t.len() as int)))
}

/// The geometries of the features that have one, in order.
pub open spec fn keep_present(v: Seq<Option<CanonicalGeometry>>) -> Seq<CanonicalGeometry>
    decreases v.len(),
{
    if v.len() == 0 {
        Seq::empty()
    } else {
        let rest = keep_present(v.drop_first());
        match v.first() {
            Option::Some(c) => seq![c] + rest,
            Option::None => rest,
        }
    }
}

/// The geometry value the converted text tagged `k` is owed, when
/// conversion succeeds; nothing when it fails.
pub open spec fn converted_geometry(k: FormatTag, raw: Seq<char>) -> Option<Geometry> {
    let t = trimmed(raw);
    match k {
        FormatTag::LatLon => if latlon_in_range(t) {
            Option::Some(latlon_geometry_of(t))
        } else {
            Option::None
        },
        FormatTag::Geohash => Option::Some(geohash_bbox_geometry(t)),
        FormatTag::Wkt => wkt_geometry(t),
        FormatTag::GeoJsonGeometry => geojson_geometry(t),
        FormatTag::GeoJsonFeature => match feature_geometry(t) {
            Option::Some(st) => st,
            Option::None => Option::None,
        },
        FormatTag::GeoJsonFeatureCollection => match fc_geometries(t) {
            Option::Some(v) => Option::Some(collection_of(keep_present(v))),
            Option::None => Option::None,
        },
        FormatTag::Unrecognized => Option::None,
    }
}

/// Conversion succeeds exactly when a converted geometry value is owed.
pub proof fn lemma_converted_geometry_some(k: FormatTag, raw: Seq<char>)
    ensures
        converted_geometry(k, raw) is Some <==> conversion_succeeds(k, raw),
{
}

/// The error a failed conversion of text tagged `k` is owed.
pub open spec fn is_conversion_error_for(e: ConversionError, k: FormatTag, raw: Seq<char>) -> bool {
    match k {
        FormatTag::LatLon => e == ConversionError::RangeError,
        FormatTag::Geohash => false,
        FormatTag::GeoJsonFeature => if feature_geometry_state(trimmed(raw)) is None {
            e matches ConversionError::ParseError(t) && t@ == raw
        } else {
            e == ConversionError::MissingGeometryError
        },
        _ => e matches ConversionError::ParseError(t) && t@ == raw,
    }
}

/// Converts an in-range "lat,lon" line to a point at (lon, lat); a pair
/// whose magnitudes are out of range fails with the range error.
fn latlon_convert(t: &str) -> (r: Result<Geometry, ConversionError>)
    requires
        is_latlon_text(t@),
    ensures
        r is Ok <==> latlon_in_range(t@),
        r matches Ok(g) ==> g == latlon_geometry_of(t@),
        r matches Ok(g) ==> g.kind == GeometryKind::Point,
        r matches Err(e) ==> e == ConversionError::RangeError,
{
    let n: usize = t.unicode_len();
    let mut c: usize = 0;
    loop
        invariant
            0 <= c <= n,
            n == t@.len(),
            forall|k: int| 0 <= k < c ==> t@[k] != ',',
        ensures
            0 <= c <= n,
            forall|k: int| 0 <= k < c ==> t@[k] != ',',
            c == n || t@[c as int] == ',',
        decreases n - c,
    {
        if c >= n {
            break;
        }
        if t.get_char(c) == ',' {
            break;
        }
        c = c + 1;
    }
    if c == n {
        proof {
            let i = choose|i: int| latlon_split_at(t@, i);
            assert(t@[i] == ',');
            assert(false);
        }
        return Err(ConversionError::RangeError);
    }
    proof {
        lemma_latlon_split_unique(t@, c as int);
        let i = choose|i: int| latlon_split_at(t@, i);
        assert(latlon_split_at(t@, i));
        assert(latlon_split_at(t@, c as int));
    }
    let left = t.substring_char(0, c);
    let lat = trim_str(left);
    let right = t.substring_char(c + 1, n);
    let lon = trim_str(right);
    let lat_bad = crate::numeric::decimal_exceeds(lat, 90);
    let lon_bad = crate::numeric::decimal_exceeds(lon, 180);
    if lat_bad || lon_bad {
        proof {
            assert forall|i: int|
                !(latlon_split_at(t@, i) && !magnitude_exceeds(trimmed(t@.subrange(0, i)), 90)
                    && !magnitude_exceeds(
                    trimmed(t@.subrange(i + 1, t@.len() as int)),
                    180,
                )) by {
                if latlon_split_at(t@, i) {
                    assert(i == c);
                }
            }
        }
        return Err(ConversionError::RangeError);
    }
    match latlon_to_canonical(lat, lon) {
        Option::Some(g) => {
            proof {
                let i = choose|i: int| latlon_split_at(t@, i);
                assert(i == c);
            }
            Ok(g)
        },
        Option::None => {
            proof {
                assert(false);
            }
            Err(ConversionError::RangeError)
        },
    }
}

/// How many entries of `s` are true.
pub open spec fn count_trues(s: Seq<bool>) -> int
    decreases s.len(),
{
    if s.len() == 0 {
        0
    } else {
        count_trues(s.drop_last()) + (if s.last() {
            1int
        } else {
            0int
        })
    }
}

proof fn lemma_keep_present_snoc(v: Seq<Option<CanonicalGeometry>>, x: Option<CanonicalGeometry>)
    ensures
        keep_present(v.push(x)) == keep_present(v) + (match x {
            Option::Some(c) => seq![c],
            Option::None => Seq::<CanonicalGeometry>::empty(),
        }),
    decreases v.len(),
{
    let p = v.push(x);
    if v.len() == 0 {
        assert(p.first() == x);
        assert(p.drop_first() =~= Seq::<Option<CanonicalGeometry>>::empty());
        assert(keep_present(p.drop_first()) =~= Seq::<CanonicalGeometry>::empty());
        match x {
            Option::Some(c) => {
                assert(keep_present(p) =~= keep_present(v) + seq![c]);
            },
            Option::None => {
                assert(keep_present(p) =~= keep_present(v) + Seq::<CanonicalGeometry>::empty());
            },
        }
    } else {
        assert(p.first() == v.first());
        assert(p.drop_first() =~= v.drop_first().push(x));
        lemma_keep_present_snoc(v.drop_first(), x);
        let rest = keep_present(v.drop_first());
        let tail: Seq<CanonicalGeometry> = match x {
            Option::Some(c) => seq![c],
            Option::None => Seq::empty(),
        };
        match v.first() {
            Option::Some(c0) => {
                assert(seq![c0] + (rest + tail) =~= (seq![c0] + rest) + tail);
            },
            Option::None => {
                if x is None {
                    assert(rest + tail =~= rest);
                    assert(keep_present(v) + tail =~= keep_present(v));
                }
            },
        }
    }
}

/// Keeps the geometries of the features that have one, in order.
fn fc_keep_present(parts: Vec<Option<CanonicalGeometry>>) -> (out: Vec<CanonicalGeometry>)
    ensures
        out@ == keep_present(parts@),
        out@.len() == count_trues(presence_of(parts@)),
{
    let ghost orig = parts@;
    let mut rest = parts;
    let mut out: Vec<CanonicalGeometry> = Vec::new();
    proof {
        assert(presence_of(orig).take(0) =~= Seq::<bool>::empty());
        assert(orig.take(0) =~= Seq::<Option<CanonicalGeometry>>::empty());
    }
    loop
        invariant
            rest@.len() <= orig.len(),
            rest@ == orig.skip(orig.len() - rest@.len()),
            out@ == keep_present(orig.take(orig.len() - rest@.len())),
            out@.len() == count_trues(presence_of(orig).take(orig.len() - rest@.len())),
        ensures
            rest@.len() == 0,
            out@ == keep_present(orig.take(orig.len() as int)),
            out@.len() == count_trues(presence_of(orig).take(orig.len() as int)),
        decreases rest@.len(),
    {
        if rest.len() == 0 {
            break;
        }
        let ghost k = orig.len() - rest@.len();
        let p = rest.remove(0);
        proof {
            assert(p == orig[k]);
            assert(rest@ =~= orig.skip(k + 1));
            assert(orig.take(k + 1) =~= orig.take(k).push(orig[k]));
            lemma_keep_present_snoc(orig.take(k), orig[k]);
            assert(presence_of(orig).take(k + 1).drop_last() =~= presence_of(orig).take(k));
            assert(presence_of(orig).take(k + 1).last() == presence_of(orig)[k]);
        }
        match p {
            Option::Some(c) => {
                out.push(c);
                proof {
                    assert(out@ =~= keep_present(orig.take(k)) + seq![c]);
                }
            },
            Option::None => {
                proof {
                    assert(keep_present(orig.take(k)) + Seq::<CanonicalGeometry>::empty()
                        =~= keep_present(orig.take(k)));
                }
            },
        }
    }
    proof {
        assert(presence_of(orig).take(orig.len() as int) =~= presence_of(orig));
        assert(orig.take(orig.len() as int) =~= orig);
    }
    out
}

/// The geometries of a GeoJSON FeatureCollection line, one per feature
/// with a non-null geometry; features with null geometry are skipped, not
/// errored.
pub fn feature_collection_geometries(line: &str) -> (r: Result<Vec<Geometry>, ConversionError>)
    ensures
        r is Ok <==> fc_geometry_presence(trimmed(line@)) is Some,
        r matches Ok(v) ==> v@.len() == count_trues(fc_geometry_presence(trimmed(line@)).unwrap()),
        r matches Err(e) ==> (e matches ConversionError::ParseError(x) && x@ == line@),
{
    let t = trim_str(line);
    match fc_to_canonical_list(t) {
        Option::None => Err(ConversionError::ParseError(line.to_owned())),
        Option::Some(parts) => {
            let mut flat = fc_keep_present(parts);
            let ghost total = flat@.len();
            let mut out: Vec<Geometry> = Vec::new();
            loop
                invariant
                    out@.len() + flat@.len() == total,
                ensures
                    flat@.len() == 0,
                    out@.len() == total,
                decreases flat@.len(),
            {
                if flat.len() == 0 {
                    break;
                }
                let c = flat.remove(0);
                out.push(Geometry::from_canonical(c));
            }
            Ok(out)
        },
    }
}

/// Converts classified text to its canonical geometry, with the outcome
/// the tag owes it.
fn convert_raw(kind: FormatTag, raw: &str) -> (r: Result<Geometry, ConversionError>)
    requires
        kind == spec_classify(raw@),
    ensures
        r is Ok <==> conversion_succeeds(kind, raw@),
        r matches Ok(g) ==> converted_kind(kind, raw@) == Option::Some(g.kind),
        r matches Ok(g) ==> converted_geometry(kind, raw@) == Option::Some(g),
        r matches Err(e) ==> is_conversion_error_for(e, kind, raw@),
{
    let t = trim_str(raw);
    match kind {
        FormatTag::LatLon => latlon_convert(t),
        FormatTag::Geohash => {
            proof {
                assert(crate::tag::is_geohash_text(t@));
            }
            match geohash_bbox_canonical(t) {
                Option::Some(g) => Ok(g),
                Option::None => {
                    proof {
                        assert(false);
                    }
                    Err(ConversionError::RangeError)
                },
            }
        },
        FormatTag::Wkt => match wkt_to_canonical(t) {
            Option::Some(g) => Ok(g),
            Option::None => Err(ConversionError::ParseError(raw.to_owned())),
        },
        FormatTag::GeoJsonGeometry => match geojson_geometry_to_canonical(t) {
            Option::Some(g) => Ok(g),
            Option::None => Err(ConversionError::ParseError(raw.to_owned())),
        },
        FormatTag::GeoJsonFeature => match feature_to_canonical(t) {
            Option::None => Err(ConversionError::ParseError(raw.to_owned())),
            Option::Some(Option::None) => Err(ConversionError::MissingGeometryError),
            Option::Some(Option::Some(g)) => Ok(g),
        },
        FormatTag::GeoJsonFeatureCollection => match fc_to_canonical_list(t) {
            Option::None => Err(ConversionError::ParseError(raw.to_owned())),
            Option::Some(parts) => Ok(collect_canonical(fc_keep_present(parts))),
        },
        FormatTag::Unrecognized => Err(ConversionError::ParseError(raw.to_owned())),
    }
}

// ------------------------------------------------------------------
// Entities
// ------------------------------------------------------------------
/// One line of input in its original encoding: the raw text, its tag, and
/// the memoized canonical geometry once a caller has asked for it.
pub struct Entity {
    pub raw: String,
    pub kind: FormatTag,
    pub cached: Option<Geometry>,
}

impl Entity {
    /// The tag is the one classification gives the raw text.
    pub open spec fn wf(self) -> bool {
        self.kind == spec_classify(self.raw@)
    }

    /// Classifies one line into an entity. Total: every line gets a tag.
    pub fn from_line(line: &str) -> (e: Entity)
        ensures
            e.wf(),
            e.raw@ == line@,
            e.kind == spec_classify(line@),
            e.cached is None,
    {
        Entity { raw: line.to_owned(), kind: classify(line), cached: None }
    }

    /// Converts the entity's text to its canonical geometry, memoized: the
    /// first successful conversion is kept, and a populated cache is never
    /// recomputed or mutated.
    pub fn ensure_geometry(&mut self) -> (r: Result<(), ConversionError>)
        requires
            old(self).wf(),
        ensures
            final(self).wf(),
            final(self).raw == old(self).raw,
            final(self).kind == old(self).kind,
            old(self).cached is Some ==> final(self).cached == old(self).cached,
            r is Ok <==> (old(self).cached is Some || conversion_succeeds(
                old(self).kind,
                old(self).raw@,
            )),
            r is Ok <==> final(self).cached is Some,
            old(self).cached is None && r is Ok ==> converted_kind(old(self).kind, old(self).raw@)
                == Option::Some(final(self).cached.unwrap().kind),
            old(self).cached is None && r is Ok ==> final(self).cached == converted_geometry(
                old(self).kind,
                old(self).raw@,
            ),
            r is Err ==> final(self).cached == old(self).cached,
            r matches Err(e) ==> is_conversion_error_for(e, old(self).kind, old(self).raw@),
    {
        if self.cached.is_some() {
            return Ok(());
        }
        match convert_raw(self.kind, self.raw.as_str()) {
            Ok(g) => {
                self.cached = Some(g);
                Ok(())
            },
            Err(e) => Err(e),
        }
    }
}

// ------------------------------------------------------------------
// The entity stream
// ------------------------------------------------------------------
/// The non-blank lines of a block of input, in order.
pub open spec fn nonblank_lines(lines: Seq<Seq<char>>) -> Seq<Seq<char>>
    decreases lines.len(),
{
    if lines.len() == 0 {
        Seq::empty()
    } else {
        let rest = nonblank_lines(lines.drop_first());
        if is_blank(lines.first()) {
            rest
        } else {
            seq![lines.first()] + rest
        }
    }
}

proof fn lemma_nonblank_snoc(lines: Seq<Seq<char>>, x: Seq<char>)
    ensures
        nonblank_lines(lines.push(x)) == nonblank_lines(lines) + (if is_blank(x) {
            Seq::<Seq<char>>::empty()
        } else {
            seq![x]
        }),
    decreases lines.len(),
{
    let p = lines.push(x);
    if lines.len() == 0 {
        assert(p.first() == x);
        assert(p.drop_first() =~= Seq::<Seq<char>>::empty());
        assert(p.len() == 1);
        assert(nonblank_lines(p.drop_first()) =~= Seq::<Seq<char>>::empty());
        assert(nonblank_lines(lines) =~= Seq::<Seq<char>>::empty());
        if is_blank(x) {
            assert(nonblank_lines(p) == nonblank_lines(p.drop_first()));
            assert(nonblank_lines(p) =~= nonblank_lines(lines) + Seq::<Seq<char>>::empty());
        } else {
            assert(nonblank_lines(p) =~= nonblank_lines(lines) + seq![x]);
        }
    } else {
        assert(p.first() == lines.first());
        assert(p.drop_first() =~= lines.drop_first().push(x));
        lemma_nonblank_snoc(lines.drop_first(), x);
        if is_blank(x) {
            assert(nonblank_lines(lines.drop_first()) + Seq::<Seq<char>>::empty()
                =~= nonblank_lines(lines.drop_first()));
            assert(nonblank_lines(lines) + Seq::<Seq<char>>::empty() =~= nonblank_lines(lines));
            if !is_blank(lines.first()) {
                assert(nonblank_lines(p) =~= nonblank_lines(lines));
            }
        } else {
            if !is_blank(lines.first()) {
                assert(seq![lines.first()] + (nonblank_lines(lines.drop_first()) + seq![x])
                    =~= (seq![lines.first()] + nonblank_lines(lines.drop_first())) + seq![x]);
            }
        }
    }
}

/// One entity per non-blank line, in input order: classification never
/// fails, so the stream itself never aborts.
pub fn entities_from_lines(lines: &Vec<String>) -> (out: Vec<Entity>)
    ensures
        out@.map_values(|e: Entity| e.raw@) == nonblank_lines(
            lines@.map_values(|l: String| l@),
        ),
        forall|i: int| 0 <= i < out@.len() ==> (#[trigger] out@[i]).wf() && out@[i].cached is None,
{
    let ghost mapped = lines@.map_values(|l: String| l@);
    let mut out: Vec<Entity> = Vec::new();
    let n: usize = lines.len();
    let mut i: usize = 0;
    proof {
        assert(mapped.take(0) =~= Seq::<Seq<char>>::empty());
    }
    loop
        invariant
            0 <= i <= n,
            n == lines@.len(),
            mapped == lines@.map_values(|l: String| l@),
            out@.map_values(|e: Entity| e.raw@) == nonblank_lines(mapped.take(i as int)),
            forall|k: int|
                0 <= k < out@.len() ==> (#[trigger] out@[k]).wf() && out@[k].cached is None,
        ensures
            i == n,
            out@.map_values(|e: Entity| e.raw@) == nonblank_lines(mapped.take(n as int)),
            forall|k: int|
                0 <= k < out@.len() ==> (#[trigger] out@[k]).wf() && out@[k].cached is None,
        decreases n - i,
    {
        if i >= n {
            break;
        }
        let line: &String = &lines[i];
        proof {
            assert(mapped.take(i + 1) =~= mapped.take(i as int).push(mapped[i as int]));
            lemma_nonblank_snoc(mapped.take(i as int), mapped[i as int]);
        }
        if !crate::text::is_blank_line(line.as_str()) {
            let e = Entity::from_line(line.as_str());
            out.push(e);
            proof {
                assert(out@.map_values(|e: Entity| e.raw@) =~= nonblank_lines(
                    mapped.take(i as int),
                ) + seq![mapped[i as int]]);
            }
        }
        i = i + 1;
    }
    proof {
        assert(mapped.take(n as int) =~= mapped);
    }
    out
}

} // verus!
