//! The geohash operations the command surface exposes: encoding a
//! "lat,lon" line at a chosen precision, and decoding a geohash to its
//! bounding box or its center point.

use vstd::prelude::*;

use crate::entity::latlon_in_range;
use crate::error::ConversionError;
use crate::geom::{
    geohash_bbox_canonical, geohash_bbox_geometry, geohash_center_canonical,
    geohash_center_geometry, geohash_encode_raw, geohash_encoding, Geometry, GeometryKind,
};
use crate::numeric::magnitude_exceeds;
use crate::tag::{
    is_geohash_str, is_geohash_text, is_latlon_str, is_latlon_text, latlon_split_at,
    lemma_latlon_split_unique,
};
use crate::text::{trim_str, trimmed};

verus! {

/// The latitude and longitude of an in-range "lat,lon" line encode to a
/// geohash at every precision of one to twelve characters.
pub open spec fn latlon_encodes_at(t: Seq<char>, level: int, h: Seq<char>) -> bool {
    exists|i: int|
        {
            &&& #[trigger] latlon_split_at(t, i)
            &&& !magnitude_exceeds(trimmed(t.subrange(0, i)), 90)
            &&& !magnitude_exceeds(trimmed(t.subrange(i + 1, t.len() as int)), 180)
            &&& geohash_encoding(
                trimmed(t.subrange(0, i)),
                trimmed(t.subrange(i + 1, t.len() as int)),
                level,
            ) == Option::Some(h)
        }
}

/// Encodes a "lat,lon" line as a geohash of `level` characters. A line
/// that is not a numeric pair fails as unparsed; out-of-range coordinates,
/// or a precision outside one to twelve, fail as out of range.
pub fn gh_point(line: &str, level: usize) -> (r: Result<String, ConversionError>)
    ensures
        r is Ok <==> (latlon_in_range(trimmed(line@)) && 1 <= level <= 12),
        r matches Ok(h) ==> latlon_encodes_at(trimmed(line@), level as int, h@),
        !is_latlon_text(trimmed(line@)) ==> (r matches Err(e) && (e matches
            ConversionError::ParseError(x) && x@ == line@)),
        is_latlon_text(trimmed(line@)) && r is Err ==> r == Err::<String, ConversionError>(
            ConversionError::RangeError,
        ),
        (level < 1 || level > 12) && is_latlon_text(trimmed(line@)) ==> r == Err::<
            String,
            ConversionError,
        >(ConversionError::RangeError),
{
    let t = trim_str(line);
    if !is_latlon_str(t) {
        proof {
            assert forall|i: int|
                !(latlon_split_at(t@, i) && !magnitude_exceeds(trimmed(t@.subrange(0, i)), 90)
                    && !magnitude_exceeds(
                    trimmed(t@.subrange(i + 1, t@.len() as int)),
                    180,
                )) by {}
        }
        return Err(ConversionError::ParseError(line.to_owned()));
    }
    if level < 1 || level > 12 {
        return Err(ConversionError::RangeError);
    }
    let n: usize = t.unicode_len();
    let mut c: usize = 0;
    loop
        invariant
            0 <= c <= n,
            n == t@.len(),
            forall|k: int| 0 <= k < c ==> t@[k] != ',',
        ensures
            0 <= c <= n,
            forall|k: int| 0 <= k < c ==> t@[k] != ',',
            c == n || t@[c as int] == ',',
        decreases n - c,
    {
        if c >= n {
            break;
        }
        if t.get_char(c) == ',' {
            break;
        }
        c = c + 1;
    }
    if c == n {
        proof {
            let i = choose|i: int| latlon_split_at(t@, i);
            assert(t@[i] == ',');
            assert(false);
        }
        return Err(ConversionError::RangeError);
    }
    proof {
        lemma_latlon_split_unique(t@, c as int);
        let i = choose|i: int| latlon_split_at(t@, i);
        assert(latlon_split_at(t@, i));
        assert(latlon_split_at(t@, c as int));
    }
    let left = t.substring_char(0, c);
    let lat = trim_str(left);
    let right = t.substring_char(c + 1, n);
    let lon = trim_str(right);
    let lat_bad = crate::numeric::decimal_exceeds(lat, 90);
    let lon_bad = crate::numeric::decimal_exceeds(lon, 180);
    if lat_bad || lon_bad {
        proof {
            assert forall|i: int|
                !(latlon_split_at(t@, i) && !magnitude_exceeds(trimmed(t@.subrange(0, i)), 90)
                    && !magnitude_exceeds(
                    trimmed(t@.subrange(i + 1, t@.len() as int)),
                    180,
                )) by {
                if latlon_split_at(t@, i) {
                    assert(i == c);
                }
            }
        }
        return Err(ConversionError::RangeError);
    }
    match geohash_encode_raw(lat, lon, level) {
        Option::Some(h) => Ok(h),
        Option::None => {
            proof {
                assert(false);
            }
            Err(ConversionError::RangeError)
        },
    }
}

/// The bounding box of a geohash, as a polygon; text outside the geohash
/// pattern fails as unparsed.
pub fn bbox_of(hash: &str) -> (r: Result<Geometry, ConversionError>)
    ensures
        r is Ok <==> is_geohash_text(hash@),
        r matches Ok(g) ==> g == geohash_bbox_geometry(hash@),
        r matches Ok(g) ==> g.kind == GeometryKind::Polygon,
        r matches Err(e) ==> (e matches ConversionError::ParseError(x) && x@ == hash@),
{
    if !is_geohash_str(hash) {
        return Err(ConversionError::ParseError(hash.to_owned()));
    }
    match geohash_bbox_canonical(hash) {
        Option::Some(g) => Ok(g),
        Option::None => {
            proof {
                assert(false);
            }
            Err(ConversionError::ParseError(hash.to_owned()))
        },
    }
}

/// The center point of a geohash's box; text outside the geohash pattern
/// fails as unparsed.
pub fn center_of(hash: &str) -> (r: Result<Geometry, ConversionError>)
    ensures
        r is Ok <==> is_geohash_text(hash@),
        r matches Ok(g) ==> g == geohash_center_geometry(hash@),
        r matches Ok(g) ==> g.kind == GeometryKind::Point,
        r matches Err(e) ==> (e matches ConversionError::ParseError(x) && x@ == hash@),
{
    if !is_geohash_str(hash) {
        return Err(ConversionError::ParseError(hash.to_owned()));
    }
    match geohash_center_canonical(hash) {
        Option::Some(g) => Ok(g),
        Option::None => {
            proof {
                assert(false);
            }
            Err(ConversionError::ParseError(hash.to_owned()))
        },
    }
}

/// The base-32 geohash alphabet, in encoding order.
pub open spec fn geohash_alphabet() -> Seq<char> {
    seq![
        '0', '1', '2', '3', '4', '5', '6', '7', '8', '9', 'b', 'c', 'd', 'e', 'f', 'g', 'h', 'j',
        'k', 'm', 'n', 'p', 'q', 'r', 's', 't', 'u', 'v', 'w', 'x', 'y', 'z',
    ]
}

/// The character at position `i` of the geohash alphabet.
fn alphabet_char(i: usize) -> (c: char)
    requires
        i < 32,
    ensures
        c == geohash_alphabet()[i as int],
{
    match i {
        0 => '0',
        1 => '1',
        2 => '2',
        3 => '3',
        4 => '4',
        5 => '5',
        6 => '6',
        7 => '7',
        8 => '8',
        9 => '9',
        10 => 'b',
        11 => 'c',
        12 => 'd',
        13 => 'e',
        14 => 'f',
        15 => 'g',
        16 => 'h',
        17 => 'j',
        18 => 'k',
        19 => 'm',
        20 => 'n',
        21 => 'p',
        22 => 'q',
        23 => 'r',
        24 => 's',
        25 => 't',
        26 => 'u',
        27 => 'v',
        28 => 'w',
        29 => 'x',
        30 => 'y',
        31 => 'z',
        _ => '0',
    }
}

/// Relies on String::push: appends exactly the one character.
#[verifier::external_body]
fn string_push_char(s: &mut String, c: char)
    ensures
        final(s)@ == old(s)@.push(c),
{
    s.push(c);
}

/// The 32 children of a geohash, one precision level down: the hash
/// followed by each alphabet character, in alphabet order.
pub fn children_of(hash: &str) -> (r: Vec<String>)
    ensures
        r@.len() == 32,
        forall|i: int| 0 <= i < 32 ==> (#[trigger] r@[i])@ == hash@.push(geohash_alphabet()[i]),
{
    let mut out: Vec<String> = Vec::new();
    let mut i: usize = 0;
    while i < 32
        invariant
            0 <= i <= 32,
            out@.len() == i,
            forall|k: int|
                0 <= k < i ==> (#[trigger] out@[k])@ == hash@.push(geohash_alphabet()[k]),
        decreases 32 - i,
    {
        let mut s = hash.to_owned();
        string_push_char(&mut s, alphabet_char(i));
        out.push(s);
        i = i + 1;
    }
    out
}

/// The 32 single-character geohash roots, in alphabet order.
pub fn roots() -> (r: Vec<String>)
    ensures
        r@.len() == 32,
        forall|i: int| 0 <= i < 32 ==> (#[trigger] r@[i])@ == seq![geohash_alphabet()[i]],
{
    let mut out: Vec<String> = Vec::new();
    let mut i: usize = 0;
    while i < 32
        invariant
            0 <= i <= 32,
            out@.len() == i,
            forall|k: int| 0 <= k < i ==> (#[trigger] out@[k])@ == seq![geohash_alphabet()[k]],
        decreases 32 - i,
    {
        let mut s = String::new();
        string_push_char(&mut s, alphabet_char(i));
        proof {
            assert(s@ =~= seq![geohash_alphabet()[i as int]]);
        }
        out.push(s);
        i = i + 1;
    }
    out
}

/// The five bits of a packed 64-bit geohash that select its character `i`:
/// the bits just below bit `64 - 5i`.
pub open spec fn long_digit(v: u64, i: int) -> u64 {
    (v >> ((59 - 5 * i) as u64)) & 31
}

/// Writes a 64-bit packed geohash, given in base 10, as twelve base-32
/// characters: character `i` holds the five bits below bit `64 - 5i`, the
/// packing the geohash codec uses; the low four bits select no character.
pub fn encode_long(v: u64) -> (r: String)
    ensures
        r@.len() == 12,
        forall|i: int| 0 <= i < 12 ==> r@[i] == geohash_alphabet()[long_digit(v, i) as int],
{
    let mut out = String::new();
    let mut i: usize = 0;
    while i < 12
        invariant
            0 <= i <= 12,
            out@.len() == i,
            forall|k: int| 0 <= k < i ==> out@[k] == geohash_alphabet()[long_digit(v, k) as int],
        decreases 12 - i,
    {
        let shift: u64 = (59 - 5 * i) as u64;
        let d: u64 = (v >> shift) & 31;
        proof {
            assert(((v >> shift) & 31) < 32) by (bit_vector);
        }
        string_push_char(&mut out, alphabet_char(d as usize));
        i = i + 1;
    }
    out
}

/// The eight neighboring geohashes of a hash at its own precision,
/// clockwise from north: a function of the hash alone.
pub uninterp spec fn geohash_neighbors(h: Seq<char>) -> Option<Seq<Seq<char>>>;

/// Relies on geohash::neighbors: every text over the geohash alphabet of
/// length at most twelve has eight neighbors at its own precision. The
/// empty text is excluded: on it the decoder reaches an unchecked 64-bit
/// shift.
#[verifier::external_body]
fn geohash_neighbors_raw(h: &str) -> (r: Option<Vec<String>>)
    requires
        h@.len() >= 1,
    ensures
        match r {
            Option::Some(v) => geohash_neighbors(h@) == Option::Some(
                v@.map_values(|s: String| s@),
            ) && v@.len() == 8,
            Option::None => geohash_neighbors(h@) is None,
        },
        is_geohash_text(h@) ==> r is Some,
{
    match geohash::neighbors(h) {
        Ok(n) => Some(vec![n.n, n.ne, n.e, n.se, n.s, n.sw, n.w, n.nw]),
        Err(_) => None,
    }
}

/// The eight neighbors of a geohash, clockwise from north; text outside
/// the geohash pattern fails as unparsed.
pub fn neighbors_of(hash: &str) -> (r: Result<Vec<String>, ConversionError>)
    ensures
        r is Ok <==> is_geohash_text(hash@),
        r matches Ok(v) ==> v@.len() == 8 && geohash_neighbors(hash@) == Option::Some(
            v@.map_values(|s: String| s@),
        ),
        r matches Err(e) ==> (e matches ConversionError::ParseError(x) && x@ == hash@),
{
    if !is_geohash_str(hash) {
        return Err(ConversionError::ParseError(hash.to_owned()));
    }
    match geohash_neighbors_raw(hash) {
        Option::Some(v) => Ok(v),
        Option::None => {
            proof {
                assert(false);
            }
            Err(ConversionError::ParseError(hash.to_owned()))
        },
    }
}

} // verus!
