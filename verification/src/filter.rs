//! The predicate filter: query sets, spatial predicate evaluation, and the
//! selection of stream entities, with the selection logic specified
//! exactly and the order-preservation and negation-complement laws proved.

use vstd::prelude::*;

use crate::entity::{
    conversion_succeeds, converted_geometry, converted_kind, entities_from_lines,
    is_conversion_error_for, lemma_converted_geometry_some, nonblank_lines, Entity,
};
use crate::error::{ConversionError, Error};
use crate::geom::{
    canonical_contains, canonical_intersects, contains_result, intersects_result, is_areal,
    CanonicalGeometry, Geometry, GeometryKind,
};
use crate::tag::spec_classify;

verus! {

/// The spatial relationships the filter can test.
#[derive(Clone, Copy, Debug, PartialEq, Eq, Structural)]
pub enum Predicate {
    Intersects,
    Contains,
}

/// The intersection predicate, as the geometry library decides it: true
/// when the two geometries share at least one point.
pub fn intersects(a: &Geometry, b: &Geometry) -> (r: bool)
    ensures
        r == intersects_result(a.value, b.value),
{
    canonical_intersects(&a.value, &b.value)
}

/// The containment predicate: whether `b` lies entirely within `a`. Only a
/// polygonal geometry may stand on the left; for any other kind — a point,
/// a line string, a collection — the call fails instead of answering.
pub fn contains(a: &Geometry, b: &Geometry) -> (r: Result<bool, ConversionError>)
    ensures
        r is Ok <==> is_areal(a.kind),
        r matches Ok(m) ==> m == contains_result(a.value, b.value),
        !is_areal(a.kind) ==> r == Err::<bool, ConversionError>(
            ConversionError::UnsupportedPredicateGeometry,
        ),
{
    match a.kind {
        GeometryKind::Polygon => Ok(canonical_contains(&a.value, &b.value)),
        GeometryKind::MultiPolygon => Ok(canonical_contains(&a.value, &b.value)),
        _ => Err(ConversionError::UnsupportedPredicateGeometry),
    }
}

/// The views of a block of lines.
pub open spec fn line_views(lines: Seq<String>) -> Seq<Seq<char>> {
    lines.map_values(|l: String| l@)
}

/// Every line of the block converts to a geometry.
pub open spec fn all_lines_convert(nb: Seq<Seq<char>>) -> bool {
    forall|i: int|
        0 <= i < nb.len() ==> conversion_succeeds(spec_classify(#[trigger] nb[i]), nb[i])
}

/// Every line of the block converts to a polygonal geometry: what a
/// `contains` query set demands of its lines.
pub open spec fn all_queries_areal(nb: Seq<Seq<char>>) -> bool {
    forall|i: int|
        0 <= i < nb.len() ==> is_areal(
            converted_kind(spec_classify(#[trigger] nb[i]), nb[i]).unwrap(),
        )
}

/// Whether one query geometry stands in the predicate relation to `g`, as
/// the geometry library decides the pair.
pub open spec fn pair_matches(q: CanonicalGeometry, g: CanonicalGeometry, pred: Predicate) -> bool {
    match pred {
        Predicate::Intersects => intersects_result(q, g),
        Predicate::Contains => contains_result(q, g),
    }
}

/// Whether `g` stands in the predicate relation to any of the query
/// geometries: a logical OR across the queries.
pub open spec fn matches_any(
    g: CanonicalGeometry,
    qgeoms: Seq<CanonicalGeometry>,
    pred: Predicate,
) -> bool {
    exists|i: int| 0 <= i < qgeoms.len() && #[trigger] pair_matches(qgeoms[i], g, pred)
}

/// The geometries of a built query set's entities, in order.
pub open spec fn query_geoms_of(items: Seq<Entity>) -> Seq<CanonicalGeometry> {
    items.map_values(|e: Entity| e.cached.unwrap().value)
}

/// The geometries a block of convertible query lines yields, in order.
pub open spec fn converted_query_geoms(nb: Seq<Seq<char>>) -> Seq<CanonicalGeometry> {
    Seq::new(nb.len(), |i: int| converted_geometry(spec_classify(nb[i]), nb[i]).unwrap().value)
}

/// The decision the filter owes each line: nothing when its conversion
/// fails (the line is dropped), otherwise whether its geometry matches
/// any query geometry.
pub open spec fn filter_profile(
    nb: Seq<Seq<char>>,
    qgeoms: Seq<CanonicalGeometry>,
    pred: Predicate,
) -> Seq<Option<bool>> {
    Seq::new(
        nb.len(),
        |i: int|
            match converted_geometry(spec_classify(nb[i]), nb[i]) {
                Option::Some(g) => Option::Some(matches_any(g.value, qgeoms, pred)),
                Option::None => Option::<bool>::None,
            },
    )
}

// ------------------------------------------------------------------
// Query sets
// ------------------------------------------------------------------
/// The fixed, eagerly converted, read-only set of query entities a stream
/// is filtered against.
pub struct QuerySet {
    pub items: Vec<Entity>,
}

impl QuerySet {
    /// Every query entity is well-formed and already converted.
    pub open spec fn wf(self) -> bool {
        forall|i: int|
            0 <= i < self.items@.len() ==> (#[trigger] self.items@[i]).wf()
                && self.items@[i].cached is Some
    }

    /// Every query geometry is polygonal.
    pub open spec fn all_areal(self) -> bool {
        forall|i: int|
            0 <= i < self.items@.len() ==> is_areal(
                (#[trigger] self.items@[i]).cached.unwrap().kind,
            )
    }

    /// The raw texts of the queries, in order.
    pub open spec fn raws(self) -> Seq<Seq<char>> {
        self.items@.map_values(|e: Entity| e.raw@)
    }

    /// Builds the query set from its lines, one entity per non-blank line,
    /// each eagerly converted. An empty set is a configuration error; a
    /// query that fails to convert is fatal; a `contains` query that is
    /// not polygonal is unsupported.
    pub fn build(lines: &Vec<String>, pred: Predicate) -> (r: Result<QuerySet, Error>)
        ensures
            (r == Err::<QuerySet, Error>(Error::ConfigurationError)) <==> nonblank_lines(
                line_views(lines@),
            ).len() == 0,
            r matches Ok(qs) ==> qs.wf() && qs.raws() == nonblank_lines(line_views(lines@))
                && qs.items@.len() > 0 && (pred == Predicate::Contains ==> qs.all_areal()),
            r matches Ok(qs) ==> forall|i: int|
                0 <= i < qs.items@.len() ==> (#[trigger] qs.items@[i]).cached
                    == converted_geometry(
                    spec_classify(nonblank_lines(line_views(lines@))[i]),
                    nonblank_lines(line_views(lines@))[i],
                ) && Option::Some(qs.items@[i].cached.unwrap().kind) == converted_kind(
                    spec_classify(nonblank_lines(line_views(lines@))[i]),
                    nonblank_lines(line_views(lines@))[i],
                ),
            r matches Ok(qs) ==> query_geoms_of(qs.items@) == converted_query_geoms(
                nonblank_lines(line_views(lines@)),
            ),
            nonblank_lines(line_views(lines@)).len() > 0 && all_lines_convert(
                nonblank_lines(line_views(lines@)),
            ) && pred == Predicate::Contains && !all_queries_areal(
                nonblank_lines(line_views(lines@)),
            ) ==> r == Err::<QuerySet, Error>(
                Error::Conversion(ConversionError::UnsupportedPredicateGeometry),
            ),
            r is Ok ==> all_lines_convert(nonblank_lines(line_views(lines@))),
            nonblank_lines(line_views(lines@)).len() > 0 && all_lines_convert(
                nonblank_lines(line_views(lines@)),
            ) && (pred == Predicate::Contains ==> all_queries_areal(
                nonblank_lines(line_views(lines@)),
            )) ==> r is Ok,
            nonblank_lines(line_views(lines@)).len() > 0 && !all_lines_convert(
                nonblank_lines(line_views(lines@)),
            ) ==> r matches Err(Error::Conversion(_)),
            r matches Err(Error::Conversion(e)) ==> (exists|i: int|
                0 <= i < nonblank_lines(line_views(lines@)).len() && !conversion_succeeds(
                    spec_classify(#[trigger] nonblank_lines(line_views(lines@))[i]),
                    nonblank_lines(line_views(lines@))[i],
                ) && is_conversion_error_for(
                    e,
                    spec_classify(nonblank_lines(line_views(lines@))[i]),
                    nonblank_lines(line_views(lines@))[i],
                )) || (pred == Predicate::Contains && e
                == ConversionError::UnsupportedPredicateGeometry && exists|i: int|
                0 <= i < nonblank_lines(line_views(lines@)).len() && conversion_succeeds(
                    spec_classify(#[trigger] nonblank_lines(line_views(lines@))[i]),
                    nonblank_lines(line_views(lines@))[i],
                ) && !is_areal(
                    converted_kind(
                        spec_classify(nonblank_lines(line_views(lines@))[i]),
                        nonblank_lines(line_views(lines@))[i],
                    ).unwrap(),
                )),
    {
        let ghost nb = nonblank_lines(line_views(lines@));
        let ents = entities_from_lines(lines);
        if ents.len() == 0 {
            return Err(Error::ConfigurationError);
        }
        let ghost orig = ents@;
        let mut rest = ents;
        let mut items: Vec<Entity> = Vec::new();
        loop
            invariant
                nb == nonblank_lines(line_views(lines@)),
                orig.map_values(|e: Entity| e.raw@) == nb,
                forall|i: int|
                    0 <= i < orig.len() ==> (#[trigger] orig[i]).wf() && orig[i].cached is None,
                rest@.len() <= orig.len(),
                rest@ == orig.skip(orig.len() - rest@.len()),
                items@.len() == orig.len() - rest@.len(),
                forall|i: int|
                    0 <= i < items@.len() ==> (#[trigger] items@[i]).wf()
                        && items@[i].cached is Some && items@[i].raw@ == nb[i],
                pred == Predicate::Contains ==> forall|i: int|
                    0 <= i < items@.len() ==> is_areal(
                        (#[trigger] items@[i]).cached.unwrap().kind,
                    ),
                forall|i: int|
                    0 <= i < items@.len() ==> conversion_succeeds(
                        spec_classify(#[trigger] nb[i]),
                        nb[i],
                    ),
                forall|i: int|
                    0 <= i < items@.len() ==> (#[trigger] items@[i]).cached == converted_geometry(
                        spec_classify(nb[i]),
                        nb[i],
                    ) && Option::Some(items@[i].cached.unwrap().kind) == converted_kind(
                        spec_classify(nb[i]),
                        nb[i],
                    ),
                orig.len() == nb.len(),
                nb.len() > 0,
            ensures
                rest@.len() == 0,
                items@.len() == nb.len(),
                forall|i: int|
                    0 <= i < items@.len() ==> (#[trigger] items@[i]).wf()
                        && items@[i].cached is Some && items@[i].raw@ == nb[i],
                pred == Predicate::Contains ==> forall|i: int|
                    0 <= i < items@.len() ==> is_areal(
                        (#[trigger] items@[i]).cached.unwrap().kind,
                    ),
                forall|i: int|
                    0 <= i < items@.len() ==> conversion_succeeds(
                        spec_classify(#[trigger] nb[i]),
                        nb[i],
                    ),
                forall|i: int|
                    0 <= i < items@.len() ==> (#[trigger] items@[i]).cached == converted_geometry(
                        spec_classify(nb[i]),
                        nb[i],
                    ) && Option::Some(items@[i].cached.unwrap().kind) == converted_kind(
                        spec_classify(nb[i]),
                        nb[i],
                    ),
            decreases rest@.len(),
        {
            if rest.len() == 0 {
                break;
            }
            let ghost k = orig.len() - rest@.len();
            let mut e = rest.remove(0);
            proof {
                assert(e == orig[k]);
                assert(rest@ =~= orig.skip(k + 1));
                assert(orig.map_values(|e: Entity| e.raw@)[k] == orig[k].raw@);
            }
            match e.ensure_geometry() {
                Err(err) => {
                    proof {
                        assert(!conversion_succeeds(spec_classify(nb[k]), nb[k]));
                        assert(is_conversion_error_for(err, spec_classify(nb[k]), nb[k]));
                    }
                    return Err(Error::Conversion(err));
                },
                Ok(()) => {},
            }
            match pred {
                Predicate::Contains => {
                    let areal = match &e.cached {
                        Option::Some(g) => match g.kind {
                            GeometryKind::Polygon => true,
                            GeometryKind::MultiPolygon => true,
                            _ => false,
                        },
                        Option::None => {
                            proof {
                                assert(false);
                            }
                            false
                        },
                    };
                    if !areal {
                        proof {
                            assert(conversion_succeeds(spec_classify(nb[k]), nb[k]));
                            assert(converted_kind(spec_classify(nb[k]), nb[k]) == Option::Some(
                                e.cached.unwrap().kind,
                            ));
                            assert(!is_areal(e.cached.unwrap().kind));
                        }
                        return Err(
                            Error::Conversion(ConversionError::UnsupportedPredicateGeometry),
                        );
                    }
                },
                Predicate::Intersects => {},
            }
            items.push(e);
        }
        proof {
            assert(nb.len() > 0);
            if pred == Predicate::Contains {
                assert forall|i: int| 0 <= i < nb.len() implies is_areal(
                    converted_kind(spec_classify(#[trigger] nb[i]), nb[i]).unwrap(),
                ) by {
                    assert(is_areal(items@[i].cached.unwrap().kind));
                }
            }
            assert(query_geoms_of(items@) =~= converted_query_geoms(nb));
        }
        Ok(QuerySet { items })
    }
}

/// True when `g` stands in the predicate relation to any geometry of the
/// query set: a logical OR across the queries.
pub fn geometry_matches(g: &Geometry, qs: &QuerySet, pred: Predicate) -> (r: bool)
    requires
        qs.wf(),
        pred == Predicate::Contains ==> qs.all_areal(),
    ensures
        r == matches_any(g.value, query_geoms_of(qs.items@), pred),
{
    let ghost qgeoms = query_geoms_of(qs.items@);
    let n = qs.items.len();
    let mut i: usize = 0;
    loop
        invariant
            0 <= i <= n,
            n == qs.items@.len(),
            qs.wf(),
            pred == Predicate::Contains ==> qs.all_areal(),
            qgeoms == query_geoms_of(qs.items@),
            forall|j: int| 0 <= j < i ==> !#[trigger] pair_matches(qgeoms[j], g.value, pred),
        ensures
            i == n,
            forall|j: int| 0 <= j < n ==> !#[trigger] pair_matches(qgeoms[j], g.value, pred),
        decreases n - i,
    {
        if i >= n {
            break;
        }
        let q = &qs.items[i];
        proof {
            assert(qgeoms[i as int] == qs.items@[i as int].cached.unwrap().value);
        }
        let hit = match &q.cached {
            Option::Some(qg) => match pred {
                Predicate::Intersects => intersects(qg, g),
                Predicate::Contains => match contains(qg, g) {
                    Ok(b) => b,
                    Err(_) => {
                        proof {
                            assert(false);
                        }
                        false
                    },
                },
            },
            Option::None => {
                proof {
                    assert(false);
                }
                false
            },
        };
        if hit {
            proof {
                assert(pair_matches(qgeoms[i as int], g.value, pred));
            }
            return true;
        }
        i = i + 1;
    }
    false
}

/// What the filter decides for one stream entity: nothing when its
/// conversion fails (the item is then dropped, never emitted), otherwise
/// whether its geometry matched any query.
pub fn entity_decision(e: &mut Entity, qs: &QuerySet, pred: Predicate) -> (d: Option<bool>)
    requires
        old(e).wf(),
        qs.wf(),
        pred == Predicate::Contains ==> qs.all_areal(),
    ensures
        final(e).wf(),
        final(e).raw == old(e).raw,
        final(e).kind == old(e).kind,
        d is Some <==> (old(e).cached is Some || conversion_succeeds(
            old(e).kind,
            old(e).raw@,
        )),
        d matches Some(m) ==> m == matches_any(
            final(e).cached.unwrap().value,
            query_geoms_of(qs.items@),
            pred,
        ),
        old(e).cached is None && d is Some ==> final(e).cached == converted_geometry(
            old(e).kind,
            old(e).raw@,
        ),
{
    match e.ensure_geometry() {
        Err(_) => None,
        Ok(()) => match &e.cached {
            Option::Some(g) => Some(geometry_matches(g, qs, pred)),
            Option::None => {
                proof {
                    assert(false);
                }
                None
            },
        },
    }
}

// ------------------------------------------------------------------
// Selection
// ------------------------------------------------------------------
/// Whether an item with decision `d` is emitted under negation flag
/// `negate`: dropped items never, matched items unless negated.
pub open spec fn keeps(d: Option<bool>, negate: bool) -> bool {
    match d {
        Option::Some(m) => m != negate,
        Option::None => false,
    }
}

/// The raw texts selected from `raws` by the decisions, in order.
pub open spec fn selected(raws: Seq<Seq<char>>, ds: Seq<Option<bool>>, negate: bool) -> Seq<
    Seq<char>,
>
    decreases raws.len(),
{
    if raws.len() == 0 || ds.len() == 0 {
        Seq::empty()
    } else {
        let rest = selected(raws.drop_first(), ds.drop_first(), negate);
        if keeps(ds.first(), negate) {
            seq![raws.first()] + rest
        } else {
            rest
        }
    }
}

/// The raw texts of the items whose conversion succeeded, in order.
pub open spec fn converted(raws: Seq<Seq<char>>, ds: Seq<Option<bool>>) -> Seq<Seq<char>>
    decreases raws.len(),
{
    if raws.len() == 0 || ds.len() == 0 {
        Seq::empty()
    } else {
        let rest = converted(raws.drop_first(), ds.drop_first());
        if ds.first() is Some {
            seq![raws.first()] + rest
        } else {
            rest
        }
    }
}

proof fn lemma_selected_snoc(
    raws: Seq<Seq<char>>,
    ds: Seq<Option<bool>>,
    x: Seq<char>,
    d: Option<bool>,
    negate: bool,
)
    requires
        raws.len() == ds.len(),
    ensures
        selected(raws.push(x), ds.push(d), negate) == selected(raws, ds, negate) + (if keeps(
            d,
            negate,
        ) {
            seq![x]
        } else {
            Seq::<Seq<char>>::empty()
        }),
    decreases raws.len(),
{
    let p = raws.push(x);
    let q = ds.push(d);
    if raws.len() == 0 {
        assert(p.first() == x);
        assert(q.first() == d);
        assert(p.drop_first() =~= Seq::<Seq<char>>::empty());
        assert(q.drop_first() =~= Seq::<Option<bool>>::empty());
        assert(selected(p.drop_first(), q.drop_first(), negate) =~= Seq::<Seq<char>>::empty());
        if keeps(d, negate) {
            assert(selected(p, q, negate) =~= selected(raws, ds, negate) + seq![x]);
        } else {
            assert(selected(p, q, negate) =~= selected(raws, ds, negate) + Seq::<
                Seq<char>,
            >::empty());
        }
    } else {
        assert(p.first() == raws.first());
        assert(q.first() == ds.first());
        assert(p.drop_first() =~= raws.drop_first().push(x));
        assert(q.drop_first() =~= ds.drop_first().push(d));
        lemma_selected_snoc(raws.drop_first(), ds.drop_first(), x, d, negate);
        let rest = selected(raws.drop_first(), ds.drop_first(), negate);
        let tail: Seq<Seq<char>> = if keeps(d, negate) {
            seq![x]
        } else {
            Seq::empty()
        };
        if keeps(ds.first(), negate) {
            assert(seq![raws.first()] + (rest + tail) =~= (seq![raws.first()] + rest) + tail);
        } else {
            if !keeps(d, negate) {
                assert(rest + tail =~= rest);
                assert(selected(raws, ds, negate) + tail =~= selected(raws, ds, negate));
            }
        }
    }
}

proof fn lemma_converted_snoc(raws: Seq<Seq<char>>, ds: Seq<Option<bool>>, x: Seq<char>, d: Option<
    bool,
>)
    requires
        raws.len() == ds.len(),
    ensures
        converted(raws.push(x), ds.push(d)) == converted(raws, ds) + (if d is Some {
            seq![x]
        } else {
            Seq::<Seq<char>>::empty()
        }),
    decreases raws.len(),
{
    let p = raws.push(x);
    let q = ds.push(d);
    if raws.len() == 0 {
        assert(p.first() == x);
        assert(q.first() == d);
        assert(p.drop_first() =~= Seq::<Seq<char>>::empty());
        assert(q.drop_first() =~= Seq::<Option<bool>>::empty());
        assert(converted(p.drop_first(), q.drop_first()) =~= Seq::<Seq<char>>::empty());
        if d is Some {
            assert(converted(p, q) =~= converted(raws, ds) + seq![x]);
        } else {
            assert(converted(p, q) =~= converted(raws, ds) + Seq::<Seq<char>>::empty());
        }
    } else {
        assert(p.first() == raws.first());
        assert(q.first() == ds.first());
        assert(p.drop_first() =~= raws.drop_first().push(x));
        assert(q.drop_first() =~= ds.drop_first().push(d));
        lemma_converted_snoc(raws.drop_first(), ds.drop_first(), x, d);
        let rest = converted(raws.drop_first(), ds.drop_first());
        let tail: Seq<Seq<char>> = if d is Some {
            seq![x]
        } else {
            Seq::empty()
        };
        if ds.first() is Some {
            assert(seq![raws.first()] + (rest + tail) =~= (seq![raws.first()] + rest) + tail);
        } else {
            if d is None {
                assert(rest + tail =~= rest);
                assert(converted(raws, ds) + tail =~= converted(raws, ds));
            }
        }
    }
}

/// `a` can be read off `b` in order, skipping items of `b`: `a` is a
/// subsequence of `b`.
pub open spec fn is_subsequence(a: Seq<Seq<char>>, b: Seq<Seq<char>>) -> bool
    decreases b.len(),
{
    if a.len() == 0 {
        true
    } else if b.len() == 0 {
        false
    } else {
        (a.first() == b.first() && is_subsequence(a.drop_first(), b.drop_first()))
            || is_subsequence(a, b.drop_first())
    }
}

/// Filtering is order-preserving: whatever the decisions and the negation
/// flag, the selection is a subsequence of the stream, never a
/// rearrangement.
pub proof fn lemma_selected_is_subsequence(
    raws: Seq<Seq<char>>,
    ds: Seq<Option<bool>>,
    negate: bool,
)
    ensures
        is_subsequence(selected(raws, ds, negate), raws),
    decreases raws.len(),
{
    if raws.len() == 0 || ds.len() == 0 {
    } else {
        lemma_selected_is_subsequence(raws.drop_first(), ds.drop_first(), negate);
        let rest = selected(raws.drop_first(), ds.drop_first(), negate);
        if keeps(ds.first(), negate) {
            let sel = seq![raws.first()] + rest;
            assert(sel.first() == raws.first());
            assert(sel.drop_first() =~= rest);
        } else {
            if rest.len() > 0 {
                assert(is_subsequence(rest, raws.drop_first()));
            }
        }
    }
}

/// With the same decisions, the negated run selects exactly the converted
/// items the plain run leaves out: the two selections together hold one
/// copy of each converted item, and none of a dropped one.
pub proof fn lemma_negate_complement(raws: Seq<Seq<char>>, ds: Seq<Option<bool>>)
    requires
        raws.len() == ds.len(),
    ensures
        selected(raws, ds, false).to_multiset().add(selected(raws, ds, true).to_multiset())
            =~= converted(raws, ds).to_multiset(),
    decreases raws.len(),
{
    broadcast use vstd::seq_lib::group_to_multiset_ensures;

    if raws.len() == 0 {
        assert(selected(raws, ds, false) =~= Seq::<Seq<char>>::empty());
        assert(selected(raws, ds, true) =~= Seq::<Seq<char>>::empty());
        assert(converted(raws, ds) =~= Seq::<Seq<char>>::empty());
        assert(Seq::<Seq<char>>::empty().to_multiset().len() == 0);
    } else {
        let r0 = raws.drop_last();
        let d0 = ds.drop_last();
        let x = raws.last();
        let d = ds.last();
        assert(raws =~= r0.push(x));
        assert(ds =~= d0.push(d));
        lemma_negate_complement(r0, d0);
        lemma_selected_snoc(r0, d0, x, d, false);
        lemma_selected_snoc(r0, d0, x, d, true);
        lemma_converted_snoc(r0, d0, x, d);
        let sf = selected(r0, d0, false);
        let st = selected(r0, d0, true);
        let cv = converted(r0, d0);
        match d {
            Option::Some(m) => {
                assert(cv + seq![x] =~= cv.push(x));
                if m {
                    assert(sf + seq![x] =~= sf.push(x));
                    assert(st + Seq::<Seq<char>>::empty() =~= st);
                } else {
                    assert(st + seq![x] =~= st.push(x));
                    assert(sf + Seq::<Seq<char>>::empty() =~= sf);
                }
            },
            Option::None => {
                assert(sf + Seq::<Seq<char>>::empty() =~= sf);
                assert(st + Seq::<Seq<char>>::empty() =~= st);
                assert(cv + Seq::<Seq<char>>::empty() =~= cv);
            },
        }
    }
}

/// The plain and negated filter runs of one stream against one query set
/// together emit each convertible line exactly once, and a dropped line
/// never: the negated output is the complement of the plain one within
/// the converted stream.
pub proof fn lemma_filter_negate_complement(
    nb: Seq<Seq<char>>,
    qgeoms: Seq<CanonicalGeometry>,
    pred: Predicate,
)
    ensures
        selected(nb, filter_profile(nb, qgeoms, pred), false).to_multiset().add(
            selected(nb, filter_profile(nb, qgeoms, pred), true).to_multiset(),
        ) =~= converted(nb, filter_profile(nb, qgeoms, pred)).to_multiset(),
{
    assert(filter_profile(nb, qgeoms, pred).len() == nb.len());
    lemma_negate_complement(nb, filter_profile(nb, qgeoms, pred));
}

// ------------------------------------------------------------------
// The filter run
// ------------------------------------------------------------------
/// Filters the stream lines against the query set: one entity per
/// non-blank line, in order; each entity that converts is matched against
/// every query (a logical OR) and its decision inverted by `negate`;
/// entities whose conversion fails are dropped. The output is the
/// selection of the stream's raw texts by decisions whose dropped
/// positions are exactly the lines that do not convert.
pub fn filter_lines(lines: &Vec<String>, qs: &QuerySet, pred: Predicate, negate: bool) -> (out: Vec<
    String,
>)
    requires
        qs.wf(),
        pred == Predicate::Contains ==> qs.all_areal(),
    ensures
        is_subsequence(out@.map_values(|s: String| s@), nonblank_lines(line_views(lines@))),
        out@.map_values(|s: String| s@) == selected(
            nonblank_lines(line_views(lines@)),
            filter_profile(nonblank_lines(line_views(lines@)), query_geoms_of(qs.items@), pred),
            negate,
        ),
{
    let ghost nb = nonblank_lines(line_views(lines@));
    let ghost qgeoms = query_geoms_of(qs.items@);
    let ghost prof = filter_profile(nb, qgeoms, pred);
    let ents = entities_from_lines(lines);
    let ghost orig = ents@;
    let mut rest = ents;
    let mut out: Vec<String> = Vec::new();
    let ghost mut ds: Seq<Option<bool>> = Seq::empty();
    proof {
        assert(nb.take(0) =~= Seq::<Seq<char>>::empty());
    }
    loop
        invariant
            qs.wf(),
            pred == Predicate::Contains ==> qs.all_areal(),
            orig.map_values(|e: Entity| e.raw@) == nb,
            forall|i: int|
                0 <= i < orig.len() ==> (#[trigger] orig[i]).wf() && orig[i].cached is None,
            rest@.len() <= orig.len(),
            rest@ == orig.skip(orig.len() - rest@.len()),
            ds.len() == orig.len() - rest@.len(),
            orig.len() == nb.len(),
            nb == nonblank_lines(line_views(lines@)),
            qgeoms == query_geoms_of(qs.items@),
            prof == filter_profile(nb, qgeoms, pred),
            ds == prof.take(ds.len() as int),
            out@.map_values(|s: String| s@) == selected(nb.take(ds.len() as int), ds, negate),
        ensures
            ds.len() == nb.len(),
            ds == prof.take(ds.len() as int),
            out@.map_values(|s: String| s@) == selected(nb.take(ds.len() as int), ds, negate),
        decreases rest@.len(),
    {
        if rest.len() == 0 {
            break;
        }
        let ghost k = orig.len() - rest@.len();
        let mut e = rest.remove(0);
        proof {
            assert(e == orig[k]);
            assert(rest@ =~= orig.skip(k + 1));
            assert(orig.map_values(|e: Entity| e.raw@)[k] == orig[k].raw@);
        }
        let d = entity_decision(&mut e, qs, pred);
        let keep = match d {
            Option::Some(m) => m != negate,
            Option::None => false,
        };
        let ghost ds0 = ds;
        proof {
            lemma_converted_geometry_some(spec_classify(nb[k]), nb[k]);
            match d {
                Option::Some(m) => {
                    assert(e.cached == converted_geometry(spec_classify(nb[k]), nb[k]));
                    assert(prof[k] == Option::Some(
                        matches_any(
                            converted_geometry(spec_classify(nb[k]), nb[k]).unwrap().value,
                            qgeoms,
                            pred,
                        ),
                    ));
                },
                Option::None => {
                    assert(!conversion_succeeds(spec_classify(nb[k]), nb[k]));
                },
            }
            assert(d == prof[k]);
            assert(nb.take(k + 1) =~= nb.take(k).push(nb[k]));
            assert(prof.take(k + 1) =~= prof.take(k).push(prof[k]));
            lemma_selected_snoc(nb.take(k), ds0, nb[k], d, negate);
            ds = ds0.push(d);
            assert(e.raw@ == nb[k]);
        }
        if keep {
            out.push(e.raw);
            proof {
                assert(out@.map_values(|s: String| s@) =~= selected(nb.take(k), ds0, negate)
                    + seq![nb[k]]);
            }
        } else {
            proof {
                assert(selected(nb.take(k), ds0, negate) + Seq::<Seq<char>>::empty()
                    =~= selected(nb.take(k), ds0, negate));
            }
        }
    }
    proof {
        assert(nb.take(nb.len() as int) =~= nb);
        assert(prof.take(nb.len() as int) =~= prof);
        lemma_selected_is_subsequence(nb, ds, negate);
    }
    out
}

/// The decision profile of a stream: for each non-blank line, whether its
/// conversion succeeds.
pub open spec fn conversion_profile(nb: Seq<Seq<char>>) -> Seq<Option<bool>> {
    Seq::new(
        nb.len(),
        |i: int|
            if conversion_succeeds(spec_classify(nb[i]), nb[i]) {
                Option::Some(true)
            } else {
                Option::<bool>::None
            },
    )
}

/// Converts a stream of lines entity by entity, keeping the entities that
/// convert, with their geometries memoized, and dropping the rest: a
/// per-item conversion failure never aborts the run. The kept raw texts
/// are exactly the convertible non-blank lines, in order.
pub fn convert_stream(lines: &Vec<String>) -> (out: Vec<Entity>)
    ensures
        out@.map_values(|e: Entity| e.raw@) == converted(
            nonblank_lines(line_views(lines@)),
            conversion_profile(nonblank_lines(line_views(lines@))),
        ),
        forall|i: int| 0 <= i < out@.len() ==> (#[trigger] out@[i]).wf() && out@[i].cached is Some,
        forall|i: int|
            0 <= i < out@.len() ==> (#[trigger] out@[i]).cached == converted_geometry(
                spec_classify(out@[i].raw@),
                out@[i].raw@,
            ),
{
    let ghost nb = nonblank_lines(line_views(lines@));
    let ghost prof = conversion_profile(nb);
    let ents = entities_from_lines(lines);
    let ghost orig = ents@;
    let mut rest = ents;
    let mut out: Vec<Entity> = Vec::new();
    proof {
        assert(nb.take(0) =~= Seq::<Seq<char>>::empty());
        assert(prof.take(0) =~= Seq::<Option<bool>>::empty());
    }
    loop
        invariant
            nb == nonblank_lines(line_views(lines@)),
            prof == conversion_profile(nb),
            orig.map_values(|e: Entity| e.raw@) == nb,
            forall|i: int|
                0 <= i < orig.len() ==> (#[trigger] orig[i]).wf() && orig[i].cached is None,
            rest@.len() <= orig.len(),
            rest@ == orig.skip(orig.len() - rest@.len()),
            orig.len() == nb.len(),
            out@.map_values(|e: Entity| e.raw@) == converted(
                nb.take(orig.len() - rest@.len()),
                prof.take(orig.len() - rest@.len()),
            ),
            forall|i: int|
                0 <= i < out@.len() ==> (#[trigger] out@[i]).wf() && out@[i].cached is Some
                    && out@[i].cached == converted_geometry(
                    spec_classify(out@[i].raw@),
                    out@[i].raw@,
                ),
        ensures
            rest@.len() == 0,
            out@.map_values(|e: Entity| e.raw@) == converted(
                nb.take(nb.len() as int),
                prof.take(nb.len() as int),
            ),
            forall|i: int|
                0 <= i < out@.len() ==> (#[trigger] out@[i]).wf() && out@[i].cached is Some
                    && out@[i].cached == converted_geometry(
                    spec_classify(out@[i].raw@),
                    out@[i].raw@,
                ),
        decreases rest@.len(),
    {
        if rest.len() == 0 {
            break;
        }
        let ghost k = orig.len() - rest@.len();
        let mut e = rest.remove(0);
        proof {
            assert(e == orig[k]);
            assert(rest@ =~= orig.skip(k + 1));
            assert(orig.map_values(|e: Entity| e.raw@)[k] == orig[k].raw@);
            assert(nb.take(k + 1) =~= nb.take(k).push(nb[k]));
            assert(prof.take(k + 1) =~= prof.take(k).push(prof[k]));
            lemma_converted_snoc(nb.take(k), prof.take(k), nb[k], prof[k]);
        }
        match e.ensure_geometry() {
            Ok(()) => {
                proof {
                    assert(prof[k] is Some);
                    assert(e.raw@ == nb[k]);
                }
                out.push(e);
                proof {
                    assert(out@.map_values(|e: Entity| e.raw@) =~= converted(
                        nb.take(k),
                        prof.take(k),
                    ) + seq![nb[k]]);
                }
            },
            Err(_) => {
                proof {
                    assert(prof[k] is None);
                    assert(converted(nb.take(k), prof.take(k)) + Seq::<Seq<char>>::empty()
                        =~= converted(nb.take(k), prof.take(k)));
                }
            },
        }
    }
    proof {
        assert(nb.take(nb.len() as int) =~= nb);
        assert(prof.take(nb.len() as int) =~= prof);
    }
    out
}

/// One whole filter run: builds the query set from its lines, then filters
/// the stream lines against it. A bad query is fatal; a bad stream line
/// only loses that line.
#[verifier::rlimit(60)]
pub fn run_filter(
    stream_lines: &Vec<String>,
    query_lines: &Vec<String>,
    pred: Predicate,
    negate: bool,
) -> (r: Result<Vec<String>, Error>)
    ensures
        (r == Err::<Vec<String>, Error>(Error::ConfigurationError)) <==> nonblank_lines(
            line_views(query_lines@),
        ).len() == 0,
        nonblank_lines(line_views(query_lines@)).len() > 0 && all_lines_convert(
            nonblank_lines(line_views(query_lines@)),
        ) && (pred == Predicate::Contains ==> all_queries_areal(
            nonblank_lines(line_views(query_lines@)),
        )) ==> r is Ok,
        nonblank_lines(line_views(query_lines@)).len() > 0 && !all_lines_convert(
            nonblank_lines(line_views(query_lines@)),
        ) ==> r matches Err(Error::Conversion(_)),
        r matches Ok(out) ==> is_subsequence(
            out@.map_values(|s: String| s@),
            nonblank_lines(line_views(stream_lines@)),
        ),
        nonblank_lines(line_views(query_lines@)).len() > 0 && all_lines_convert(
            nonblank_lines(line_views(query_lines@)),
        ) && pred == Predicate::Contains && !all_queries_areal(
            nonblank_lines(line_views(query_lines@)),
        ) ==> r == Err::<Vec<String>, Error>(
            Error::Conversion(ConversionError::UnsupportedPredicateGeometry),
        ),
        r matches Ok(out) ==> out@.map_values(|s: String| s@) == selected(
            nonblank_lines(line_views(stream_lines@)),
            filter_profile(
                nonblank_lines(line_views(stream_lines@)),
                converted_query_geoms(nonblank_lines(line_views(query_lines@))),
                pred,
            ),
            negate,
        ),
        r matches Err(Error::Conversion(e)) ==> (exists|i: int|
            0 <= i < nonblank_lines(line_views(query_lines@)).len() && !conversion_succeeds(
                spec_classify(#[trigger] nonblank_lines(line_views(query_lines@))[i]),
                nonblank_lines(line_views(query_lines@))[i],
            ) && is_conversion_error_for(
                e,
                spec_classify(nonblank_lines(line_views(query_lines@))[i]),
                nonblank_lines(line_views(query_lines@))[i],
            )) || (pred == Predicate::Contains && e
            == ConversionError::UnsupportedPredicateGeometry),
{
    let qs = match QuerySet::build(query_lines, pred) {
        Ok(qs) => qs,
        Err(e) => {
            return Err(e);
        },
    };
    Ok(filter_lines(stream_lines, &qs, pred, negate))
}

} // verus!
