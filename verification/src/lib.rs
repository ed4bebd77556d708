//! A streaming geospatial toolkit: classifies lines of text as
//! latitude/longitude pairs, geohashes, Well-Known Text or GeoJSON,
//! converts them lazily to canonical geometries, and filters streams of
//! entities by spatial predicates against a query set.

pub mod entity;
pub mod error;
pub mod filter;
pub mod geohash_ops;
pub mod geom;
pub mod numeric;
pub mod output;
pub mod tag;
pub mod text;
