//! The error taxonomy: per-item conversion failures, which a stream
//! consumer may recover from, and run-level errors, which end a run.

use vstd::prelude::*;

verus! {

/// Why converting one entity's text to a canonical geometry failed.
#[derive(Debug, Clone)]
pub enum ConversionError {
    /// A "lat,lon" line whose latitude or longitude magnitude is out of
    /// range.
    RangeError,
    /// Structurally broken text inside a recognized-looking format;
    /// carries the offending text.
    ParseError(String),
    /// A GeoJSON Feature whose `geometry` member is absent or null.
    MissingGeometryError,
    /// A `contains` query geometry that is not polygonal.
    UnsupportedPredicateGeometry,
}

/// Errors that end a whole run.
#[derive(Debug, Clone)]
pub enum Error {
    /// A query entity failed to convert; queries are user-supplied, so
    /// this is fatal rather than recoverable.
    Conversion(ConversionError),
    /// An invalid combination found at startup, such as an empty query
    /// set.
    ConfigurationError,
    /// Dispatch found no matching subcommand handler.
    UnknownCommand,
}

} // verus!
