//! What can go wrong while tables are built.

use crate::coords::Location;
use vstd::prelude::*;

verus! {

/// What is wrong with a glyph.
#[derive(Debug, Clone, Copy, PartialEq, Eq, Structural)]
pub enum GlyphProblem {
    /// It is not drawn at the default location.
    MissingDefault,
}

/// Why a table cannot be built.
#[derive(Debug, PartialEq, Eq)]
pub enum Error {
    /// A value does not fit its field.
    OutOfBounds { what: String, value: String },
    /// A `CFF ` table was asked for, but the font varies.
    CffNotStatic,
    /// A glyph of a `CFF ` table still has components.
    CffGlyphHasComponents(String),
    /// A charstring cannot be made, for the reason given.
    Charstring(String),
    /// No master is at the default location, which is given.
    NoVariationModel(Location),
    /// A glyph is in the way.
    GlyphError(String, GlyphProblem),
    /// A table cannot be written, for the reason given, and which table.
    DumpTableError(String, String),
    /// The deltas of a glyph cannot be taken, for the reason given.
    GlyphDeltaError(String, String),
}

} // verus!
