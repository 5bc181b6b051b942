//! A paragraph layout and measurement engine: fonts organized into named
//! families with fallback order, a style-run text model, greedy line
//! breaking at a maximum width, and geometry queries over the laid-out
//! result (per-range bounding boxes, per-line metrics).
//!
//! All horizontal and vertical measures are integers in layout units; a
//! caller chooses the unit (for example 1/64 of a pixel) and converts at
//! the boundary. Font parsing and rasterization stay outside: a typeface
//! here is the decoded summary of a font (coverage ranges, design-unit
//! metrics), and the engine never draws.

use vstd::prelude::*;

pub mod chars;
pub mod collection;
pub mod font;
pub mod geometry;
pub mod laws;
pub mod layout;
pub mod measure;
pub mod paragraph;
pub mod segment;
pub mod style;
pub mod units;

verus! {

/// Errors for hard caller-contract violations. Content-level anomalies
/// (missing glyphs, unresolved families, empty input, fallback exhaustion)
/// are normal outcomes, not errors: the engine always produces a
/// measurable layout.
#[derive(Clone, Copy, Debug, PartialEq, Eq, Structural)]
pub enum EngineError {
    /// The byte stream handed to typeface registration is not a recognized
    /// font container.
    DecodeError,
    /// The layout width was zero, negative, or over the supported maximum.
    InvalidLayoutWidth,
    /// A query range fell outside the paragraph's text.
    OutOfBoundsRange,
}

} // verus!
