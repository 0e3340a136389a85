//! Byte-level scanner that finds utility class candidates and CSS custom
//! property names in arbitrary source text.
//!
//! The scanner is a tree of small state machines that share one read
//! cursor. Every machine is specified by a transition function over ghost
//! views, `step`, and its executable `next` is proved to follow it. The
//! driver, [`extractor::Extractor`], feeds every position of a buffer to
//! the machines and returns what [`extractor::scan::extraction`] says.
//!
//! - [`cursor`]: the read cursor.
//! - [`extractor::machine`]: spans and what a machine reports.
//! - `extractor::*_machine`: the machines, leaves first: strings, CSS
//!   variables, arbitrary values, variables and properties, modifiers,
//!   named utilities and variants, utilities, variants, candidates.
//! - [`extractor::cover`]: dropping the spans that another span covers.
//! - [`extractor::scan`]: the scan as a function of the input, and what
//!   holds of everything that is extracted.
//! - [`extractor::position`]: what a machine does does not depend on where
//!   in the input it stands; [`extractor::position::alone`]: what becomes
//!   of the bytes of a utility when they stand alone.
//! - [`extractor::pre_processors`]: rewrites that are applied to a buffer
//!   before extraction.

pub mod cursor;
pub mod extractor;
