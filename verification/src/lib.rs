//! Decoding, re-encoding and table-wide maintenance of TrueType glyph outlines.
//!
//! The `glyf` module holds the outline table: points, contours, composite
//! components, the byte codec of a single glyph record, composite flattening
//! and bounding-box recomputation. The `gvar` module decodes the header and
//! the shared tuples of the companion variations table.

/// Big-endian fields and decoding errors
pub mod binary;
pub mod glyf;
/// The header and shared tuples of the glyph variations table
pub mod gvar;
