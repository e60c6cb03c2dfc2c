//! A verified PDF 1.7 document generator: a typed object serializer with
//! cross-reference table, TrueType font embedding with glyph subsetting,
//! and a measure/split/render layout engine with two-pass pagination.
//!
//! All geometry is fixed-point (milli-points, see [`fx`]); file bytes are
//! pinned down to the byte by the contracts in [`writer`] and [`page`].
pub mod chars;
pub mod color;
pub mod document;
pub mod font;
pub mod fx;
pub mod glyph_cache;
pub mod image;
pub mod layout;
pub mod numfmt;
pub mod page;
pub mod table;
pub mod text;
pub mod writer;
