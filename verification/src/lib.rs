//! Text analysis for full-text search: segmented text goes in, normalised tokens with their
//! positions come out.
//!
//! The filter pipeline, the stemming cache and the byte classifier of the word-break fast path
//! are verified; what a segmentation or a language-specific filter computes is supplied by the
//! caller through [`uax29::word::Tokenizer`] and [`analyze::filters::Filters`].

pub mod analyze;
pub mod text;
pub mod uax29;
