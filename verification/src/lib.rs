//! Case conversion engine: splits identifier-like strings into words along
//! configurable boundaries, re-cases the words with a pattern, and joins
//! them with a delimiter.
//!
//! The pipeline is `join(mutate(split(input, boundaries), pattern),
//! delimiter)`.  The boundaries used to split come from an explicit custom
//! set, else from a declared source style, else from the defaults; the
//! pattern and delimiter always come from the target style.

pub mod boundary;
pub mod case;
pub mod case_extension;
pub mod chars;
pub mod convert;
pub mod error;
pub mod options;
pub mod pattern;
pub mod resolve;
pub mod segment;
pub mod text;

pub use boundary::Boundary;
pub use case::Case;
pub use case_extension::{CaseExtension, PatternExtension};
pub use convert::{convert, convert_with, join};
pub use error::ConversionError;
pub use options::{lines_to_inputs, validate_options};
pub use pattern::{all_patterns, Pattern};
pub use resolve::{case_value_parser, pattern_value_parser};
pub use segment::split;
