//! Helpers on strings: conversions to characters and bytes, comparisons with
//! several strings at once, capture groups of a regular expression, names
//! that carry a number in brackets, and the parts of a path.
//!
//! The traits `MyTraitForString` and `MyTraitForStringSlice` offer the
//! operations as methods; the modules hold the functions behind them, the
//! models that their contracts speak of, and the laws that hold of them.
pub mod capture;
pub mod compare;
pub mod convert;
pub mod index;
pub mod number;
pub mod path;
pub mod text;

pub use crate::capture::CaptureError;
pub use crate::index::Search;
pub use crate::text::{MyTraitForString, MyTraitForStringSlice};
