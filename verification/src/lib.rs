//! Soft-constrained US-ASCII text.
//!
//! The types in this crate wrap ordinary UTF-8 text and tag it with a *soft*
//! expectation that every code point lies in the ASCII range. The expectation
//! is checked only at explicit entry points (checked construction and
//! revalidation); nothing re-checks it afterwards, so violating it through an
//! unchecked path is a logic bug, never a safety issue.

pub mod cmp;
pub mod error;
pub mod iter;
pub mod slice_index;
pub mod soft_char;
pub mod soft_str;
pub mod soft_string;
pub mod text;

pub use error::FromSourceError;
pub use iter::SoftAsciiCharIndices;
pub use iter::SoftAsciiChars;
pub use iter::SoftAsciiLines;
pub use iter::SoftAsciiSplitWhitespace;
pub use slice_index::TempSliceIndexHelper;
pub use soft_char::SoftAsciiChar;
pub use soft_str::SoftAsciiStr;
pub use soft_string::SoftAsciiString;
