//! An immutable text type that keeps short texts inline and lets long texts
//! share one reference-counted buffer.

pub mod bytes;
pub mod compare;
pub mod convert;
pub mod inline;
pub mod order;
pub mod range;
pub mod repr;
pub mod shared;
pub mod string;
pub mod trim;
pub mod utf8;

pub use bytes::Bytes;
pub use inline::CAPACITY;
pub use repr::{Kind, Repr};
pub use string::String;
