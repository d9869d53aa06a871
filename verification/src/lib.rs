//! An in-memory data-integrity and ranking toolkit: a uniqueness-enforcing
//! primary index, referential-integrity-checked foreign indexes, an
//! uncertain-value container carrying provenance, a free-form date parser
//! with epoch arithmetic, and a fallible sort/collect pipeline. Every
//! function carries its contract; the index, date and sorting laws are
//! stated and proved alongside the code.

pub mod collectsorted;
pub mod date;
pub mod index;
pub mod keys;
pub mod multi;
pub mod name;
pub mod tagset;
pub mod text;
pub mod types;
pub mod unsure;
pub mod value;
