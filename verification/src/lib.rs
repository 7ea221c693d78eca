//! Adapter selection and cached output for a search tool that looks inside
//! files which are not plain text.
//!
//! `matching` and `adapters` describe how an adapter recognises the files it
//! can convert and decide which adapters are active for a given override
//! expression. `caching_writer` keeps a compressed copy of an adapter's
//! output as long as that copy stays within a size budget.

pub mod matching;
pub mod adapters;
pub mod caching_writer;
