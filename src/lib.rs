//! Builds the navigation index of a documentation tree: a `SUMMARY.md` that
//! lists every section, folder and page, sorted, with indentation following
//! folder depth.

pub mod text;
pub mod order;
pub mod tree;
pub mod summary;
pub mod laws;
