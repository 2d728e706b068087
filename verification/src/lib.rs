//! Inventory logic for a game platform's local installation: parsing the
//! brace/quote-delimited library manifests, discovering library roots,
//! scanning compatibility-data directories, and interpreting catalog
//! responses.

pub mod catalog;
pub mod compat;
pub mod inventory;
pub mod manifest;
pub mod text;
