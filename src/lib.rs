//! Resolution of lang items: constructs that a library marks with a
//! `lang = "name"` attribute so that the compiler can find them by name.

pub mod cache;
pub mod db;
pub mod items;
pub mod resolve;
pub mod tag_map;
pub mod target;
