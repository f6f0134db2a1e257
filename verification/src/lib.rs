//! A verified engine for aggregating installed-game records from several
//! platform sources into one de-duplicated, user-customized catalog, together
//! with the persistent user overlay (favorites, custom entries, drive
//! selection, theme) layered on top of it.
//!
//! All text is handled as byte strings (`Vec<u8>`); callers convert to and
//! from platform string types at the edge.

pub mod catalog;
pub mod codec;
pub mod lit;
pub mod manifest;
pub mod model;
pub mod resolver;
pub mod scan;
pub mod store;
pub mod text;
