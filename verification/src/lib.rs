//! Core logic of a photo-culling workflow: scanning source folders into a
//! project, reviewing each item (keep / trash / undecided), planning and
//! tallying the copy of the keepers, and the bookkeeping of the decoded
//! image cache and the prerendered thumbnail cache.
//!
//! Paths are carried as strings and read with Unix path rules (see
//! [`path`]); times are carried as [`time::Timestamp`] values.

pub mod path;
pub mod text;
pub mod media;
pub mod time;
pub mod project;
pub mod recent;
pub mod scan;
pub mod copy;
pub mod decode;
pub mod prerender;
pub mod review;
pub mod setup;
