//! Directory-listing pipeline: entry records, visibility filtering,
//! stable sorting by name, time or size, and rendering.

pub mod entry;
pub mod text;
pub mod sort;
pub mod filter;
pub mod format;
pub mod laws;
