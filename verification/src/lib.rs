//! A verified core for a status-driven media-archive processing pipeline.
//!
//! Remote compressed exports are recorded as [`entities::Archive`] rows,
//! extracted into [`entities::FileEntry`] rows (media files and their
//! metadata sidecars), paired by name, given a canonical capture date and
//! filed into a date-partitioned layout, producing one
//! [`entities::MediaRecord`] per fully processed pair.  All coordination
//! happens through persisted status fields in a [`store::Store`], claimed
//! one entity at a time by the [`scheduler`], so the pipeline can be
//! stopped and resumed at any point.

pub mod entities;
pub mod store;
pub mod scheduler;
pub mod progress;
pub mod dates;
pub mod sidecar;
pub mod associate;
pub mod extract;
pub mod filer;
pub mod control;
