//! A verified core for embedding the Rerun web viewer in Leptos applications: the viewer's
//! configuration types, the lifecycle decisions of one embedded viewer, and what is sent to it.
pub mod container;
pub mod lifecycle;
pub mod options;
pub mod prelude;
pub mod text;
pub mod types;

pub use crate::types::DEFAULT_RERUN_CDN_VERSION;
