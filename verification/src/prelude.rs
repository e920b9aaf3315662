//! Convenience re-exports for crate users.
pub use crate::lifecycle::{ViewerEventKind, ViewerLifecycle};
pub use crate::types::{
    AssetOrigin, Panel, PanelState, PanelStateOverrides, RenderBackend, Rrds, Theme, VideoDecoder,
    ViewerEventBase, DEFAULT_RERUN_CDN_VERSION,
};
