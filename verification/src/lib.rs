//! Decision core of a status-bar manager for multi-monitor window-manager
//! setups: it parses monitor listings out of window-manager query output,
//! decides when generated per-monitor configuration files are stale, loads
//! comment-annotated template documents, assigns a template variant to each
//! connected monitor, and renders the per-monitor configuration documents
//! that an outer launcher process writes to disk and hands to the bar.

pub mod cache;
pub mod config;
pub mod document;
pub mod errors;
pub mod monitor;
pub mod templates;
pub mod text;
pub mod window_manager;
