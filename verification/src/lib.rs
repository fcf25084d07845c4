//! Verified core of the xtools desktop toolbox: JSON text tools and the JSON
//! fold tree, the translation engines' request and reply handling, the
//! single-instance command protocol, timestamp conversion, the state of the
//! three tool windows, and the small decisions that the tool processes and
//! the host run on.

pub mod boot;
pub mod chrome;
pub mod config;
pub mod engine;
pub mod host_window;
pub mod ids;
pub mod instance;
pub mod json_app;
pub mod json_ops;
pub mod json_tree;
pub mod kwin;
pub mod md5;
pub mod surface;
pub mod text;
pub mod time_app;
pub mod time_convert;
pub mod trans_app;
pub mod tray;
pub mod window_state;
pub mod x11_windows;

pub use ids::{ToolId, HOST_INSTANCE, JSON_INSTANCE, TIME_INSTANCE, TRANS_INSTANCE};
