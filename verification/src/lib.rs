//! Binder: the desktop shell of mochiOS, with its window-server wire protocol,
//! its client library, its window model and the platform bookkeeping that can
//! be stated and proved independently of the toolkit that draws it.

pub mod app_library;
pub mod apps;
pub mod catalog;
pub mod client;
pub mod clock;
pub mod context_menu;
pub mod decoration;
pub mod dock;
pub mod dock_preferences;
pub mod ipc;
pub mod launch_failure;
pub mod linux;
pub mod manifest;
pub mod mochios;
pub mod platform;
pub mod protocol;
pub mod session;
pub mod text;
pub mod top_bar;
pub mod window;
