//! The daemon: sessions, their output, and the answers given about them.

pub mod buffer;
pub mod effects;
pub mod env_map;
pub mod error;
pub mod handlers;
pub mod history;
pub mod process;
pub mod replies;
pub mod session;
pub mod session_mgr;
pub mod shutdown;
pub mod watcher;
