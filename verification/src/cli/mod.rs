//! The command line: what it asks the daemon for, and what it makes of the
//! answers.

pub mod client;
pub mod select;
pub mod serve;
pub mod watch_file;

pub use self::select::resolve_id;
pub use self::watch_file::load_watch_paths;
