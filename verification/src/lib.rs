//! Verified core of a file integrity monitor: path handling, the table of
//! watched directories, the registry of tracked files and the decisions taken
//! on each file-system event.
pub mod command;
pub mod digest;
pub mod event_dir;
pub mod event_file;
pub mod init;
pub mod monitor;
pub mod path;
pub mod timestamp;
pub mod tracker_file;
pub mod watcher;
