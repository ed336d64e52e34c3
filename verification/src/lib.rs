//! Build-and-deliver logic for a workspace of executables: the catalogue of
//! built binaries, which observers receive which binaries, the file-watch
//! debounce, and the replies of the download server.
pub mod build_output;
pub mod config;
pub mod observers_handle;
pub mod send_executable;
pub mod server;
pub mod state;
pub mod watch;
