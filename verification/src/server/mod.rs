//! What the download server answers.
pub mod get_executables;
pub mod send_executable;
