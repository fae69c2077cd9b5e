//! Updating the modpack of the server.
pub mod check_version;
pub mod list_versions;
pub mod log_reader;
pub mod update;
