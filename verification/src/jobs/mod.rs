//! Jobs: what each one asks the system to run, and what it reports back.
pub mod list_dir;
pub mod mc_command_sender;
pub mod modpack_updater;
pub mod stats_reader;
pub mod unit_management;
pub mod user_management;
