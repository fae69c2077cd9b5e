pub mod command;
pub mod message;
pub mod outbox;
pub mod scene;
pub mod bus;
pub mod app;
pub mod tabbed_scene;
pub mod console_scene;
pub mod stream;
pub mod text;
pub mod remote;
pub mod target;
pub mod jobs;
pub mod test_scene;
