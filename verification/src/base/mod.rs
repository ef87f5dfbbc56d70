pub mod app;
pub mod context;
pub mod event;
pub mod input;
pub mod laws;
pub mod node;
pub mod plugin;
pub mod store;
pub mod system;
pub mod state;
pub mod cmd;
