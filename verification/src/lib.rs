pub mod cmd;
pub mod dev;
pub mod error;
pub mod github;
pub mod hooks;
pub mod json;
pub mod laws;
pub mod names;
pub mod order;
pub mod stack;
pub mod text;
pub mod ui;
