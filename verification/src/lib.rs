pub mod aggregate;
pub mod config;
pub mod dispatch;
pub mod json;
pub mod resolve;
pub mod template;
pub mod watch;
