//! The development server: file watching, live reload and file serving.

pub mod clients;
pub mod files;
pub mod router;
pub mod unwrap;
pub mod watch;
