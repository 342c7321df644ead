//! A static-site build tool with a live-reload development server.
//!
//! The library holds the rules of the tool: how a burst of file changes is
//! coalesced into one rebuild, which browser clients are told to reload, how
//! a request path is matched to a file of the output folder, how template
//! file names become routes, and where the files of a site are written.
//!
//! The library reads no file, opens no socket and sleeps on no clock of a
//! thread. Its caller does that, hands over what it found, and carries out
//! what the library decided.

pub mod config;
pub mod convert;
pub mod error;
pub mod filemap;
pub mod files;
pub mod pages;
pub mod routes;
pub mod server;
pub mod site;
pub mod templates;
pub mod text;

pub use crate::config::Config;
pub use crate::error::Error;
pub use crate::pages::Unreact;
pub use crate::routes::convert::Object;
