//! The dashboards that a connector serves: read from a mounted directory,
//! compiled, held in memory and announced to the relay.

pub mod assembly;
pub mod builtins;
pub mod catalog;
pub mod compile;
pub mod config;
pub mod config_laws;
pub mod dashboards;
pub mod entry;
pub mod inventory_laws;
pub mod laws;
pub mod naming;
pub mod pb;
pub mod reader;
pub mod reader_laws;
pub mod signal;
pub mod text;
pub mod text_laws;
pub mod view_laws;
pub mod watch;
