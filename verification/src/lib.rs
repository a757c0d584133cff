//! Line-oriented text search: the lines of a text that contain a query,
//! optionally without regard to the case of ASCII letters, and the reading of
//! a search's configuration off a command line.

pub mod config;
pub mod encoding;
pub mod error;
pub mod lines;
pub mod matcher;
pub mod runner;
pub mod search;
pub mod text;

pub use config::{Config, ConfigOptions};
pub use error::GrepError;
pub use runner::run;
pub use search::{search, search_case_insensitive, search_with};
