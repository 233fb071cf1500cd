//! Line-oriented text search: the lines of a text that hold a query, with or
//! without regard to case, and the configuration that selects between the two.

pub mod config;
pub mod encoding;
pub mod laws;
pub mod lines;
pub mod search;
pub mod text;

pub use config::{run, Config, ConfigError, ConfigView};
pub use search::{search, search_case_insensitive};
