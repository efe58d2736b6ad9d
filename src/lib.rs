//! Line search over text: keep the lines of a text that contain a query,
//! matched exactly or after lowercasing both sides.
//!
//! A `str` is modelled by its UTF-8 bytes (`spec_bytes`): a line is a run of
//! bytes between newlines, and containment is containment of byte runs, which
//! for UTF-8 is the same as containment of character runs.
pub mod config;
pub mod laws;
pub mod search;
pub mod text;

pub use config::Config;
pub use search::{search, search_insensitive_case, search_with_mode};
pub use text::{line_contains, lines};
