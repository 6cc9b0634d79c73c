//! A small line-search library: resolve a search request from process
//! arguments and piped input, then collect every line of a text that
//! contains the search string, case-sensitively or not.

pub mod filter;
pub mod render;
pub mod resolve;

pub use filter::search;
pub use render::render;

pub use resolve::Args;
pub use resolve::Case;
pub use resolve::Data;
pub use resolve::case_for;
pub use resolve::parse_args;
pub use resolve::validate_args;
