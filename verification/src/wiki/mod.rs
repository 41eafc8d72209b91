//! Wiki domain: search snippet text, link extraction and front matter rules.

pub mod markdown;
pub mod search;
pub mod links;
pub mod frontmatter;
pub mod types;
pub mod syncthing;
pub mod watch;
pub mod index;
pub mod parse;
