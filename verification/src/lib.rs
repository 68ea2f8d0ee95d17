//! A file gateway: the rules by which a directory subtree is browsed, changed
//! and transferred on behalf of remote clients.

pub mod config;
pub mod containment;
pub mod download;
pub mod entry;
pub mod error;
pub mod lexical;
pub mod mutate;
pub mod path;
pub mod range;
pub mod reply;
pub mod state;
pub mod text;
pub mod upload;
pub mod utils;
