//! Detection and reclamation of duplicate files.

pub mod cli;
pub mod console_laws;
pub mod funnel;
pub mod funnel_laws;
pub mod hashing;
pub mod order;
pub mod path;
pub mod path_laws;
pub mod reclaim;
pub mod reclaim_laws;
pub mod replace;
pub mod replace_laws;
pub mod rounding;
pub mod rounding_laws;
pub mod scanner;
pub mod scenes;
pub mod sort;
pub mod text;
pub mod text_laws;
pub mod tui;
pub mod types;
pub mod walk_laws;
pub mod xattrs;

