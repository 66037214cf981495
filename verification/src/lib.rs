//! Directory analysis: size rollups per directory, file-type distribution and
//! exact-duplicate detection by content digest.

pub mod analyzer;
pub mod cli;
pub mod digest_map;
pub mod duplicate_laws;
pub mod duplicates;
pub mod export;
pub mod grouping;
pub mod hasher;
pub mod path;
pub mod ranking;
pub mod reporter;
pub mod scanner;
pub mod text;
pub mod utils;
