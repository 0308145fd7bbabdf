//! Static checks for oversized files and functions, duplicate bodies,
//! helper sprawl, silent environment fallbacks and secret-shaped strings.

pub mod cli;
pub mod config;
pub mod digest;
pub mod git_scope;
pub mod grouping;
pub mod models;
pub mod parsers;
pub mod paths;
pub mod pattern;
pub mod pragma;
pub mod report;
pub mod rules;
pub mod scanner;
pub mod scoring;
pub mod text;
pub mod walker;

pub use config::Config;
pub use models::{FileContext, Finding, FunctionInfo, ScanResult};
pub use scanner::scan;
