//! An ownership-resolution engine for CODEOWNERS-style rule files.
//!
//! The library compiles rule patterns, matches them against repository
//! paths, parses rule files, resolves the winning rule for a path under
//! last-match-wins precedence, detects dead (subsumed) rules, and reports
//! ownership coverage over a file index.

pub mod blame;
pub mod file_cache;
pub mod files;
pub mod github;
pub mod glob;
pub mod ownership;
pub mod parser;
pub mod pattern;
pub mod suggest;
pub mod text;
