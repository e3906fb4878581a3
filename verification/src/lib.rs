pub mod analyzer;
pub mod cli;
pub mod config;
pub mod edges;
pub mod error;
pub mod evaluation;
pub mod git;
pub mod incremental;
pub mod index;
pub mod logging;
pub mod mcp;
pub mod paths;
pub mod ranking;
pub mod repository;
pub mod scanner;
pub mod text;
pub mod web;
