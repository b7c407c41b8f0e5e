//! Git activity reports: reading `git log --numstat`, aggregating commits by
//! author, day and path under configurable filters, and rendering the
//! results, each with a verified contract.
pub mod config;
pub mod model;
pub mod text;
pub mod parser;
pub mod git;
pub mod ranking;
pub mod report;
pub mod output;
pub mod cli;
pub mod server;
