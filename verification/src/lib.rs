//! Verified core of a command-line client for Jira and Confluence.
use vstd::prelude::*;

pub mod cli;
pub mod client;
pub mod commands;
pub mod config;
pub mod confluence_convert;
pub mod confluence_meta;
pub mod error;
pub mod jira_adf;
pub mod json;
pub mod markdown;
pub mod output;
pub mod repl;
pub mod text;

verus! {

} // verus!
