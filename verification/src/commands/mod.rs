//! The commands, as functions from their arguments and what the services answered to
//! what they print.
pub mod confluence;
pub mod jira;
pub mod profile;
