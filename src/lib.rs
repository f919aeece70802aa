//! Choosing and applying the assignee of pull requests and issues.
//!
//! - `owners`: candidate owners from the files a pull request changes.
//! - `resolve`: expanding users, ad-hoc groups and teams into candidates.
//! - `select`: picking one candidate.
//! - `assign`: what to assign, post and ask of the tracker for an event.
//! - `messages`: the texts posted to users.
pub mod text;
pub mod github;
pub mod config;
pub mod resolve;
pub mod select;
pub mod owners;
pub mod messages;
pub mod assign;
