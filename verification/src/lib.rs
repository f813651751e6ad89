//! The core of a chat bot that keeps score.
//!
//! - `karma`: the score store, by term; `store` and `ledger`: the same by
//!   key, in memory and as a model; `history`, `ranking`, `snapshot`: what
//!   holds of writes, of the order in which scores are shown, and of
//!   snapshots.
//! - `grammar`: the votes and commands in what is said; `chatbot`: what the
//!   bot does with each message.
//! - `plugins` and `paths`: which files are taken up as plugins, the registry
//!   of those that were loaded, and what a dispatch to them returns; `admin`:
//!   what is told of them.
//! - `supervision`: the life of the long-running tasks.
//! - `term` and `text`: keys, and numbers as text.

pub mod admin;
pub mod chatbot;
pub mod grammar;
pub mod history;
pub mod karma;
pub mod ledger;
pub mod paths;
pub mod plugins;
pub mod ranking;
pub mod snapshot;
pub mod store;
pub mod supervision;
pub mod term;
pub mod text;
