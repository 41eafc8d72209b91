//! Jade core: the task, tag, settings, sync and wiki rules of a local-first
//! personal toolkit, with their contracts.

pub mod text;
pub mod order;
pub mod help;
pub mod help_topics;
pub mod output;
pub mod install;
pub mod models;
pub mod store;
pub mod ids;
pub mod tags;
pub mod tasks;
pub mod events;
pub mod history;
pub mod cron;
pub mod time_helpers;
pub mod sync;
pub mod cli;
pub mod update;

pub mod wiki;
