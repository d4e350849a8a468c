//! The terminal UI layer of a local-first Vikunja client, as verified logic.
use vstd::prelude::*;

pub mod columns;
pub mod dates;
pub mod drawing;
pub mod grid;
pub mod guard;
pub mod keymap;
pub mod markdown;
pub mod label_forms;
pub mod modal;
pub mod model;
pub mod models;
pub mod mutation;
pub mod plain;
pub mod resolve;
pub mod rows;
pub mod runtime;
pub mod screen;
pub mod server;
pub mod sidebar;
pub mod urls;
pub mod text;
pub mod theme;
pub mod update;
pub mod actions;
pub mod editing;
pub mod label_flow;
pub mod links;
pub mod messages;
pub mod quick;
pub mod quickadd;
pub mod sync;
pub mod keys;
pub mod listing;

verus! {
} // verus!
