//! Verified core of a kanban-style task board.
//!
//! The board keeps a four-level hierarchy (projects, columns, tasks,
//! subtasks) plus a flat tag catalog and a registry of filesystem paths bound
//! to projects.  The parts worth proving are collected here:
//!
//! * `ordering` — the sparse "gap key" scheme that gives every sibling a
//!   stable, reorderable position, and the bulk-reorder semantics;
//! * `model` / `store` and friends — the in-memory hierarchy store with its
//!   lifecycle rules (default columns, cascading deletes, tag uniqueness);
//! * `paths` — the longest-prefix resolver from a filesystem path to the
//!   project bound to it;
//! * `client`, `config`, `auth` — the pure decision logic of the
//!   command-line client and of the API-key check.
//!
//! Everything that talks to the network, the terminal or the environment
//! lives outside this crate and hands plain values in and out.

pub mod auth;
pub mod cascade;
pub mod client;
pub mod columns;
pub mod config;
pub mod listing;
pub mod model;
pub mod ordering;
pub mod paths;
pub mod projects;
pub mod sorting;
pub mod store;
pub mod strutil;
pub mod subtasks;
pub mod tags;
pub mod tasks;
pub mod textops;
