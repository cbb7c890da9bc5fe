//! A small typed dependency-injection scheduler.
//!
//! Units ("systems") declare through a list of parameter bindings which
//! resources and which per-window state they need, and in which access mode.
//! Before a unit runs, every binding is extracted from the unit's window
//! context in declaration order, under a runtime single-writer /
//! multiple-reader discipline; conflicts, missing resources and mismatched
//! state types are reported before the unit's body is entered.

pub mod app;
pub mod cell;
pub mod param;
pub mod scheduler;
pub mod store;
pub mod system;
pub mod value;
