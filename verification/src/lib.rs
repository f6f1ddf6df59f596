//! An event-sourced restaurant tab.
//!
//! Commands are turned into events by a pure decision function, and the
//! current state of a tab is the left fold of its event history. Every
//! executable function is verified against a mathematical model of the tab
//! that lives in [`domain::model`].

pub mod api;
pub mod cqrs;
pub mod domain;
