//! The tab aggregate: its data, its mathematical model and its rules.

pub mod data;
pub mod laws;
pub mod model;
pub mod tab;

pub use self::data::{Command, CommandError, Event, OrderedItem};
pub use self::tab::{State, Tab};
