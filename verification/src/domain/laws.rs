//! What holds of every tab: the laws of the model, each proved from the
//! definitions that the contracts of the aggregate speak of.

pub mod accounting;
pub mod decisions;
pub mod history;
pub mod orders;
pub mod serving;
