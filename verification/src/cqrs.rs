use vstd::prelude::*;

verus! {

/// The capability set of an event-sourced aggregate.
///
/// An aggregate owns no state of its own: the caller holds the state, folds
/// the history into it with `evolve`, and asks `decide` what a command means
/// against it.
pub trait Aggregate {
    type Command;

    type CommandError;

    type State;

    type Event;

    /// The state of an aggregate that has no history yet.
    fn initial_state() -> Self::State;

    /// What a command produces against the given state: the events to append,
    /// or the one reason for which it is rejected.
    fn decide(state: &Self::State, command: Self::Command) -> Result<
        Vec<Self::Event>,
        Self::CommandError,
    >;

    /// Folds one event into the state.
    fn evolve(state: &mut Self::State, event: Self::Event);
}

} // verus!
