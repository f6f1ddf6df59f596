//! What a history says of the state that it folds into.

use vstd::prelude::*;
use crate::domain::laws::serving::{lemma_serve_all_only_removes};
use crate::domain::model::{
    evolve_spec, initial_state_spec, replay_spec, Account, EventView, OrderedItemView, StateView,
};

verus! {

/// `states` is the course of a fold of `events`: it starts at the initial
/// state and each event leads from one state to the next.
pub open spec fn is_replay(states: Seq<StateView>, events: Seq<EventView>) -> bool {
    &&& states.len() == events.len() + 1
    &&& states[0] == initial_state_spec()
    &&& forall|i: int|
        1 <= i <= events.len() ==> #[trigger] states[i] == evolve_spec(states[i - 1], events[i - 1])
}

/// In a fold of `events`, the state after the first `i` events is the replay
/// of those events.
pub proof fn lemma_replay_course(states: Seq<StateView>, events: Seq<EventView>, i: int)
    requires
        is_replay(states, events),
        0 <= i <= events.len(),
    ensures
        states[i] == replay_spec(events.take(i)),
    decreases i,
{
    if i > 0 {
        lemma_replay_course(states, events, i - 1);
        assert(events.take(i).drop_last() =~= events.take(i - 1));
        assert(events.take(i).last() == events[i - 1]);
    }
}

/// Two folds of the same history from the initial
/// state pass through the same states and end in the same state, which is
/// the replay of the history: a state depends on nothing but the events
/// folded into it.
pub proof fn lemma_replay_is_repeatable(
    events: Seq<EventView>,
    first: Seq<StateView>,
    second: Seq<StateView>,
)
    requires
        is_replay(first, events),
        is_replay(second, events),
    ensures
        first == second,
        first.last() == replay_spec(events),
{
    assert forall|i: int| 0 <= i < first.len() implies first[i] == second[i] by {
        lemma_replay_course(first, events, i);
        lemma_replay_course(second, events, i);
    }
    assert(first =~= second);
    lemma_replay_course(first, events, events.len() as int);
    assert(events.take(events.len() as int) =~= events);
}

/// A tab that is open stays open, whatever event follows.
pub proof fn lemma_open_tab_stays_open(state: StateView, event: EventView)
    requires
        state.tab_open,
    ensures
        evolve_spec(state, event).tab_open,
{
}

/// A tab is open exactly when its history holds a `TabOpened` event.
pub proof fn lemma_open_iff_opened(events: Seq<EventView>)
    ensures
        replay_spec(events).tab_open <==> exists|i: int|
            0 <= i < events.len() && #[trigger] events[i] is TabOpened,
    decreases events.len(),
{
    if events.len() > 0 {
        let earlier = events.drop_last();
        lemma_open_iff_opened(earlier);
        if replay_spec(events).tab_open {
            if events.last() is TabOpened {
                assert(events[events.len() - 1] is TabOpened);
            } else {
                let i = choose|i: int| 0 <= i < earlier.len() && #[trigger] earlier[i] is TabOpened;
                assert(events[i] is TabOpened);
            }
        }
        if exists|i: int| 0 <= i < events.len() && #[trigger] events[i] is TabOpened {
            let i = choose|i: int| 0 <= i < events.len() && #[trigger] events[i] is TabOpened;
            if i < earlier.len() {
                assert(earlier[i] is TabOpened);
            }
        }
    }
}

/// Every outstanding item of a tab came with an order event of its
/// category somewhere in the history of the tab.
pub proof fn lemma_outstanding_was_ordered(events: Seq<EventView>, item: OrderedItemView)
    ensures
        replay_spec(events).outstanding_drinks.contains(item) ==> exists|i: int|
            0 <= i < events.len() && (#[trigger] events[i]) is DrinksOrdered
                && events[i]->DrinksOrdered_items.contains(item),
        replay_spec(events).outstanding_food.contains(item) ==> exists|i: int|
            0 <= i < events.len() && (#[trigger] events[i]) is FoodOrdered
                && events[i]->FoodOrdered_items.contains(item),
    decreases events.len(),
{
    if events.len() > 0 {
        let earlier = events.drop_last();
        let before = replay_spec(earlier);
        let after = replay_spec(events);
        let last = events.len() - 1;
        lemma_outstanding_was_ordered(earlier, item);
        if after.outstanding_drinks.contains(item) {
            match events.last() {
                EventView::DrinksOrdered { items } => {
                    let k = choose|k: int|
                        0 <= k < after.outstanding_drinks.len() && after.outstanding_drinks[k]
                            == item;
                    if k < before.outstanding_drinks.len() {
                        assert(before.outstanding_drinks[k] == item);
                    } else {
                        assert(items[k - before.outstanding_drinks.len()] == item);
                        assert(events[last] is DrinksOrdered);
                    }
                },
                EventView::DrinksServed { menu_numbers } => {
                    lemma_serve_all_only_removes(
                        Account {
                            outstanding: before.outstanding_drinks,
                            value: before.served_items_value,
                        },
                        menu_numbers,
                        item,
                    );
                },
                _ => {},
            }
            if before.outstanding_drinks.contains(item) {
                let i = choose|i: int|
                    0 <= i < earlier.len() && (#[trigger] earlier[i]) is DrinksOrdered
                        && earlier[i]->DrinksOrdered_items.contains(item);
                assert(events[i] == earlier[i]);
            }
        }
        if after.outstanding_food.contains(item) {
            match events.last() {
                EventView::FoodOrdered { items } => {
                    let k = choose|k: int|
                        0 <= k < after.outstanding_food.len() && after.outstanding_food[k] == item;
                    if k < before.outstanding_food.len() {
                        assert(before.outstanding_food[k] == item);
                    } else {
                        assert(items[k - before.outstanding_food.len()] == item);
                        assert(events[last] is FoodOrdered);
                    }
                },
                EventView::FoodServed { menu_numbers } => {
                    lemma_serve_all_only_removes(
                        Account {
                            outstanding: before.outstanding_food,
                            value: before.served_items_value,
                        },
                        menu_numbers,
                        item,
                    );
                },
                _ => {},
            }
            if before.outstanding_food.contains(item) {
                let i = choose|i: int|
                    0 <= i < earlier.len() && (#[trigger] earlier[i]) is FoodOrdered
                        && earlier[i]->FoodOrdered_items.contains(item);
                assert(events[i] == earlier[i]);
            }
        }
    }
}

} // verus!
