//! When a command is accepted and when it is rejected.

use vstd::prelude::*;
use uuid::Uuid;
use crate::domain::data::CommandError;
use crate::domain::laws::serving::{lemma_all_outstanding_iff_enough, numbers_of};
use crate::domain::model::{decide_spec, CommandView, EventView, OrderedItemView, StateView};

verus! {

/// A tab that is not open takes no order, whatever the order holds.
pub proof fn lemma_closed_tab_rejects_orders(
    state: StateView,
    id: Uuid,
    items: Seq<OrderedItemView>,
)
    requires
        !state.tab_open,
    ensures
        decide_spec(state, CommandView::PlaceOrder { id, items }) == Err::<
            Seq<EventView>,
            CommandError,
        >(CommandError::TabNotOpen),
{
}

/// Opening a tab is accepted in every state, an open one too, and yields the
/// one event that carries the table and the waiter of the command.
pub proof fn lemma_open_tab_is_always_accepted(
    state: StateView,
    id: Uuid,
    table_number: u8,
    waiter: Seq<char>,
)
    ensures
        decide_spec(state, CommandView::OpenTab { id, table_number, waiter }) == Ok::<
            Seq<EventView>,
            CommandError,
        >(seq![EventView::TabOpened { table_number, waiter }]),
{
}

/// Marking items as served is accepted exactly when each requested number
/// is outstanding, in its category, at least as often as it is requested;
/// the event then carries the numbers as they were requested.
pub proof fn lemma_serve_is_accepted_iff_enough(
    state: StateView,
    id: Uuid,
    menu_numbers: Seq<i32>,
)
    ensures
        decide_spec(state, CommandView::MarkDrinksServed { id, menu_numbers })
            == if menu_numbers.to_multiset().subset_of(
            numbers_of(state.outstanding_drinks).to_multiset(),
        ) {
            Ok::<Seq<EventView>, CommandError>(seq![EventView::DrinksServed { menu_numbers }])
        } else {
            Err::<Seq<EventView>, CommandError>(CommandError::DrinksNotOutstanding)
        },
        decide_spec(state, CommandView::MarkFoodServed { id, menu_numbers })
            == if menu_numbers.to_multiset().subset_of(
            numbers_of(state.outstanding_food).to_multiset(),
        ) {
            Ok::<Seq<EventView>, CommandError>(seq![EventView::FoodServed { menu_numbers }])
        } else {
            Err::<Seq<EventView>, CommandError>(CommandError::FoodNotOutstanding)
        },
{
    lemma_all_outstanding_iff_enough(state.outstanding_drinks, menu_numbers);
    lemma_all_outstanding_iff_enough(state.outstanding_food, menu_numbers);
}

/// The identifier of a command has no part in the decision.
pub proof fn lemma_identifier_is_not_read(state: StateView, command: CommandView, id: Uuid)
    ensures
        decide_spec(state, command) == decide_spec(state, with_id(command, id)),
{
}

/// The same command under another identifier.
pub open spec fn with_id(command: CommandView, id: Uuid) -> CommandView {
    match command {
        CommandView::OpenTab { table_number, waiter, .. } => CommandView::OpenTab {
            id,
            table_number,
            waiter,
        },
        CommandView::PlaceOrder { items, .. } => CommandView::PlaceOrder { id, items },
        CommandView::MarkDrinksServed { menu_numbers, .. } => CommandView::MarkDrinksServed {
            id,
            menu_numbers,
        },
        CommandView::MarkFoodServed { menu_numbers, .. } => CommandView::MarkFoodServed {
            id,
            menu_numbers,
        },
    }
}

} // verus!
