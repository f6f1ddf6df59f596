//! The mathematical model of a tab: views of the data and the functions that
//! say what a decision and an evolution step are.

use vstd::prelude::*;
use uuid::Uuid;
use crate::domain::data::CommandError;

verus! {

/// The largest amount that the accumulated value of a tab can hold.
pub open spec fn value_limit() -> nat {
    u64::MAX as nat
}

/// What an ordered item is: its key on the menu, its text, its category and
/// its price in minor currency units.
#[verifier::ext_equal]
pub struct OrderedItemView {
    pub menu_number: i32,
    pub description: Seq<char>,
    pub is_drink: bool,
    pub price: nat,
}

/// What an event is, with every collection as a sequence.
#[verifier::ext_equal]
pub enum EventView {
    TabOpened { table_number: u8, waiter: Seq<char> },
    DrinksOrdered { items: Seq<OrderedItemView> },
    FoodOrdered { items: Seq<OrderedItemView> },
    DrinksServed { menu_numbers: Seq<i32> },
    FoodServed { menu_numbers: Seq<i32> },
}

/// What a command is, with every collection as a sequence.
#[verifier::ext_equal]
pub enum CommandView {
    OpenTab { id: Uuid, table_number: u8, waiter: Seq<char> },
    PlaceOrder { id: Uuid, items: Seq<OrderedItemView> },
    MarkDrinksServed { id: Uuid, menu_numbers: Seq<i32> },
    MarkFoodServed { id: Uuid, menu_numbers: Seq<i32> },
}

/// What a tab is at one point of its history.
#[verifier::ext_equal]
pub struct StateView {
    pub tab_open: bool,
    pub outstanding_drinks: Seq<OrderedItemView>,
    pub outstanding_food: Seq<OrderedItemView>,
    pub served_items_value: nat,
}

/// The outstanding items of one category together with the value served so
/// far: what a serve event works on.
#[verifier::ext_equal]
pub struct Account {
    pub outstanding: Seq<OrderedItemView>,
    pub value: nat,
}

/// The tab that has no history.
pub open spec fn initial_state_spec() -> StateView {
    StateView {
        tab_open: false,
        outstanding_drinks: Seq::empty(),
        outstanding_food: Seq::empty(),
        served_items_value: 0,
    }
}

/// The position of the first item with the given menu number, if there is
/// one.
pub open spec fn first_match(items: Seq<OrderedItemView>, menu_number: i32) -> Option<int>
    decreases items.len(),
{
    if items.len() == 0 {
        None
    } else if items[0].menu_number == menu_number {
        Some(0int)
    } else {
        match first_match(items.drop_first(), menu_number) {
            Some(i) => Some(i + 1),
            None => None,
        }
    }
}

/// What is left of `items` once each of `menu_numbers`, from left to right,
/// has consumed the first remaining item with its number; `None` as soon as
/// one of them finds no such item.
pub open spec fn remaining_after(items: Seq<OrderedItemView>, menu_numbers: Seq<i32>) -> Option<
    Seq<OrderedItemView>,
>
    decreases menu_numbers.len(),
{
    if menu_numbers.len() == 0 {
        Some(items)
    } else {
        match remaining_after(items, menu_numbers.drop_last()) {
            Some(rest) => match first_match(rest, menu_numbers.last()) {
                Some(i) => Some(rest.remove(i)),
                None => None,
            },
            None => None,
        }
    }
}

/// Every requested number can be matched against an outstanding item of its
/// own.
pub open spec fn all_outstanding(items: Seq<OrderedItemView>, menu_numbers: Seq<i32>) -> bool {
    remaining_after(items, menu_numbers) is Some
}

/// An amount, held at the limit once it passes it.
pub open spec fn capped(amount: nat) -> nat {
    if amount > value_limit() {
        value_limit()
    } else {
        amount
    }
}

/// Serves one menu number: the first outstanding item with that number
/// leaves and its price is added to the value; with no such item nothing
/// changes.
pub open spec fn serve_one(account: Account, menu_number: i32) -> Account {
    match first_match(account.outstanding, menu_number) {
        Some(i) => Account {
            outstanding: account.outstanding.remove(i),
            value: capped(account.value + account.outstanding[i].price),
        },
        None => account,
    }
}

/// Serves the menu numbers one by one, from left to right.
pub open spec fn serve_all(account: Account, menu_numbers: Seq<i32>) -> Account
    decreases menu_numbers.len(),
{
    if menu_numbers.len() == 0 {
        account
    } else {
        serve_one(serve_all(account, menu_numbers.drop_last()), menu_numbers.last())
    }
}

/// The drinks of an order, in the order in which they were given.
pub open spec fn drinks_of(items: Seq<OrderedItemView>) -> Seq<OrderedItemView> {
    items.filter(|item: OrderedItemView| item.is_drink)
}

/// The food of an order, in the order in which it was given.
pub open spec fn food_of(items: Seq<OrderedItemView>) -> Seq<OrderedItemView> {
    items.filter(|item: OrderedItemView| !item.is_drink)
}

/// The events of an accepted order: one batch of food if there is any food,
/// then one batch of drinks if there is any drink.
pub open spec fn order_events(items: Seq<OrderedItemView>) -> Seq<EventView> {
    let food = food_of(items);
    let drinks = drinks_of(items);
    let food_events = if food.len() > 0 {
        seq![EventView::FoodOrdered { items: food }]
    } else {
        Seq::empty()
    };
    let drink_events = if drinks.len() > 0 {
        seq![EventView::DrinksOrdered { items: drinks }]
    } else {
        Seq::empty()
    };
    food_events + drink_events
}

/// What a command produces against a state.
pub open spec fn decide_spec(state: StateView, command: CommandView) -> Result<
    Seq<EventView>,
    CommandError,
> {
    match command {
        CommandView::OpenTab { id, table_number, waiter } => Ok(
            seq![EventView::TabOpened { table_number, waiter }],
        ),
        CommandView::PlaceOrder { id, items } => if state.tab_open {
            Ok(order_events(items))
        } else {
            Err(CommandError::TabNotOpen)
        },
        CommandView::MarkDrinksServed { id, menu_numbers } => if all_outstanding(
            state.outstanding_drinks,
            menu_numbers,
        ) {
            Ok(seq![EventView::DrinksServed { menu_numbers }])
        } else {
            Err(CommandError::DrinksNotOutstanding)
        },
        CommandView::MarkFoodServed { id, menu_numbers } => if all_outstanding(
            state.outstanding_food,
            menu_numbers,
        ) {
            Ok(seq![EventView::FoodServed { menu_numbers }])
        } else {
            Err(CommandError::FoodNotOutstanding)
        },
    }
}

/// The state after one event.
pub open spec fn evolve_spec(state: StateView, event: EventView) -> StateView {
    match event {
        EventView::TabOpened { table_number, waiter } => StateView { tab_open: true, ..state },
        EventView::DrinksOrdered { items } => StateView {
            outstanding_drinks: state.outstanding_drinks + items,
            ..state
        },
        EventView::FoodOrdered { items } => StateView {
            outstanding_food: state.outstanding_food + items,
            ..state
        },
        EventView::DrinksServed { menu_numbers } => {
            let served = serve_all(
                Account { outstanding: state.outstanding_drinks, value: state.served_items_value },
                menu_numbers,
            );
            StateView {
                outstanding_drinks: served.outstanding,
                served_items_value: served.value,
                ..state
            }
        },
        EventView::FoodServed { menu_numbers } => {
            let served = serve_all(
                Account { outstanding: state.outstanding_food, value: state.served_items_value },
                menu_numbers,
            );
            StateView {
                outstanding_food: served.outstanding,
                served_items_value: served.value,
                ..state
            }
        },
    }
}

/// The state after a whole history, folded from the left.
pub open spec fn replay_spec(events: Seq<EventView>) -> StateView
    decreases events.len(),
{
    if events.len() == 0 {
        initial_state_spec()
    } else {
        evolve_spec(replay_spec(events.drop_last()), events.last())
    }
}

/// The first item with a given number is where `first_match` points.
pub proof fn lemma_first_match_found(items: Seq<OrderedItemView>, menu_number: i32, i: int)
    requires
        0 <= i < items.len(),
        items[i].menu_number == menu_number,
        forall|j: int| 0 <= j < i ==> items[j].menu_number != menu_number,
    ensures
        first_match(items, menu_number) == Some(i),
    decreases items.len(),
{
    if i > 0 {
        let rest = items.drop_first();
        assert forall|j: int| 0 <= j < i - 1 implies rest[j].menu_number != menu_number by {
            assert(rest[j] == items[j + 1]);
        }
        lemma_first_match_found(rest, menu_number, i - 1);
    }
}

/// Where no item has the number, `first_match` finds nothing.
pub proof fn lemma_first_match_absent(items: Seq<OrderedItemView>, menu_number: i32)
    requires
        forall|j: int| 0 <= j < items.len() ==> items[j].menu_number != menu_number,
    ensures
        first_match(items, menu_number) is None,
    decreases items.len(),
{
    if items.len() > 0 {
        let rest = items.drop_first();
        assert forall|j: int| 0 <= j < rest.len() implies rest[j].menu_number != menu_number by {
            assert(rest[j] == items[j + 1]);
        }
        lemma_first_match_absent(rest, menu_number);
    }
}

/// What `first_match` returns is the least position that holds the number,
/// and it returns nothing only where no position holds it.
pub proof fn lemma_first_match_is_least(items: Seq<OrderedItemView>, menu_number: i32)
    ensures
        match first_match(items, menu_number) {
            Some(i) => 0 <= i < items.len() && items[i].menu_number == menu_number && forall|j: int|
                0 <= j < i ==> items[j].menu_number != menu_number,
            None => forall|j: int| 0 <= j < items.len() ==> items[j].menu_number != menu_number,
        },
    decreases items.len(),
{
    if items.len() > 0 && items[0].menu_number != menu_number {
        let rest = items.drop_first();
        lemma_first_match_is_least(rest, menu_number);
        match first_match(rest, menu_number) {
            Some(k) => {
                assert(items[k + 1] == rest[k]);
                assert forall|j: int| 0 <= j < k + 1 implies items[j].menu_number
                    != menu_number by {
                    if j > 0 {
                        assert(items[j] == rest[j - 1]);
                    }
                }
            },
            None => {
                assert forall|j: int| 0 <= j < items.len() implies items[j].menu_number
                    != menu_number by {
                    if j > 0 {
                        assert(items[j] == rest[j - 1]);
                    }
                }
            },
        }
    }
}

} // verus!
