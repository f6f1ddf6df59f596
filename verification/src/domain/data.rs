//! The values that travel in and out of the tab aggregate.

use vstd::prelude::*;
use uuid::Uuid;
use crate::domain::model::{CommandView, EventView, OrderedItemView};

verus! {

/// `uuid::Uuid`, the identifier that routes a command to its tab. It is
/// carried through as an opaque value: nothing is claimed of what it holds.
#[verifier::external_type_specification]
#[verifier::external_body]
pub struct ExUuid(uuid::Uuid);

/// `Clone::clone` of `uuid::Uuid`, which the crate derives beside `Copy`: the
/// clone is the identifier itself.
pub assume_specification[ <uuid::Uuid as core::clone::Clone>::clone ](id: &uuid::Uuid) -> (res:
    uuid::Uuid)
    ensures
        res == *id,
;

/// One line of an order. `price` is an amount in minor currency units.
#[derive(Debug, Clone, PartialEq, Eq)]
pub struct OrderedItem {
    pub menu_number: i32,
    pub description: String,
    pub is_drink: bool,
    pub price: u64,
}

impl View for OrderedItem {
    type V = OrderedItemView;

    open spec fn view(&self) -> OrderedItemView {
        OrderedItemView {
            menu_number: self.menu_number,
            description: self.description@,
            is_drink: self.is_drink,
            price: self.price as nat,
        }
    }
}

/// The views of a sequence of items, in the same order.
pub open spec fn items_view(items: Seq<OrderedItem>) -> Seq<OrderedItemView> {
    items.map_values(|item: OrderedItem| item@)
}

/// A request to change a tab. The identifier only routes the command; no
/// decision depends on it.
#[derive(Debug, Clone, PartialEq)]
pub enum Command {
    OpenTab(Uuid, u8, String),
    PlaceOrder(Uuid, Vec<OrderedItem>),
    MarkDrinksServed(Uuid, Vec<i32>),
    MarkFoodServed(Uuid, Vec<i32>),
}

impl View for Command {
    type V = CommandView;

    open spec fn view(&self) -> CommandView {
        match *self {
            Command::OpenTab(id, table_number, waiter) => CommandView::OpenTab {
                id,
                table_number,
                waiter: waiter@,
            },
            Command::PlaceOrder(id, items) => CommandView::PlaceOrder {
                id,
                items: items_view(items@),
            },
            Command::MarkDrinksServed(id, menu_numbers) => CommandView::MarkDrinksServed {
                id,
                menu_numbers: menu_numbers@,
            },
            Command::MarkFoodServed(id, menu_numbers) => CommandView::MarkFoodServed {
                id,
                menu_numbers: menu_numbers@,
            },
        }
    }
}

/// The business precondition that a rejected command failed.
#[derive(Debug, Clone, PartialEq, Eq)]
pub enum CommandError {
    TabNotOpen,
    DrinksNotOutstanding,
    FoodNotOutstanding,
}

/// A fact about a tab.
#[derive(Debug, Clone, PartialEq)]
pub enum Event {
    TabOpened { table_number: u8, waiter: String },
    DrinksOrdered { items: Vec<OrderedItem> },
    FoodOrdered { items: Vec<OrderedItem> },
    DrinksServed { menu_numbers: Vec<i32> },
    FoodServed { menu_numbers: Vec<i32> },
}

impl View for Event {
    type V = EventView;

    open spec fn view(&self) -> EventView {
        match *self {
            Event::TabOpened { table_number, waiter } => EventView::TabOpened {
                table_number,
                waiter: waiter@,
            },
            Event::DrinksOrdered { items } => EventView::DrinksOrdered {
                items: items_view(items@),
            },
            Event::FoodOrdered { items } => EventView::FoodOrdered { items: items_view(items@) },
            Event::DrinksServed { menu_numbers } => EventView::DrinksServed {
                menu_numbers: menu_numbers@,
            },
            Event::FoodServed { menu_numbers } => EventView::FoodServed {
                menu_numbers: menu_numbers@,
            },
        }
    }
}

/// The views of a sequence of events, in the same order.
pub open spec fn events_view(events: Seq<Event>) -> Seq<EventView> {
    events.map_values(|event: Event| event@)
}

} // verus!

