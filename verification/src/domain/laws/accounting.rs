//! Where the value of a tab goes: what is ordered is outstanding until it is
//! served, and serving moves its price to the served value.

use vstd::prelude::*;
use crate::domain::model::{
    evolve_spec, first_match, lemma_first_match_is_least, serve_all, serve_one, value_limit,
    Account, EventView, OrderedItemView, StateView,
};

verus! {

/// The sum of the prices of the items.
pub open spec fn total_price(items: Seq<OrderedItemView>) -> nat
    decreases items.len(),
{
    if items.len() == 0 {
        0
    } else {
        total_price(items.drop_last()) + items.last().price
    }
}

/// Everything a tab has ever taken on: what was served and what is still
/// outstanding.
pub open spec fn tab_total(state: StateView) -> nat {
    state.served_items_value + total_price(state.outstanding_drinks) + total_price(
        state.outstanding_food,
    )
}

/// The value that an event brings onto a tab: the prices of the items of an
/// order, and nothing for any other event.
pub open spec fn ordered_value(event: EventView) -> nat {
    match event {
        EventView::DrinksOrdered { items } => total_price(items),
        EventView::FoodOrdered { items } => total_price(items),
        _ => 0,
    }
}

/// Taking one item out lowers the total by that item's price.
pub proof fn lemma_total_price_remove(items: Seq<OrderedItemView>, i: int)
    requires
        0 <= i < items.len(),
    ensures
        total_price(items.remove(i)) + items[i].price == total_price(items),
    decreases items.len(),
{
    if i == items.len() - 1 {
        assert(items.remove(i) =~= items.drop_last());
    } else {
        assert(items.remove(i).drop_last() =~= items.drop_last().remove(i));
        assert(items.remove(i).last() == items.last());
        lemma_total_price_remove(items.drop_last(), i);
    }
}

/// The total of two batches, one after the other, is the sum of their
/// totals.
pub proof fn lemma_total_price_concat(first: Seq<OrderedItemView>, second: Seq<OrderedItemView>)
    ensures
        total_price(first + second) == total_price(first) + total_price(second),
    decreases second.len(),
{
    if second.len() == 0 {
        assert(first + second =~= first);
    } else {
        assert((first + second).drop_last() =~= first + second.drop_last());
        assert((first + second).last() == second.last());
        lemma_total_price_concat(first, second.drop_last());
    }
}

/// Serving an outstanding item adds exactly its price to the served value,
/// as long as the sum fits the limit.
pub proof fn lemma_serve_one_adds_price(account: Account, menu_number: i32, i: int)
    requires
        first_match(account.outstanding, menu_number) == Some(i),
        account.value + account.outstanding[i].price <= value_limit(),
    ensures
        serve_one(account, menu_number).value == account.value + account.outstanding[i].price,
        serve_one(account, menu_number).outstanding == account.outstanding.remove(i),
{
}

/// Serving one number moves value from the outstanding items to the served
/// value: their sum stays what it was, as long as it fits the limit.
pub proof fn lemma_serve_one_conserves(account: Account, menu_number: i32)
    requires
        account.value + total_price(account.outstanding) <= value_limit(),
    ensures
        serve_one(account, menu_number).value + total_price(
            serve_one(account, menu_number).outstanding,
        ) == account.value + total_price(account.outstanding),
{
    lemma_first_match_is_least(account.outstanding, menu_number);
    match first_match(account.outstanding, menu_number) {
        Some(i) => {
            lemma_total_price_remove(account.outstanding, i);
        },
        None => {},
    }
}

/// Serving any numbers moves value from the outstanding items to the served
/// value: the served value grows by exactly the prices of the items that
/// left, as long as the whole fits the limit.
pub proof fn lemma_serve_all_conserves(account: Account, menu_numbers: Seq<i32>)
    requires
        account.value + total_price(account.outstanding) <= value_limit(),
    ensures
        serve_all(account, menu_numbers).value + total_price(
            serve_all(account, menu_numbers).outstanding,
        ) == account.value + total_price(account.outstanding),
    decreases menu_numbers.len(),
{
    if menu_numbers.len() > 0 {
        lemma_serve_all_conserves(account, menu_numbers.drop_last());
        lemma_serve_one_conserves(
            serve_all(account, menu_numbers.drop_last()),
            menu_numbers.last(),
        );
    }
}

/// Serving never takes a value that is within the limit past it, and never
/// lowers it.
pub proof fn lemma_serve_all_value_in_range(account: Account, menu_numbers: Seq<i32>)
    requires
        account.value <= value_limit(),
    ensures
        account.value <= serve_all(account, menu_numbers).value <= value_limit(),
    decreases menu_numbers.len(),
{
    if menu_numbers.len() > 0 {
        lemma_serve_all_value_in_range(account, menu_numbers.drop_last());
    }
}

/// An order raises the total of a tab by the prices of its items, and no
/// other event changes the total: a serve event raises the served value by
/// exactly the prices of the items that it takes out of the outstanding
/// lists, as long as the total fits the limit.
pub proof fn lemma_evolve_accounts_for_value(state: StateView, event: EventView)
    requires
        event is DrinksServed || event is FoodServed ==> tab_total(state) <= value_limit(),
    ensures
        tab_total(evolve_spec(state, event)) == tab_total(state) + ordered_value(event),
{
    match event {
        EventView::TabOpened { .. } => {},
        EventView::DrinksOrdered { items } => {
            lemma_total_price_concat(state.outstanding_drinks, items);
        },
        EventView::FoodOrdered { items } => {
            lemma_total_price_concat(state.outstanding_food, items);
        },
        EventView::DrinksServed { menu_numbers } => {
            lemma_serve_all_conserves(
                Account { outstanding: state.outstanding_drinks, value: state.served_items_value },
                menu_numbers,
            );
        },
        EventView::FoodServed { menu_numbers } => {
            lemma_serve_all_conserves(
                Account { outstanding: state.outstanding_food, value: state.served_items_value },
                menu_numbers,
            );
        },
    }
}

/// The served value of a state that came out of an evolution step never
/// passes the limit, provided it did not before.
pub proof fn lemma_served_value_stays_in_range(state: StateView, event: EventView)
    requires
        state.served_items_value <= value_limit(),
    ensures
        evolve_spec(state, event).served_items_value <= value_limit(),
{
    match event {
        EventView::DrinksServed { menu_numbers } => {
            lemma_serve_all_value_in_range(
                Account { outstanding: state.outstanding_drinks, value: state.served_items_value },
                menu_numbers,
            );
        },
        EventView::FoodServed { menu_numbers } => {
            lemma_serve_all_value_in_range(
                Account { outstanding: state.outstanding_food, value: state.served_items_value },
                menu_numbers,
            );
        },
        _ => {},
    }
}

/// Serving the one number of an outstanding
/// drink takes the first drink with that number off the tab and raises the
/// served value by exactly its price, as long as the sum fits the limit; and
/// likewise for food. Nothing else changes.
pub proof fn lemma_serving_one_item(state: StateView, menu_number: i32)
    ensures
        match first_match(state.outstanding_drinks, menu_number) {
            Some(i) => state.served_items_value + state.outstanding_drinks[i].price
                <= value_limit() ==> evolve_spec(
                state,
                EventView::DrinksServed { menu_numbers: seq![menu_number] },
            ) == (StateView {
                outstanding_drinks: state.outstanding_drinks.remove(i),
                served_items_value: state.served_items_value + state.outstanding_drinks[i].price,
                ..state
            }),
            None => evolve_spec(state, EventView::DrinksServed { menu_numbers: seq![menu_number] })
                == state,
        },
        match first_match(state.outstanding_food, menu_number) {
            Some(i) => state.served_items_value + state.outstanding_food[i].price <= value_limit()
                ==> evolve_spec(state, EventView::FoodServed { menu_numbers: seq![menu_number] })
                == (StateView {
                outstanding_food: state.outstanding_food.remove(i),
                served_items_value: state.served_items_value + state.outstanding_food[i].price,
                ..state
            }),
            None => evolve_spec(state, EventView::FoodServed { menu_numbers: seq![menu_number] })
                == state,
        },
{
    let one = seq![menu_number];
    assert(one.drop_last() =~= Seq::<i32>::empty());
    assert(one.last() == menu_number);
    let drinks = Account {
        outstanding: state.outstanding_drinks,
        value: state.served_items_value,
    };
    let food = Account { outstanding: state.outstanding_food, value: state.served_items_value };
    assert(serve_all(drinks, one.drop_last()) == drinks);
    assert(serve_all(food, one.drop_last()) == food);
    assert(serve_all(drinks, one) == serve_one(drinks, menu_number));
    assert(serve_all(food, one) == serve_one(food, menu_number));
}

} // verus!
