//! What an order turns into.

use vstd::prelude::*;
use uuid::Uuid;
use crate::domain::data::CommandError;
use crate::domain::model::{
    decide_spec, drinks_of, food_of, order_events, CommandView, EventView, OrderedItemView,
    StateView,
};

verus! {

/// The items of one category of an order, in the order given.
pub open spec fn category_of(items: Seq<OrderedItemView>, drinks: bool) -> Seq<OrderedItemView> {
    if drinks {
        drinks_of(items)
    } else {
        food_of(items)
    }
}

/// The places in an order at which the items of one category stand, from
/// the first to the last.
pub open spec fn places_of(items: Seq<OrderedItemView>, drinks: bool) -> Seq<int>
    decreases items.len(),
{
    if items.len() == 0 {
        Seq::empty()
    } else if items.last().is_drink == drinks {
        places_of(items.drop_last(), drinks).push(items.len() - 1)
    } else {
        places_of(items.drop_last(), drinks)
    }
}

/// The batch of a category holds exactly the items of that category, each once, in the
/// order in which the order gave them.
pub proof fn lemma_partition_keeps_order(items: Seq<OrderedItemView>, drinks: bool)
    ensures
        places_of(items, drinks).len() == category_of(items, drinks).len(),
        forall|k: int|
            0 <= k < places_of(items, drinks).len() ==> {
                &&& 0 <= #[trigger] places_of(items, drinks)[k] < items.len()
                &&& items[places_of(items, drinks)[k]] == category_of(items, drinks)[k]
                &&& category_of(items, drinks)[k].is_drink == drinks
            },
        forall|k: int, l: int|
            0 <= k < l < places_of(items, drinks).len() ==> places_of(items, drinks)[k]
                < places_of(items, drinks)[l],
        forall|p: int|
            0 <= p < items.len() && #[trigger] items[p].is_drink == drinks ==> places_of(
                items,
                drinks,
            ).contains(p),
    decreases items.len(),
{
    reveal(Seq::filter);
    if items.len() > 0 {
        let earlier = items.drop_last();
        let places = places_of(items, drinks);
        lemma_partition_keeps_order(earlier, drinks);
        assert forall|p: int| 0 <= p < items.len() && #[trigger] items[p].is_drink
            == drinks implies places.contains(p) by {
            if p < earlier.len() {
                assert(earlier[p].is_drink == drinks);
                let k = choose|k: int|
                    0 <= k < places_of(earlier, drinks).len() && places_of(earlier, drinks)[k] == p;
                assert(places[k] == p);
            } else {
                assert(places[places.len() - 1] == p);
            }
        }
    }
}

/// Every item of an order is either food or a drink.
proof fn lemma_partition_is_complete(items: Seq<OrderedItemView>)
    ensures
        food_of(items).len() + drinks_of(items).len() == items.len(),
    decreases items.len(),
{
    reveal(Seq::filter);
    if items.len() > 0 {
        lemma_partition_is_complete(items.drop_last());
    }
}

/// An order on an open tab yields its
/// food as one event and then its drinks as one event, without the event of
/// a category of which it holds nothing; between them the two batches hold
/// every item of the order.
pub proof fn lemma_order_events(items: Seq<OrderedItemView>)
    ensures
        order_events(items) == if food_of(items).len() > 0 && drinks_of(items).len() > 0 {
            seq![
                EventView::FoodOrdered { items: food_of(items) },
                EventView::DrinksOrdered { items: drinks_of(items) },
            ]
        } else if food_of(items).len() > 0 {
            seq![EventView::FoodOrdered { items: food_of(items) }]
        } else if drinks_of(items).len() > 0 {
            seq![EventView::DrinksOrdered { items: drinks_of(items) }]
        } else {
            Seq::empty()
        },
        food_of(items).len() + drinks_of(items).len() == items.len(),
        forall|state: StateView, id: Uuid|
            state.tab_open ==> #[trigger] decide_spec(state, CommandView::PlaceOrder { id, items })
                == Ok::<Seq<EventView>, CommandError>(order_events(items)),
{
    assert(order_events(items) =~= if food_of(items).len() > 0 && drinks_of(items).len() > 0 {
        seq![
            EventView::FoodOrdered { items: food_of(items) },
            EventView::DrinksOrdered { items: drinks_of(items) },
        ]
    } else if food_of(items).len() > 0 {
        seq![EventView::FoodOrdered { items: food_of(items) }]
    } else if drinks_of(items).len() > 0 {
        seq![EventView::DrinksOrdered { items: drinks_of(items) }]
    } else {
        Seq::empty()
    });
    lemma_partition_is_complete(items);
}

} // verus!
