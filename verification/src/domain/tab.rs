//! The tab aggregate: its state and the two functions that decide on
//! commands and fold events.

use vstd::prelude::*;
use crate::cqrs::Aggregate;
use crate::domain::data::{events_view, items_view, Command, CommandError, Event, OrderedItem};
use crate::domain::model::{
    all_outstanding, decide_spec, drinks_of, evolve_spec, first_match, food_of,
    initial_state_spec, lemma_first_match_absent, lemma_first_match_found, order_events,
    remaining_after, replay_spec, serve_all, Account, EventView, OrderedItemView, StateView,
};

verus! {

/// The state of one tab, folded from its events.
#[derive(Debug, Clone, PartialEq)]
pub struct State {
    tab_open: bool,
    outstanding_drinks: Vec<OrderedItem>,
    outstanding_food: Vec<OrderedItem>,
    served_items_value: u64,
}

impl View for State {
    type V = StateView;

    closed spec fn view(&self) -> StateView {
        StateView {
            tab_open: self.tab_open,
            outstanding_drinks: items_view(self.outstanding_drinks@),
            outstanding_food: items_view(self.outstanding_food@),
            served_items_value: self.served_items_value as nat,
        }
    }
}

/// The outcome of a decision, with the events as their views.
pub open spec fn decision_view(result: Result<Vec<Event>, CommandError>) -> Result<
    Seq<EventView>,
    CommandError,
> {
    match result {
        Ok(events) => Ok(events_view(events@)),
        Err(error) => Err(error),
    }
}

/// The position of the first item with the given menu number.
fn position(items: &Vec<OrderedItem>, menu_number: i32) -> (found: Option<usize>)
    ensures
        match found {
            Some(i) => i < items.len() && first_match(items_view(items@), menu_number) == Some(
                i as int,
            ),
            None => first_match(items_view(items@), menu_number) is None,
        },
{
    let mut i: usize = 0;
    while i < items.len()
        invariant
            i <= items.len(),
            forall|j: int| 0 <= j < i ==> items[j].menu_number != menu_number,
        decreases items.len() - i,
    {
        if items[i].menu_number == menu_number {
            proof {
                lemma_first_match_found(items_view(items@), menu_number, i as int);
            }
            return Some(i);
        }
        i += 1;
    }
    proof {
        lemma_first_match_absent(items_view(items@), menu_number);
    }
    None
}

/// A copy of the items, to work on while the state keeps its own.
fn copy_items(items: &Vec<OrderedItem>) -> (copy: Vec<OrderedItem>)
    ensures
        copy@ == items@,
{
    let mut copy: Vec<OrderedItem> = Vec::new();
    let mut i: usize = 0;
    while i < items.len()
        invariant
            i <= items.len(),
            copy@ == items@.take(i as int),
        decreases items.len() - i,
    {
        let item = &items[i];
        copy.push(
            OrderedItem {
                menu_number: item.menu_number,
                description: item.description.clone(),
                is_drink: item.is_drink,
                price: item.price,
            },
        );
        assert(copy@ =~= items@.take(i + 1));
        i += 1;
    }
    assert(items@.take(i as int) =~= items@);
    copy
}

/// Whether each requested number finds an item of its own among `items`,
/// the numbers taken from left to right.
fn can_serve(items: &Vec<OrderedItem>, menu_numbers: &Vec<i32>) -> (ok: bool)
    ensures
        ok == all_outstanding(items_view(items@), menu_numbers@),
{
    let mut rest = copy_items(items);
    let mut k: usize = 0;
    while k < menu_numbers.len()
        invariant
            k <= menu_numbers.len(),
            remaining_after(items_view(items@), menu_numbers@.take(k as int)) == Some(
                items_view(rest@),
            ),
        decreases menu_numbers.len() - k,
    {
        proof {
            assert(menu_numbers@.take(k + 1).drop_last() =~= menu_numbers@.take(k as int));
        }
        match position(&rest, menu_numbers[k]) {
            Some(i) => {
                let ghost before = rest@;
                rest.remove(i);
                assert(items_view(rest@) =~= items_view(before).remove(i as int));
            },
            None => {
                proof {
                    lemma_remaining_after_fails(
                        items_view(items@),
                        menu_numbers@,
                        k as int + 1,
                    );
                }
                return false;
            },
        }
        k += 1;
    }
    assert(menu_numbers@.take(k as int) =~= menu_numbers@);
    true
}

/// Once a prefix of the requests cannot be matched, no longer one can.
proof fn lemma_remaining_after_fails(items: Seq<OrderedItemView>, menu_numbers: Seq<i32>, k: int)
    requires
        0 <= k <= menu_numbers.len(),
        remaining_after(items, menu_numbers.take(k)) is None,
    ensures
        remaining_after(items, menu_numbers) is None,
    decreases menu_numbers.len() - k,
{
    if k < menu_numbers.len() {
        assert(menu_numbers.take(k + 1).drop_last() =~= menu_numbers.take(k));
        lemma_remaining_after_fails(items, menu_numbers, k + 1);
    } else {
        assert(menu_numbers.take(k) =~= menu_numbers);
    }
}

/// Splits an order into its drinks and its food, each in the order given.
fn partition(items: Vec<OrderedItem>) -> (parts: (Vec<OrderedItem>, Vec<OrderedItem>))
    ensures
        items_view(parts.0@) == drinks_of(items_view(items@)),
        items_view(parts.1@) == food_of(items_view(items@)),
{
    let ghost all = items_view(items@);
    let mut drinks: Vec<OrderedItem> = Vec::new();
    let mut food: Vec<OrderedItem> = Vec::new();
    proof {
        assert(all.take(0) =~= Seq::empty());
        assert(items_view(drinks@) =~= drinks_of(all.take(0)));
        assert(items_view(food@) =~= food_of(all.take(0)));
    }
    for item in iter: items
        invariant
            iter.seq() == items@,
            all == items_view(items@),
            items_view(drinks@) == drinks_of(all.take(iter.index() as int)),
            items_view(food@) == food_of(all.take(iter.index() as int)),
    {
        proof {
            let k = iter.index() as int;
            assert(all.take(k + 1).drop_last() =~= all.take(k));
            assert(all.take(k + 1).last() == item@);
            reveal(Seq::filter);
        }
        let ghost drinks_before = drinks@;
        let ghost food_before = food@;
        if item.is_drink {
            drinks.push(item);
            assert(items_view(drinks@) =~= items_view(drinks_before).push(item@));
        } else {
            food.push(item);
            assert(items_view(food@) =~= items_view(food_before).push(item@));
        }
    }
    proof {
        assert(all.take(items@.len() as int) =~= all);
    }
    (drinks, food)
}

/// Serves the menu numbers from left to right against the outstanding items:
/// each takes out the first item with its number and adds that item's price
/// to `value`, which stays at the limit once it reaches it.
fn serve(outstanding: &mut Vec<OrderedItem>, value: &mut u64, menu_numbers: &Vec<i32>)
    ensures
        (Account { outstanding: items_view(final(outstanding)@), value: *final(value) as nat })
            == serve_all(
            Account { outstanding: items_view(old(outstanding)@), value: *old(value) as nat },
            menu_numbers@,
        ),
{
    let ghost start = Account {
        outstanding: items_view(outstanding@),
        value: *value as nat,
    };
    let mut k: usize = 0;
    while k < menu_numbers.len()
        invariant
            k <= menu_numbers.len(),
            (Account { outstanding: items_view(outstanding@), value: *value as nat })
                == serve_all(start, menu_numbers@.take(k as int)),
        decreases menu_numbers.len() - k,
    {
        proof {
            assert(menu_numbers@.take(k + 1).drop_last() =~= menu_numbers@.take(k as int));
        }
        if let Some(i) = position(outstanding, menu_numbers[k]) {
            let ghost before = outstanding@;
            let item = outstanding.remove(i);
            *value = value.saturating_add(item.price);
            assert(items_view(outstanding@) =~= items_view(before).remove(i as int));
        }
        k += 1;
    }
    assert(menu_numbers@.take(k as int) =~= menu_numbers@);
}

impl State {
    /// Whether the tab has been opened.
    pub fn tab_open(&self) -> (open: bool)
        ensures
            open == self@.tab_open,
    {
        self.tab_open
    }

    /// The drinks that were ordered and not served yet, oldest first.
    pub fn outstanding_drinks(&self) -> (items: &Vec<OrderedItem>)
        ensures
            items_view(items@) == self@.outstanding_drinks,
    {
        &self.outstanding_drinks
    }

    /// The food that was ordered and not served yet, oldest first.
    pub fn outstanding_food(&self) -> (items: &Vec<OrderedItem>)
        ensures
            items_view(items@) == self@.outstanding_food,
    {
        &self.outstanding_food
    }

    /// The accumulated price of everything served, in minor currency units.
    pub fn served_items_value(&self) -> (value: u64)
        ensures
            value == self@.served_items_value,
    {
        self.served_items_value
    }

    /// Whether every requested number can be matched against an outstanding
    /// drink of its own.
    fn are_drinks_outstanding(&self, menu_numbers: &Vec<i32>) -> (ok: bool)
        ensures
            ok == all_outstanding(self@.outstanding_drinks, menu_numbers@),
    {
        can_serve(&self.outstanding_drinks, menu_numbers)
    }

    /// Whether every requested number can be matched against an outstanding
    /// food item of its own.
    fn is_food_outstanding(&self, menu_numbers: &Vec<i32>) -> (ok: bool)
        ensures
            ok == all_outstanding(self@.outstanding_food, menu_numbers@),
    {
        can_serve(&self.outstanding_food, menu_numbers)
    }
}

/// The tab aggregate. It holds nothing: the state is the caller's.
pub struct Tab;

impl Tab {
    /// The state of a tab with the given history: the events folded one by
    /// one, oldest first, into the initial state.
    pub fn replay(history: Vec<Event>) -> (state: State)
        ensures
            state@ == replay_spec(events_view(history@)),
    {
        let ghost events = events_view(history@);
        let mut state = Tab::initial_state();
        proof {
            assert(events.take(0) =~= Seq::empty());
        }
        for event in iter: history
            invariant
                iter.seq() == history@,
                events == events_view(history@),
                state@ == replay_spec(events.take(iter.index() as int)),
        {
            proof {
                let k = iter.index() as int;
                assert(events.take(k + 1).drop_last() =~= events.take(k));
                assert(events.take(k + 1).last() == event@);
            }
            Tab::evolve(&mut state, event);
        }
        proof {
            assert(events.take(history@.len() as int) =~= events);
        }
        state
    }
}

impl Aggregate for Tab {
    type Command = Command;

    type CommandError = CommandError;

    type Event = Event;

    type State = State;

    /// A tab that is not open, with nothing outstanding and nothing served.
    fn initial_state() -> (state: State)
        ensures
            state@ == initial_state_spec(),
    {
        let state = State {
            tab_open: false,
            outstanding_drinks: Vec::new(),
            outstanding_food: Vec::new(),
            served_items_value: 0,
        };
        assert(state@ =~~= initial_state_spec());
        state
    }

    /// Decides on a command.
    ///
    /// Opening a tab always yields one `TabOpened`. An order needs an open
    /// tab and yields its food as one batch, then its drinks as one batch,
    /// leaving out a batch that would be empty. Marking items as served
    /// succeeds only if every requested number finds an outstanding item of
    /// its own, and then yields one event with the numbers as requested.
    fn decide(state: &State, command: Command) -> (result: Result<Vec<Event>, CommandError>)
        ensures
            decision_view(result) == decide_spec(state@, command@),
            command is PlaceOrder && !state@.tab_open ==> result == Err::<Vec<Event>, CommandError>(
                CommandError::TabNotOpen,
            ),
            command is OpenTab ==> result is Ok && events_view(result->Ok_0@) == seq![
                EventView::TabOpened {
                    table_number: command->OpenTab_1,
                    waiter: command->OpenTab_2@,
                },
            ],
    {
        match command {
            Command::OpenTab(_, table_number, waiter) => {
                let events = vec![Event::TabOpened { table_number, waiter }];
                assert(events_view(events@) =~= seq![
                    EventView::TabOpened { table_number, waiter: waiter@ },
                ]);
                Ok(events)
            },
            Command::PlaceOrder(_, items) => {
                if state.tab_open {
                    let ghost ordered = items_view(items@);
                    let (drinks, food) = partition(items);
                    let mut events: Vec<Event> = Vec::new();
                    if !food.is_empty() {
                        events.push(Event::FoodOrdered { items: food });
                    }
                    if !drinks.is_empty() {
                        events.push(Event::DrinksOrdered { items: drinks });
                    }
                    assert(events_view(events@) =~= order_events(ordered));
                    Ok(events)
                } else {
                    Err(CommandError::TabNotOpen)
                }
            },
            Command::MarkDrinksServed(_, menu_numbers) => {
                if state.are_drinks_outstanding(&menu_numbers) {
                    let events = vec![Event::DrinksServed { menu_numbers }];
                    assert(events_view(events@) =~= seq![
                        EventView::DrinksServed { menu_numbers: menu_numbers@ },
                    ]);
                    Ok(events)
                } else {
                    Err(CommandError::DrinksNotOutstanding)
                }
            },
            Command::MarkFoodServed(_, menu_numbers) => {
                if state.is_food_outstanding(&menu_numbers) {
                    let events = vec![Event::FoodServed { menu_numbers }];
                    assert(events_view(events@) =~= seq![
                        EventView::FoodServed { menu_numbers: menu_numbers@ },
                    ]);
                    Ok(events)
                } else {
                    Err(CommandError::FoodNotOutstanding)
                }
            },
        }
    }

    /// Folds one event into the state.
    ///
    /// `TabOpened` opens the tab. An order event appends its items to the
    /// outstanding items of its category. A serve event takes, for each of
    /// its numbers from left to right, the first outstanding item with that
    /// number out of the list and adds its price to the served value; a
    /// number without such an item is passed over. The served value stays at
    /// `u64::MAX` once it reaches it.
    fn evolve(state: &mut State, event: Event)
        ensures
            final(state)@ == evolve_spec(old(state)@, event@),
    {
        match event {
            Event::TabOpened { .. } => {
                state.tab_open = true;
            },
            Event::DrinksOrdered { mut items } => {
                state.outstanding_drinks.append(&mut items);
                assert(state@ =~~= evolve_spec(old(state)@, event@));
            },
            Event::FoodOrdered { mut items } => {
                state.outstanding_food.append(&mut items);
                assert(state@ =~~= evolve_spec(old(state)@, event@));
            },
            Event::DrinksServed { menu_numbers } => {
                serve(&mut state.outstanding_drinks, &mut state.served_items_value, &menu_numbers);
            },
            Event::FoodServed { menu_numbers } => {
                serve(&mut state.outstanding_food, &mut state.served_items_value, &menu_numbers);
            },
        }
    }
}

} // verus!
