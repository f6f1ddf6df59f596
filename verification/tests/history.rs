use tab_aggregate::api::EventStore;
use tab_aggregate::cqrs::Aggregate;
use tab_aggregate::domain::{Command, CommandError, Event, OrderedItem, State, Tab};
use uuid::Uuid;

fn item(menu_number: i32, description: &str, is_drink: bool, price: u64) -> OrderedItem {
    OrderedItem { menu_number, description: description.to_string(), is_drink, price }
}

fn opened() -> State {
    let mut state = Tab::initial_state();
    Tab::evolve(&mut state, Event::TabOpened { table_number: 7, waiter: "Ada".to_string() });
    state
}

fn fold(events: &[Event]) -> State {
    let mut state = Tab::initial_state();
    for event in events {
        Tab::evolve(&mut state, event.clone());
    }
    state
}

fn sample_history() -> Vec<Event> {
    vec![
        Event::TabOpened { table_number: 7, waiter: "Ada".to_string() },
        Event::DrinksOrdered { items: vec![item(1, "tea", true, 250), item(2, "beer", true, 400)] },
        Event::FoodOrdered { items: vec![item(10, "soup", false, 700)] },
        Event::DrinksServed { menu_numbers: vec![2] },
        Event::FoodServed { menu_numbers: vec![10, 11] },
    ]
}

#[test]
fn initial_state_is_empty_and_closed() {
    let state = Tab::initial_state();
    assert!(!state.tab_open());
    assert!(state.outstanding_drinks().is_empty());
    assert!(state.outstanding_food().is_empty());
    assert_eq!(state.served_items_value(), 0);
    assert_eq!(state, Tab::initial_state());
}

#[test]
fn tab_opened_only_opens_the_tab() {
    let state = opened();
    assert!(state.tab_open());
    assert!(state.outstanding_drinks().is_empty());
    assert!(state.outstanding_food().is_empty());
    assert_eq!(state.served_items_value(), 0);
}

#[test]
fn open_tab_is_accepted_whatever_the_state() {
    let expected =
        Ok(vec![Event::TabOpened { table_number: 3, waiter: "Grace".to_string() }]);
    let closed = Tab::initial_state();
    assert_eq!(
        Tab::decide(&closed, Command::OpenTab(Uuid::new_v4(), 3, "Grace".to_string())),
        expected
    );
    let open = fold(&sample_history());
    assert_eq!(
        Tab::decide(&open, Command::OpenTab(Uuid::new_v4(), 3, "Grace".to_string())),
        expected
    );
}

#[test]
fn reopening_keeps_the_tab_open_and_changes_nothing_else() {
    let mut state = fold(&sample_history());
    let before = state.clone();
    Tab::evolve(&mut state, Event::TabOpened { table_number: 9, waiter: "Bob".to_string() });
    assert_eq!(state, before);
}

#[test]
fn any_order_is_rejected_on_a_closed_tab() {
    let state = Tab::initial_state();
    let orders = vec![
        vec![],
        vec![item(1, "tea", true, 250)],
        vec![item(10, "soup", false, 700), item(1, "tea", true, 250)],
    ];
    for items in orders {
        assert_eq!(
            Tab::decide(&state, Command::PlaceOrder(Uuid::new_v4(), items)),
            Err(CommandError::TabNotOpen)
        );
    }
}

#[test]
fn empty_order_on_an_open_tab_yields_no_events() {
    let state = opened();
    assert_eq!(Tab::decide(&state, Command::PlaceOrder(Uuid::new_v4(), vec![])), Ok(vec![]));
}

#[test]
fn order_is_split_by_category_in_the_order_given() {
    let state = opened();
    let items = vec![
        item(1, "tea", true, 250),
        item(10, "soup", false, 700),
        item(2, "beer", true, 400),
        item(11, "stew", false, 950),
        item(1, "tea", true, 250),
    ];
    let events = Tab::decide(&state, Command::PlaceOrder(Uuid::new_v4(), items));
    assert_eq!(
        events,
        Ok(vec![
            Event::FoodOrdered { items: vec![item(10, "soup", false, 700), item(11, "stew", false, 950)] },
            Event::DrinksOrdered {
                items: vec![item(1, "tea", true, 250), item(2, "beer", true, 400), item(1, "tea", true, 250)],
            },
        ])
    );
}

#[test]
fn decide_leaves_the_state_as_it_was() {
    let state = fold(&sample_history());
    let before = state.clone();
    let _ = Tab::decide(&state, Command::MarkDrinksServed(Uuid::new_v4(), vec![1]));
    let _ = Tab::decide(&state, Command::PlaceOrder(Uuid::new_v4(), vec![item(1, "tea", true, 250)]));
    assert_eq!(state, before);
}

#[test]
fn orders_are_appended_without_deduplication() {
    let mut state = opened();
    Tab::evolve(&mut state, Event::DrinksOrdered { items: vec![item(1, "tea", true, 250)] });
    Tab::evolve(
        &mut state,
        Event::DrinksOrdered { items: vec![item(1, "tea", true, 250), item(2, "beer", true, 400)] },
    );
    Tab::evolve(&mut state, Event::FoodOrdered { items: vec![item(10, "soup", false, 700)] });
    assert_eq!(
        state.outstanding_drinks(),
        &vec![item(1, "tea", true, 250), item(1, "tea", true, 250), item(2, "beer", true, 400)]
    );
    assert_eq!(state.outstanding_food(), &vec![item(10, "soup", false, 700)]);
    assert_eq!(state.served_items_value(), 0);
}

#[test]
fn served_drinks_cannot_be_served_again() {
    let mut state = opened();
    Tab::evolve(
        &mut state,
        Event::DrinksOrdered { items: vec![item(1, "tea", true, 250), item(2, "beer", true, 400)] },
    );
    let decision = Tab::decide(&state, Command::MarkDrinksServed(Uuid::new_v4(), vec![1, 2]));
    assert_eq!(decision, Ok(vec![Event::DrinksServed { menu_numbers: vec![1, 2] }]));
    for event in decision.unwrap() {
        Tab::evolve(&mut state, event);
    }
    assert!(state.outstanding_drinks().is_empty());
    assert_eq!(state.served_items_value(), 650);
    assert_eq!(
        Tab::decide(&state, Command::MarkDrinksServed(Uuid::new_v4(), vec![1, 2])),
        Err(CommandError::DrinksNotOutstanding)
    );
}

#[test]
fn unmatched_serve_is_rejected_and_nothing_changes() {
    let mut state = opened();
    Tab::evolve(&mut state, Event::DrinksOrdered { items: vec![item(1, "tea", true, 250)] });
    let before = state.clone();
    assert_eq!(
        Tab::decide(&state, Command::MarkDrinksServed(Uuid::new_v4(), vec![2])),
        Err(CommandError::DrinksNotOutstanding)
    );
    assert_eq!(state, before);
    assert_eq!(state.outstanding_drinks(), &vec![item(1, "tea", true, 250)]);
}

#[test]
fn partial_match_is_rejected_as_a_whole() {
    let mut state = opened();
    Tab::evolve(
        &mut state,
        Event::FoodOrdered { items: vec![item(10, "soup", false, 700), item(11, "stew", false, 950)] },
    );
    assert_eq!(
        Tab::decide(&state, Command::MarkFoodServed(Uuid::new_v4(), vec![10, 11, 12])),
        Err(CommandError::FoodNotOutstanding)
    );
    assert_eq!(
        Tab::decide(&state, Command::MarkFoodServed(Uuid::new_v4(), vec![12, 10])),
        Err(CommandError::FoodNotOutstanding)
    );
}

#[test]
fn each_request_consumes_an_item_of_its_own() {
    let mut state = opened();
    Tab::evolve(
        &mut state,
        Event::DrinksOrdered { items: vec![item(1, "tea", true, 250), item(1, "tea", true, 250)] },
    );
    assert_eq!(
        Tab::decide(&state, Command::MarkDrinksServed(Uuid::new_v4(), vec![1, 1])),
        Ok(vec![Event::DrinksServed { menu_numbers: vec![1, 1] }])
    );
    assert_eq!(
        Tab::decide(&state, Command::MarkDrinksServed(Uuid::new_v4(), vec![1, 1, 1])),
        Err(CommandError::DrinksNotOutstanding)
    );
}

#[test]
fn serving_nothing_is_accepted() {
    let state = Tab::initial_state();
    assert_eq!(
        Tab::decide(&state, Command::MarkDrinksServed(Uuid::new_v4(), vec![])),
        Ok(vec![Event::DrinksServed { menu_numbers: vec![] }])
    );
    assert_eq!(
        Tab::decide(&state, Command::MarkFoodServed(Uuid::new_v4(), vec![])),
        Ok(vec![Event::FoodServed { menu_numbers: vec![] }])
    );
}

#[test]
fn drinks_and_food_are_matched_apart() {
    let mut state = opened();
    Tab::evolve(&mut state, Event::DrinksOrdered { items: vec![item(5, "wine", true, 600)] });
    assert_eq!(
        Tab::decide(&state, Command::MarkFoodServed(Uuid::new_v4(), vec![5])),
        Err(CommandError::FoodNotOutstanding)
    );
    Tab::evolve(&mut state, Event::FoodServed { menu_numbers: vec![5] });
    assert_eq!(state.outstanding_drinks(), &vec![item(5, "wine", true, 600)]);
    assert_eq!(state.served_items_value(), 0);
}

#[test]
fn serving_takes_the_first_item_with_the_number() {
    let mut state = opened();
    Tab::evolve(
        &mut state,
        Event::DrinksOrdered {
            items: vec![item(2, "beer", true, 400), item(1, "small tea", true, 250), item(1, "large tea", true, 300)],
        },
    );
    Tab::evolve(&mut state, Event::DrinksServed { menu_numbers: vec![1] });
    assert_eq!(state.served_items_value(), 250);
    assert_eq!(
        state.outstanding_drinks(),
        &vec![item(2, "beer", true, 400), item(1, "large tea", true, 300)]
    );
}

#[test]
fn unmatched_served_number_is_passed_over() {
    let mut state = opened();
    Tab::evolve(&mut state, Event::FoodOrdered { items: vec![item(10, "soup", false, 700)] });
    Tab::evolve(&mut state, Event::FoodServed { menu_numbers: vec![11, 10, 10] });
    assert!(state.outstanding_food().is_empty());
    assert_eq!(state.served_items_value(), 700);
}

#[test]
fn serving_adds_exactly_the_price() {
    let mut state = opened();
    Tab::evolve(&mut state, Event::FoodOrdered { items: vec![item(10, "soup", false, 700)] });
    Tab::evolve(&mut state, Event::FoodServed { menu_numbers: vec![10] });
    assert_eq!(state.served_items_value(), 700);
    Tab::evolve(&mut state, Event::DrinksOrdered { items: vec![item(1, "tea", true, 250)] });
    Tab::evolve(&mut state, Event::DrinksServed { menu_numbers: vec![1] });
    assert_eq!(state.served_items_value(), 950);
}

#[test]
fn served_value_does_not_depend_on_the_serve_order() {
    let ordered = Event::DrinksOrdered {
        items: vec![item(1, "tea", true, 250), item(2, "beer", true, 400), item(3, "wine", true, 600)],
    };
    let orders: Vec<Vec<i32>> =
        vec![vec![1, 2, 3], vec![1, 3, 2], vec![2, 1, 3], vec![2, 3, 1], vec![3, 1, 2], vec![3, 2, 1]];
    for menu_numbers in orders {
        let mut state = opened();
        Tab::evolve(&mut state, ordered.clone());
        Tab::evolve(&mut state, Event::DrinksServed { menu_numbers });
        assert_eq!(state.served_items_value(), 1250);
        assert!(state.outstanding_drinks().is_empty());
    }
}

#[test]
fn served_value_stays_at_the_limit() {
    let mut state = opened();
    Tab::evolve(
        &mut state,
        Event::FoodOrdered { items: vec![item(10, "feast", false, u64::MAX - 1), item(11, "soup", false, 700)] },
    );
    Tab::evolve(&mut state, Event::FoodServed { menu_numbers: vec![10] });
    assert_eq!(state.served_items_value(), u64::MAX - 1);
    Tab::evolve(&mut state, Event::FoodServed { menu_numbers: vec![11] });
    assert_eq!(state.served_items_value(), u64::MAX);
    assert!(state.outstanding_food().is_empty());
}

#[test]
fn folding_a_history_twice_gives_the_same_state() {
    let history = sample_history();
    let first = fold(&history);
    let second = fold(&history);
    assert_eq!(first, second);
    assert!(first.tab_open());
    assert_eq!(first.outstanding_drinks(), &vec![item(1, "tea", true, 250)]);
    assert!(first.outstanding_food().is_empty());
    assert_eq!(first.served_items_value(), 1100);
}

#[test]
fn replay_is_the_fold_of_the_history() {
    let history = sample_history();
    assert_eq!(Tab::replay(history.clone()), fold(&history));
    assert_eq!(Tab::replay(vec![]), Tab::initial_state());
}

#[test]
fn decisions_on_a_replayed_state_are_those_on_the_live_state() {
    let history = sample_history();
    let live = fold(&history);
    let replayed = Tab::replay(history);
    let id = Uuid::new_v4();
    assert_eq!(
        Tab::decide(&live, Command::MarkDrinksServed(id, vec![1])),
        Tab::decide(&replayed, Command::MarkDrinksServed(id, vec![1]))
    );
    assert_eq!(
        Tab::decide(&replayed, Command::MarkDrinksServed(id, vec![2])),
        Err(CommandError::DrinksNotOutstanding)
    );
}

#[test]
fn event_store_keeps_events_in_the_order_appended() {
    let mut store: EventStore<Event> = EventStore::new();
    assert!(store.events().is_empty());
    let history = sample_history();
    store.append(history[..2].to_vec());
    store.append(vec![]);
    store.append(history[2..].to_vec());
    assert_eq!(store.events(), &history);
    assert_eq!(Tab::replay(store.events().clone()), fold(&history));
}

#[test]
fn command_cycle_through_the_store() {
    let id = Uuid::new_v4();
    let mut store: EventStore<Event> = EventStore::new();
    let commands = vec![
        Command::OpenTab(id, 4, "Ada".to_string()),
        Command::PlaceOrder(id, vec![item(10, "soup", false, 700), item(1, "tea", true, 250)]),
        Command::MarkFoodServed(id, vec![10]),
    ];
    for command in commands {
        let state = Tab::replay(store.events().clone());
        let events = Tab::decide(&state, command).unwrap();
        store.append(events);
    }
    assert_eq!(
        store.events(),
        &vec![
            Event::TabOpened { table_number: 4, waiter: "Ada".to_string() },
            Event::FoodOrdered { items: vec![item(10, "soup", false, 700)] },
            Event::DrinksOrdered { items: vec![item(1, "tea", true, 250)] },
            Event::FoodServed { menu_numbers: vec![10] },
        ]
    );
    let state = Tab::replay(store.events().clone());
    assert_eq!(state.served_items_value(), 700);
    assert_eq!(state.outstanding_drinks(), &vec![item(1, "tea", true, 250)]);
}

#[test]
fn cloned_command_keeps_its_identifier() {
    let id = Uuid::new_v4();
    let other = Uuid::new_v4();
    let command = Command::MarkFoodServed(id, vec![10, 11]);
    let copy = command.clone();
    assert_eq!(copy, Command::MarkFoodServed(id, vec![10, 11]));
    assert_ne!(copy, Command::MarkFoodServed(other, vec![10, 11]));
}

#[test]
fn decisions_do_not_depend_on_the_identifier() {
    let state = fold(&sample_history());
    let first = Tab::decide(&state, Command::MarkDrinksServed(Uuid::new_v4(), vec![1]));
    let second = Tab::decide(&state, Command::MarkDrinksServed(Uuid::new_v4(), vec![1]));
    assert_eq!(first, second);
    assert_eq!(first, Ok(vec![Event::DrinksServed { menu_numbers: vec![1] }]));
}
