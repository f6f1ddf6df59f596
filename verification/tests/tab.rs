use tab_aggregate::cqrs::Aggregate;
use tab_aggregate::domain::{Command, CommandError, Event, OrderedItem, Tab};
use uuid::Uuid;

#[test]
fn can_open_a_new_tab() {
    let state = Tab::initial_state();
    let command = Command::OpenTab(Uuid::new_v4(), 42, "Derek".to_string());
    let events = Tab::decide(&state, command);
    assert_eq!(events, Ok(vec![Event::TabOpened { table_number: 42, waiter: "Derek".to_string() }]));
}

#[test]
fn can_not_order_with_unopened_tab() {
    let state = Tab::initial_state();
    let command = Command::PlaceOrder(
        Uuid::new_v4(),
        vec![OrderedItem { menu_number: 0, description: String::new(), is_drink: true, price: 0 }],
    );
    let events = Tab::decide(&state, command);
    assert_eq!(events, Err(CommandError::TabNotOpen));
}

#[test]
fn can_place_drinks_order() {
    let mut state = Tab::initial_state();
    Tab::evolve(&mut state, Event::TabOpened { table_number: 42, waiter: String::from("Derek") });
    let drink1 = OrderedItem { menu_number: 0, description: String::from(""), is_drink: true, price: 0 };
    let drink2 = OrderedItem { menu_number: 0, description: String::from(""), is_drink: true, price: 0 };
    let command = Command::PlaceOrder(Uuid::new_v4(), vec![drink1.clone(), drink2.clone()]);
    let events = Tab::decide(&state, command);
    assert_eq!(events, Ok(vec![Event::DrinksOrdered { items: vec![drink1, drink2] }]));
}

#[test]
fn can_place_food_order() {
    let mut state = Tab::initial_state();
    Tab::evolve(&mut state, Event::TabOpened { table_number: 42, waiter: String::from("Derek") });
    let food1 = OrderedItem { menu_number: 0, description: String::from(""), is_drink: false, price: 0 };
    let food2 = OrderedItem { menu_number: 0, description: String::from(""), is_drink: false, price: 0 };
    let command = Command::PlaceOrder(Uuid::new_v4(), vec![food1.clone(), food2.clone()]);
    let events = Tab::decide(&state, command);
    assert_eq!(events, Ok(vec![Event::FoodOrdered { items: vec![food1, food2] }]));
}

#[test]
fn can_place_food_and_drink_order() {
    let mut state = Tab::initial_state();
    Tab::evolve(&mut state, Event::TabOpened { table_number: 42, waiter: String::from("Derek") });
    let food = OrderedItem { menu_number: 0, description: String::from(""), is_drink: false, price: 0 };
    let drink = OrderedItem { menu_number: 0, description: String::from(""), is_drink: true, price: 0 };
    let command = Command::PlaceOrder(Uuid::new_v4(), vec![food.clone(), drink.clone()]);
    let events = Tab::decide(&state, command);
    assert_eq!(
        events,
        Ok(vec![Event::FoodOrdered { items: vec![food] }, Event::DrinksOrdered { items: vec![drink] }])
    );
}

#[test]
fn ordered_drinks_can_be_served() {
    let mut state = Tab::initial_state();
    Tab::evolve(&mut state, Event::TabOpened { table_number: 42, waiter: "Derek".to_string() });
    let drink1 = OrderedItem { menu_number: 1, description: "".to_string(), is_drink: true, price: 0 };
    let drink2 = OrderedItem { menu_number: 2, description: "".to_string(), is_drink: true, price: 0 };
    Tab::evolve(&mut state, Event::DrinksOrdered { items: vec![drink1.clone(), drink2.clone()] });
    let command = Command::MarkDrinksServed(Uuid::new_v4(), vec![drink1.menu_number, drink2.menu_number]);
    let events = Tab::decide(&state, command);
    assert_eq!(
        events,
        Ok(vec![Event::DrinksServed { menu_numbers: vec![drink1.menu_number, drink2.menu_number] }])
    );
}

#[test]
fn can_not_serve_an_unordered_drink() {
    let mut state = Tab::initial_state();
    Tab::evolve(&mut state, Event::TabOpened { table_number: 42, waiter: "Derek".to_string() });
    let drink1 = OrderedItem { menu_number: 1, description: "".to_string(), is_drink: true, price: 0 };
    let drink2 = OrderedItem { menu_number: 2, description: "".to_string(), is_drink: true, price: 0 };
    Tab::evolve(&mut state, Event::DrinksOrdered { items: vec![drink1.clone()] });
    let command = Command::MarkDrinksServed(Uuid::new_v4(), vec![drink2.menu_number]);
    let events = Tab::decide(&state, command);
    assert_eq!(events, Err(CommandError::DrinksNotOutstanding));
}

#[test]
fn can_not_serve_an_ordered_drink_twice() {
    let mut state = Tab::initial_state();
    Tab::evolve(&mut state, Event::TabOpened { table_number: 42, waiter: "Derek".to_string() });
    let drink = OrderedItem { menu_number: 1, description: "".to_string(), is_drink: true, price: 0 };
    Tab::evolve(&mut state, Event::DrinksOrdered { items: vec![drink.clone()] });
    Tab::evolve(&mut state, Event::DrinksServed { menu_numbers: vec![drink.menu_number] });
    let command = Command::MarkDrinksServed(Uuid::new_v4(), vec![drink.menu_number]);
    let events = Tab::decide(&state, command);
    assert_eq!(events, Err(CommandError::DrinksNotOutstanding));
}

#[test]
fn ordered_food_can_be_served() {
    let mut state = Tab::initial_state();
    Tab::evolve(&mut state, Event::TabOpened { table_number: 42, waiter: "Derek".to_string() });
    let food1 = OrderedItem { menu_number: 1, description: "".to_string(), is_drink: false, price: 0 };
    let food2 = OrderedItem { menu_number: 2, description: "".to_string(), is_drink: false, price: 0 };
    Tab::evolve(&mut state, Event::FoodOrdered { items: vec![food1.clone(), food2.clone()] });
    let command = Command::MarkFoodServed(Uuid::new_v4(), vec![food1.menu_number, food2.menu_number]);
    let events = Tab::decide(&state, command);
    assert_eq!(
        events,
        Ok(vec![Event::FoodServed { menu_numbers: vec![food1.menu_number, food2.menu_number] }])
    );
}

#[test]
fn can_not_serve_an_unordered_food() {
    let mut state = Tab::initial_state();
    Tab::evolve(&mut state, Event::TabOpened { table_number: 42, waiter: "Derek".to_string() });
    let food1 = OrderedItem { menu_number: 1, description: "".to_string(), is_drink: false, price: 0 };
    let food2 = OrderedItem { menu_number: 2, description: "".to_string(), is_drink: false, price: 0 };
    Tab::evolve(&mut state, Event::FoodOrdered { items: vec![food1.clone()] });
    let command = Command::MarkFoodServed(Uuid::new_v4(), vec![food2.menu_number]);
    let events = Tab::decide(&state, command);
    assert_eq!(events, Err(CommandError::FoodNotOutstanding));
}

#[test]
fn can_not_serve_an_ordered_food_twice() {
    let mut state = Tab::initial_state();
    Tab::evolve(&mut state, Event::TabOpened { table_number: 42, waiter: "Derek".to_string() });
    let food = OrderedItem { menu_number: 1, description: "".to_string(), is_drink: false, price: 0 };
    Tab::evolve(&mut state, Event::FoodOrdered { items: vec![food.clone()] });
    Tab::evolve(&mut state, Event::FoodServed { menu_numbers: vec![food.menu_number] });
    let command = Command::MarkFoodServed(Uuid::new_v4(), vec![food.menu_number]);
    let events = Tab::decide(&state, command);
    assert_eq!(events, Err(CommandError::FoodNotOutstanding));
}
