use receipt_split::input_handlers::{
    add_person_input_handler, handle_event, items_input_handler, owner_selector_input_handler,
    people_input_handler, rest_owner_selector_input_handler, Event, Key,
};
use receipt_split::ledger::{Data, Item, Owner, FULL_SHARE};
use receipt_split::state::{owner_to_string, AppState, FocusedWindow};

fn key(k: Key) -> Event {
    Event::Input(k)
}

fn ch(c: char) -> Event {
    Event::Input(Key::Char(c))
}

fn item(description: &str, price: u64) -> Item {
    Item { description: description.to_string(), quantity: 1, price, owners: Vec::new() }
}

fn session(items: Vec<Item>, people: &[&str]) -> AppState {
    AppState::with_data(Data { items, people: people.iter().map(|p| p.to_string()).collect() })
}

fn items_index(app: &AppState) -> usize {
    match app.focused {
        FocusedWindow::Items(i) => i,
        _ => panic!("not browsing items"),
    }
}

#[test]
fn default_session_has_two_items_and_one_person() {
    let app = AppState::default();
    assert!(matches!(app.focused, FocusedWindow::Items(0)));
    assert_eq!(app.data.items.len(), 2);
    assert_eq!(app.data.items[0].price, 248);
    assert_eq!(app.data.items[1].price, 124);
    assert_eq!(app.data.people, vec!["jojo".to_string()]);
}

#[test]
fn item_navigation_stays_in_bounds() {
    let mut app = session(vec![item("a", 1), item("b", 2), item("c", 3)], &["Alice"]);
    for _ in 0..5 {
        assert!(!items_input_handler(&key(Key::Down), &mut app));
    }
    assert_eq!(items_index(&app), 2);
    items_input_handler(&ch('k'), &mut app);
    assert_eq!(items_index(&app), 1);
    for _ in 0..5 {
        items_input_handler(&key(Key::Up), &mut app);
    }
    assert_eq!(items_index(&app), 0);
    items_input_handler(&ch('j'), &mut app);
    assert_eq!(items_index(&app), 1);
}

#[test]
fn navigation_over_no_items_is_a_no_op() {
    let mut app = session(Vec::new(), &["Alice"]);
    for e in [key(Key::Down), key(Key::Up), ch('j'), ch('k')] {
        assert!(!handle_event(&e, &mut app));
        assert_eq!(items_index(&app), 0);
    }
}

#[test]
fn people_navigation_stays_in_bounds() {
    let mut app = session(vec![item("a", 1)], &["Alice", "Bob"]);
    app.focused = FocusedWindow::People(0);
    for _ in 0..3 {
        people_input_handler(&key(Key::Down), &mut app);
    }
    assert!(matches!(app.focused, FocusedWindow::People(1)));
    for _ in 0..3 {
        people_input_handler(&key(Key::Up), &mut app);
    }
    assert!(matches!(app.focused, FocusedWindow::People(0)));
    assert!(people_input_handler(&ch('Q'), &mut app));
}

#[test]
fn cursor_over_no_people_is_a_no_op() {
    let mut app = session(vec![item("a", 1)], &[]);
    app.focused = FocusedWindow::RestOwnerSelector(0);
    rest_owner_selector_input_handler(&ch('J'), &mut app);
    rest_owner_selector_input_handler(&key(Key::Up), &mut app);
    assert!(matches!(app.focused, FocusedWindow::RestOwnerSelector(0)));
    rest_owner_selector_input_handler(&key(Key::Enter), &mut app);
    assert!(matches!(app.focused, FocusedWindow::Items(0)));
    assert!(app.data.items[0].owners.is_empty());
}

#[test]
fn quit_keys_end_the_session() {
    let mut app = session(vec![item("a", 1)], &["Alice"]);
    assert!(items_input_handler(&ch('q'), &mut app));
    assert!(matches!(app.focused, FocusedWindow::Items(0)));
    assert!(handle_event(&ch('Q'), &mut app));
}

#[test]
fn tick_changes_nothing() {
    let mut app = session(vec![item("a", 1)], &["Alice"]);
    assert!(!handle_event(&Event::Tick, &mut app));
    assert!(matches!(app.focused, FocusedWindow::Items(0)));
}

#[test]
fn handlers_ignore_other_modes() {
    let mut app = session(vec![item("a", 1)], &["Alice"]);
    assert!(!people_input_handler(&ch('q'), &mut app));
    assert!(!owner_selector_input_handler(&key(Key::Enter), &mut app));
    assert!(!add_person_input_handler(&ch('x'), &mut app));
    assert!(matches!(app.focused, FocusedWindow::Items(0)));
    assert!(app.data.items[0].owners.is_empty());
    assert_eq!(app.data.people.len(), 1);
}

#[test]
fn pick_alice_then_enter_makes_her_sole_owner() {
    let mut app = session(vec![item("Bread", 248)], &["Alice"]);
    handle_event(&key(Key::Enter), &mut app);
    assert!(matches!(app.focused, FocusedWindow::OwnerSelector(0, 0, _)));
    handle_event(&ch('p'), &mut app);
    handle_event(&key(Key::Enter), &mut app);
    assert!(matches!(app.focused, FocusedWindow::Items(0)));
    assert_eq!(app.data.items[0].owners, vec![Owner { person: 0, percentage: FULL_SHARE }]);
    assert_eq!(owner_to_string(&app.data.items[0].owners[0], &app), "Alice");
    let totals = app.data.compute_total().unwrap();
    assert_eq!(totals[0], 248 * FULL_SHARE as u128);
}

#[test]
fn two_people_split_an_item_in_halves() {
    let mut app = session(vec![item("a", 100), item("Bread", 248)], &["Alice", "Bob"]);
    handle_event(&key(Key::Down), &mut app);
    handle_event(&key(Key::Enter), &mut app);
    handle_event(&ch('P'), &mut app);
    handle_event(&ch('j'), &mut app);
    handle_event(&key(Key::Enter), &mut app);
    assert!(matches!(app.focused, FocusedWindow::Items(1)));
    assert_eq!(
        app.data.items[1].owners,
        vec![Owner { person: 0, percentage: FULL_SHARE / 2 }, Owner { person: 1, percentage: FULL_SHARE / 2 }]
    );
    let totals = app.data.compute_total().unwrap();
    assert_eq!(totals, vec![124 * FULL_SHARE as u128, 124 * FULL_SHARE as u128]);
}

#[test]
fn enter_alone_picks_the_person_under_the_cursor() {
    let mut app = session(vec![item("a", 100)], &["Alice", "Bob"]);
    handle_event(&key(Key::Enter), &mut app);
    handle_event(&key(Key::Down), &mut app);
    handle_event(&key(Key::Enter), &mut app);
    assert_eq!(app.data.items[0].owners, vec![Owner { person: 1, percentage: FULL_SHARE }]);
}

#[test]
fn repeated_adjacent_picks_merge() {
    let mut app = session(vec![item("a", 100)], &["Alice", "Bob"]);
    handle_event(&key(Key::Enter), &mut app);
    handle_event(&ch('p'), &mut app);
    handle_event(&ch('p'), &mut app);
    handle_event(&key(Key::Down), &mut app);
    handle_event(&key(Key::Enter), &mut app);
    assert_eq!(
        app.data.items[0].owners,
        vec![Owner { person: 0, percentage: 2 * (FULL_SHARE / 3) }, Owner { person: 1, percentage: FULL_SHARE / 3 }]
    );
}

#[test]
fn picks_of_one_person_apart_stay_apart() {
    let mut app = session(vec![item("a", 100)], &["Alice", "Bob"]);
    handle_event(&key(Key::Enter), &mut app);
    handle_event(&ch('p'), &mut app);
    handle_event(&key(Key::Down), &mut app);
    handle_event(&ch('p'), &mut app);
    handle_event(&key(Key::Up), &mut app);
    handle_event(&key(Key::Enter), &mut app);
    assert_eq!(
        app.data.items[0].owners,
        vec![
            Owner { person: 0, percentage: FULL_SHARE / 3 },
            Owner { person: 1, percentage: FULL_SHARE / 3 },
            Owner { person: 0, percentage: FULL_SHARE / 3 },
        ]
    );
}

#[test]
fn esc_discards_picks() {
    let mut app = session(vec![item("a", 100), item("b", 5)], &["Alice"]);
    handle_event(&key(Key::Down), &mut app);
    handle_event(&key(Key::Enter), &mut app);
    handle_event(&ch('p'), &mut app);
    handle_event(&key(Key::Esc), &mut app);
    assert!(matches!(app.focused, FocusedWindow::Items(1)));
    assert!(app.data.items[1].owners.is_empty());
}

#[test]
fn enter_without_people_commits_nothing() {
    let mut app = session(vec![item("a", 100)], &[]);
    handle_event(&key(Key::Enter), &mut app);
    handle_event(&ch('p'), &mut app);
    assert!(matches!(&app.focused, FocusedWindow::OwnerSelector(0, 0, picked) if picked.is_empty()));
    handle_event(&key(Key::Enter), &mut app);
    assert!(matches!(app.focused, FocusedWindow::Items(0)));
    assert!(app.data.items[0].owners.is_empty());
}

#[test]
fn rest_owner_gives_unowned_items_to_the_chosen_person() {
    let mut app = session(vec![item("a", 100), item("b", 5), item("c", 7)], &["Alice", "Bob"]);
    handle_event(&key(Key::Down), &mut app);
    handle_event(&key(Key::Enter), &mut app);
    handle_event(&key(Key::Enter), &mut app);
    handle_event(&ch('r'), &mut app);
    assert!(matches!(app.focused, FocusedWindow::RestOwnerSelector(0)));
    handle_event(&ch('j'), &mut app);
    handle_event(&key(Key::Enter), &mut app);
    assert!(matches!(app.focused, FocusedWindow::Items(0)));
    assert_eq!(app.data.items[0].owners, vec![Owner { person: 1, percentage: FULL_SHARE }]);
    assert_eq!(app.data.items[1].owners, vec![Owner { person: 0, percentage: FULL_SHARE }]);
    assert_eq!(app.data.items[2].owners, vec![Owner { person: 1, percentage: FULL_SHARE }]);
}

#[test]
fn rest_owner_esc_changes_nothing() {
    let mut app = session(vec![item("a", 100), item("b", 5)], &["Alice"]);
    handle_event(&key(Key::Down), &mut app);
    handle_event(&ch('R'), &mut app);
    handle_event(&key(Key::Esc), &mut app);
    assert!(matches!(app.focused, FocusedWindow::Items(0)));
    assert!(app.data.items[0].owners.is_empty());
    assert!(app.data.items[1].owners.is_empty());
}

#[test]
fn r_without_items_stays_on_items() {
    let mut app = session(Vec::new(), &["Alice"]);
    assert!(!handle_event(&ch('r'), &mut app));
    assert!(matches!(app.focused, FocusedWindow::Items(0)));
    handle_event(&key(Key::Enter), &mut app);
    assert!(matches!(app.focused, FocusedWindow::Items(0)));
}

#[test]
fn add_person_with_empty_name() {
    let mut app = session(vec![item("a", 1), item("b", 2)], &["Alice"]);
    handle_event(&key(Key::Down), &mut app);
    handle_event(&ch('a'), &mut app);
    assert!(matches!(&app.focused, FocusedWindow::AddPerson(name) if name.is_empty()));
    handle_event(&key(Key::Enter), &mut app);
    assert_eq!(app.data.people, vec!["Alice".to_string(), String::new()]);
    assert!(matches!(app.focused, FocusedWindow::Items(0)));
}

#[test]
fn typing_and_backspace_edit_the_name() {
    let mut app = session(vec![item("a", 1)], &["Alice"]);
    handle_event(&ch('A'), &mut app);
    for c in ['B', 'q', 'é', 'x'] {
        assert!(!handle_event(&ch(c), &mut app));
    }
    handle_event(&key(Key::Backspace), &mut app);
    assert!(matches!(&app.focused, FocusedWindow::AddPerson(name) if name == "Bqé"));
    handle_event(&key(Key::Backspace), &mut app);
    assert!(matches!(&app.focused, FocusedWindow::AddPerson(name) if name == "Bq"));
    handle_event(&key(Key::Up), &mut app);
    handle_event(&key(Key::Enter), &mut app);
    assert_eq!(app.data.people[1], "Bq");
}

#[test]
fn backspace_on_empty_name_keeps_it_empty() {
    let mut app = session(vec![item("a", 1)], &["Alice"]);
    handle_event(&ch('a'), &mut app);
    handle_event(&key(Key::Backspace), &mut app);
    assert!(matches!(&app.focused, FocusedWindow::AddPerson(name) if name.is_empty()));
    handle_event(&key(Key::Esc), &mut app);
    assert!(matches!(app.focused, FocusedWindow::Items(0)));
    assert_eq!(app.data.people.len(), 1);
}
