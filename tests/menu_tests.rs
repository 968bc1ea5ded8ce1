use bet_architecture::menu::{menu_items, next_item, prev_item, Key, KeyPress, MenuItem, MenuState, Mode};

#[test]
fn empty_search_lists_every_entry_in_order() {
    assert_eq!(
        menu_items(""),
        vec![
            MenuItem::TradingSystem,
            MenuItem::StormTopologies,
            MenuItem::MonadLambda,
            MenuItem::ADAG,
            MenuItem::SwinTransformer,
            MenuItem::ElixirCheck,
            MenuItem::Quit,
        ]
    );
}

#[test]
fn search_ignores_case() {
    assert_eq!(menu_items("STORM"), vec![MenuItem::StormTopologies]);
    assert_eq!(menu_items("dag"), vec![MenuItem::ADAG]);
    assert_eq!(
        menu_items("s"),
        vec![
            MenuItem::TradingSystem,
            MenuItem::StormTopologies,
            MenuItem::SwinTransformer,
        ]
    );
    assert_eq!(menu_items("zzz"), Vec::<MenuItem>::new());
}

#[test]
fn names_follow_the_declaration() {
    assert_eq!(MenuItem::ADAG.name(), "ADAG");
    assert_eq!(MenuItem::ElixirCheck.name(), format!("{:?}", MenuItem::ElixirCheck));
}

#[test]
fn selection_wraps_both_ways() {
    let items = menu_items("");
    assert_eq!(next_item(&items, MenuItem::TradingSystem), MenuItem::StormTopologies);
    assert_eq!(next_item(&items, MenuItem::Quit), MenuItem::TradingSystem);
    assert_eq!(prev_item(&items, MenuItem::TradingSystem), MenuItem::Quit);
    assert_eq!(prev_item(&items, MenuItem::ADAG), MenuItem::MonadLambda);
}

#[test]
fn selection_outside_the_list_stays() {
    let items = menu_items("storm");
    assert_eq!(next_item(&items, MenuItem::Quit), MenuItem::Quit);
    assert_eq!(prev_item(&items, MenuItem::Quit), MenuItem::Quit);
    assert_eq!(next_item(&items, MenuItem::StormTopologies), MenuItem::StormTopologies);
}

fn press(key: Key) -> KeyPress {
    KeyPress { key, control: false }
}

#[test]
fn normal_mode_moves_and_quits() {
    let mut state = MenuState::new();
    assert!(!state.handle_key(press(Key::Char('j'))));
    assert_eq!(state.selected, MenuItem::StormTopologies);
    assert!(!state.handle_key(press(Key::Down)));
    assert_eq!(state.selected, MenuItem::MonadLambda);
    assert!(!state.handle_key(press(Key::Up)));
    assert!(!state.handle_key(press(Key::Char('k'))));
    assert!(!state.handle_key(press(Key::Char('k'))));
    assert_eq!(state.selected, MenuItem::Quit);
    assert!(!state.handle_key(press(Key::Char('c'))));
    assert!(state.handle_key(KeyPress { key: Key::Char('c'), control: true }));
    assert!(state.handle_key(press(Key::Char('q'))));
    assert_eq!(state.mode, Mode::Normal);
}

#[test]
fn command_mode_returns_or_quits() {
    let mut state = MenuState::new();
    assert!(!state.handle_key(press(Key::Char(':'))));
    assert_eq!(state.mode, Mode::Command);
    assert!(!state.handle_key(press(Key::Char('j'))));
    assert_eq!(state.selected, MenuItem::TradingSystem);
    assert!(!state.handle_key(press(Key::Esc)));
    assert_eq!(state.mode, Mode::Normal);
    state.handle_key(press(Key::Char(':')));
    assert!(state.handle_key(press(Key::Char('q'))));
}

#[test]
fn search_mode_edits_the_query() {
    let mut state = MenuState::new();
    state.handle_key(press(Key::Char('/')));
    assert_eq!(state.mode, Mode::Insert);
    for c in "elq".chars() {
        assert!(!state.handle_key(press(Key::Char(c))));
    }
    assert_eq!(state.search_query, "elq");
    state.handle_key(press(Key::Backspace));
    assert_eq!(state.search_query, "el");
    state.handle_key(press(Key::Enter));
    assert_eq!(state.mode, Mode::Normal);
    assert_eq!(state.items(), vec![MenuItem::ElixirCheck]);
    state.handle_key(press(Key::Char('j')));
    assert_eq!(state.selected, MenuItem::TradingSystem);
    state.handle_key(press(Key::Char('/')));
    assert_eq!(state.search_query, "");
    state.handle_key(press(Key::Char('x')));
    state.handle_key(press(Key::Esc));
    assert_eq!(state.search_query, "");
    assert_eq!(state.mode, Mode::Normal);
}

#[test]
fn backspace_on_empty_search_keeps_it_empty() {
    let mut state = MenuState::new();
    state.handle_key(press(Key::Char('/')));
    state.handle_key(press(Key::Backspace));
    assert_eq!(state.search_query, "");
    assert_eq!(state.mode, Mode::Insert);
}

#[test]
fn labels_and_indicators() {
    assert_eq!(MenuItem::Quit.label(), "Quit");
    assert_eq!(MenuItem::ADAG.label(), "A-DAG (OCTOTREÉ, Topological Sort, Critical Path)");
    assert_eq!(Mode::Insert.indicator(), "-- INSERT (SEARCH) --");
    assert_eq!(Mode::Normal.indicator(), "-- NORMAL --");
}
