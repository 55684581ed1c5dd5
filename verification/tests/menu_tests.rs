use menu_shell::event::{Event, Key};
use menu_shell::menu::App;

#[test]
fn new_app_starts_on_first_row() {
    let app = App::new();
    assert_eq!(app.menu_items, vec!["Install", "Update", "Authors", "Exit"]);
    assert_eq!(app.selected_menu, Some(0));
}

#[test]
fn four_downs_cycle_through_all_rows() {
    let mut app = App::new();
    let mut seen: Vec<Option<usize>> = Vec::new();
    for _ in 0..4 {
        let quit = app.handle_event(Event::Input(Key::Down));
        assert!(!quit);
        seen.push(app.selected_menu);
    }
    assert_eq!(seen, vec![Some(1), Some(2), Some(3), Some(0)]);
}

#[test]
fn up_from_first_row_wraps_to_last() {
    let mut app = App::new();
    let quit = app.handle_event(Event::Input(Key::Up));
    assert!(!quit);
    assert_eq!(app.selected_menu, Some(3));
}

#[test]
fn down_from_last_row_wraps_to_first() {
    let mut app = App::new();
    app.selected_menu = Some(3);
    app.handle_event(Event::Input(Key::Down));
    assert_eq!(app.selected_menu, Some(0));
}

#[test]
fn down_up_up_from_third_row() {
    let mut app = App::new();
    app.selected_menu = Some(2);
    let mut seen: Vec<Option<usize>> = Vec::new();
    for ev in [
        Event::Input(Key::Down),
        Event::Input(Key::Up),
        Event::Input(Key::Up),
    ] {
        let quit = app.handle_event(ev);
        assert!(!quit);
        seen.push(app.selected_menu);
    }
    assert_eq!(seen, vec![Some(3), Some(2), Some(1)]);
}

#[test]
fn arrows_from_no_selection_land_on_first_row() {
    let mut app = App::new();
    app.selected_menu = None;
    app.handle_event(Event::Input(Key::Down));
    assert_eq!(app.selected_menu, Some(0));

    app.selected_menu = None;
    app.handle_event(Event::Input(Key::Up));
    assert_eq!(app.selected_menu, Some(0));
}

#[test]
fn tick_and_other_keys_leave_selection_unchanged() {
    let mut app = App::new();
    app.selected_menu = Some(2);
    for ev in [
        Event::Tick,
        Event::Input(Key::Char('x')),
        Event::Input(Key::Char('Q')),
        Event::Input(Key::Other),
    ] {
        let quit = app.handle_event(ev);
        assert!(!quit);
        assert_eq!(app.selected_menu, Some(2));
    }
}

#[test]
fn quit_key_quits_from_every_state() {
    for start in [None, Some(0), Some(1), Some(2), Some(3)] {
        let mut app = App::new();
        app.selected_menu = start;
        let quit = app.handle_event(Event::Input(Key::Char('q')));
        assert!(quit);
        assert_eq!(app.selected_menu, start);
    }
}

#[test]
fn loop_stops_at_first_quit_key_and_redraws_once_per_event() {
    let mut app = App::new();
    let events = vec![
        Event::Input(Key::Down),
        Event::Tick,
        Event::Input(Key::Down),
        Event::Input(Key::Char('q')),
        Event::Input(Key::Down),
        Event::Input(Key::Up),
    ];
    let out = app.run_events(&events);
    assert_eq!(out.consumed, 4);
    assert_eq!(out.redraws, 4);
    assert!(out.quit);
    assert_eq!(app.selected_menu, Some(2));
}

#[test]
fn loop_without_quit_key_consumes_whole_script() {
    let mut app = App::new();
    let events = vec![
        Event::Tick,
        Event::Input(Key::Up),
        Event::Input(Key::Char('a')),
        Event::Tick,
    ];
    let out = app.run_events(&events);
    assert_eq!(out.consumed, 4);
    assert_eq!(out.redraws, 4);
    assert!(!out.quit);
    assert_eq!(app.selected_menu, Some(3));
}

#[test]
fn loop_on_empty_script_redraws_nothing() {
    let mut app = App::new();
    let events: Vec<Event> = Vec::new();
    let out = app.run_events(&events);
    assert_eq!(out.consumed, 0);
    assert_eq!(out.redraws, 0);
    assert!(!out.quit);
    assert_eq!(app.selected_menu, Some(0));
}

#[test]
fn ticks_alone_keep_redrawing() {
    let mut app = App::new();
    let events = vec![Event::Tick, Event::Tick, Event::Tick];
    let out = app.run_events(&events);
    assert_eq!(out.consumed, 3);
    assert_eq!(out.redraws, 3);
    assert!(!out.quit);
    assert_eq!(app.selected_menu, Some(0));
}
