use systemctui::app::{App, Phase};
use systemctui::directory::{Action, DirectoryError, Listing};
use systemctui::handler::{
    classify, handle_action_done, handle_event, handle_key_events, handle_listed, Command,
    Effect, Event, KeyCode, KeyEvent, ALT, CONTROL, NONE, SHIFT,
};
use systemctui::service::{AutoStartStatus, ServiceRecord};

fn unit(name: &str) -> ServiceRecord {
    ServiceRecord {
        name: name.to_string(),
        active: false,
        auto_start: AutoStartStatus::Disabled,
        description: None,
    }
}

fn listing(names: &[&str]) -> Listing {
    let mut units = Vec::new();
    for name in names {
        units.push(Ok(unit(name)));
    }
    Ok(units)
}

fn app_with(names: &[&str]) -> App {
    App::new(listing(names))
}

fn names(app: &App) -> Vec<String> {
    let mut out = Vec::new();
    for record in app.services() {
        out.push(record.name.clone());
    }
    out
}

fn press(app: &mut App, c: char) -> Effect {
    handle_key_events(KeyEvent::new(KeyCode::Char(c), NONE), app)
}

fn snapshot(app: &App) -> (bool, Phase, Vec<ServiceRecord>, Option<usize>) {
    (app.running(), app.phase(), app.services().clone(), app.selected())
}

#[test]
fn keys_stand_for_commands() {
    let key = |code| KeyEvent::new(code, NONE);
    assert_eq!(classify(&key(KeyCode::Esc)), Command::Quit);
    assert_eq!(classify(&key(KeyCode::Char('q'))), Command::Quit);
    assert_eq!(classify(&key(KeyCode::Char('j'))), Command::MoveDown);
    assert_eq!(classify(&key(KeyCode::Down)), Command::MoveDown);
    assert_eq!(classify(&key(KeyCode::Char('k'))), Command::MoveUp);
    assert_eq!(classify(&key(KeyCode::Up)), Command::MoveUp);
    assert_eq!(classify(&key(KeyCode::Char('s'))), Command::Act(Action::Start));
    assert_eq!(classify(&key(KeyCode::Char('p'))), Command::Act(Action::Stop));
    assert_eq!(classify(&key(KeyCode::Char('r'))), Command::Act(Action::Restart));
    assert_eq!(classify(&key(KeyCode::Char('e'))), Command::Act(Action::Enable));
    assert_eq!(classify(&key(KeyCode::Char('d'))), Command::Act(Action::Disable));
    assert_eq!(classify(&key(KeyCode::Other)), Command::Ignore);
    assert_eq!(classify(&key(KeyCode::Char('x'))), Command::Ignore);
}

#[test]
fn character_keys_are_case_sensitive() {
    let key = |c| KeyEvent::new(KeyCode::Char(c), NONE);
    for c in ['Q', 'J', 'K', 'S', 'P', 'R', 'E', 'D'] {
        assert_eq!(classify(&key(c)), Command::Ignore);
    }
}

#[test]
fn interrupt_needs_control_alone() {
    for c in ['c', 'C'] {
        assert_eq!(classify(&KeyEvent::new(KeyCode::Char(c), CONTROL)), Command::Quit);
        assert_eq!(classify(&KeyEvent::new(KeyCode::Char(c), NONE)), Command::Ignore);
        assert_eq!(classify(&KeyEvent::new(KeyCode::Char(c), SHIFT)), Command::Ignore);
        assert_eq!(classify(&KeyEvent::new(KeyCode::Char(c), CONTROL | SHIFT)), Command::Ignore);
        assert_eq!(classify(&KeyEvent::new(KeyCode::Char(c), CONTROL | ALT)), Command::Ignore);
    }
}

#[test]
fn other_keys_do_not_look_at_modifiers() {
    assert_eq!(classify(&KeyEvent::new(KeyCode::Char('q'), CONTROL)), Command::Quit);
    assert_eq!(classify(&KeyEvent::new(KeyCode::Char('s'), ALT)), Command::Act(Action::Start));
    assert_eq!(classify(&KeyEvent::new(KeyCode::Down, SHIFT)), Command::MoveDown);
}

#[test]
fn quit_keys_stop_the_application() {
    for key in [
        KeyEvent::new(KeyCode::Esc, NONE),
        KeyEvent::new(KeyCode::Char('q'), NONE),
        KeyEvent::new(KeyCode::Char('c'), CONTROL),
        KeyEvent::new(KeyCode::Char('C'), CONTROL),
    ] {
        let mut app = app_with(&["a", "b"]);
        assert!(app.running());
        assert_eq!(handle_key_events(key, &mut app), Effect::Nothing);
        assert!(!app.running());
        assert_eq!(names(&app), vec!["a", "b"]);
        assert_eq!(app.selected(), Some(0));
    }
}

#[test]
fn plain_c_does_not_stop_the_application() {
    let mut app = app_with(&["a"]);
    assert_eq!(press(&mut app, 'c'), Effect::Nothing);
    assert!(app.running());
}

#[test]
fn next_wraps_to_first_row() {
    let mut app = app_with(&["a", "b", "c"]);
    press(&mut app, 'j');
    press(&mut app, 'j');
    assert_eq!(app.selected(), Some(2));
    assert_eq!(press(&mut app, 'j'), Effect::Nothing);
    assert_eq!(app.selected(), Some(0));
}

#[test]
fn previous_wraps_to_last_row() {
    let mut app = app_with(&["a", "b", "c"]);
    assert_eq!(app.selected(), Some(0));
    assert_eq!(press(&mut app, 'k'), Effect::Nothing);
    assert_eq!(app.selected(), Some(2));
}

#[test]
fn arrows_move_like_letters() {
    let mut app = app_with(&["a", "b", "c"]);
    handle_key_events(KeyEvent::new(KeyCode::Down, NONE), &mut app);
    assert_eq!(app.selected(), Some(1));
    handle_key_events(KeyEvent::new(KeyCode::Up, NONE), &mut app);
    assert_eq!(app.selected(), Some(0));
    handle_key_events(KeyEvent::new(KeyCode::Up, NONE), &mut app);
    assert_eq!(app.selected(), Some(2));
}

#[test]
fn empty_list_ignores_navigation_and_action_keys() {
    for c in ['j', 'k', 's', 'p', 'r', 'e', 'd', 'x'] {
        let mut app = app_with(&[]);
        let before = snapshot(&app);
        assert_eq!(press(&mut app, c), Effect::Nothing);
        assert_eq!(snapshot(&app), before);
        assert_eq!(app.selected(), None);
        assert_eq!(app.phase(), Phase::Idle);
    }
    for code in [KeyCode::Up, KeyCode::Down, KeyCode::Other] {
        let mut app = App::new(Err(DirectoryError::QueryFailure));
        let before = snapshot(&app);
        assert_eq!(handle_key_events(KeyEvent::new(code, NONE), &mut app), Effect::Nothing);
        assert_eq!(snapshot(&app), before);
    }
}

#[test]
fn action_keys_ask_for_the_action_on_the_selected_unit() {
    for (c, action) in [
        ('s', Action::Start),
        ('p', Action::Stop),
        ('r', Action::Restart),
        ('e', Action::Enable),
        ('d', Action::Disable),
    ] {
        let mut app = app_with(&["a.service", "b.service", "c.service"]);
        press(&mut app, 'j');
        let effect = press(&mut app, c);
        assert_eq!(effect, Effect::Perform { action, unit: "b.service".to_string() });
        assert_eq!(app.phase(), Phase::Acting);
        assert_eq!(app.selected(), Some(1));
        assert_eq!(names(&app), vec!["a.service", "b.service", "c.service"]);
        assert!(app.running());
    }
}

#[test]
fn rebuild_follows_the_action_whatever_its_outcome() {
    for outcome in [Ok(()), Err(DirectoryError::ActionFailure)] {
        let mut app = app_with(&["a.service", "b.service"]);
        assert_eq!(
            press(&mut app, 's'),
            Effect::Perform { action: Action::Start, unit: "a.service".to_string() }
        );
        assert_eq!(handle_action_done(outcome, &mut app), Effect::Rebuild);
        assert_eq!(app.phase(), Phase::Rebuilding);
        assert_eq!(names(&app), vec!["a.service", "b.service"]);
        let mut started = unit("a.service");
        started.active = true;
        let fresh: Listing = Ok(vec![Ok(unit("b.service")), Ok(started.clone())]);
        assert_eq!(handle_listed(fresh, &mut app), Effect::Nothing);
        assert_eq!(app.phase(), Phase::Idle);
        assert_eq!(app.services(), &vec![started, unit("b.service")]);
        assert_eq!(app.selected(), Some(0));
    }
}

#[test]
fn selection_is_clamped_when_the_list_shrinks() {
    let mut app = app_with(&["a", "b", "c"]);
    press(&mut app, 'k');
    assert_eq!(app.selected(), Some(2));
    assert_eq!(press(&mut app, 'p'), Effect::Perform { action: Action::Stop, unit: "c".to_string() });
    assert_eq!(handle_action_done(Ok(()), &mut app), Effect::Rebuild);
    assert_eq!(handle_listed(listing(&["a", "b"]), &mut app), Effect::Nothing);
    assert_eq!(app.selected(), Some(1));
    assert_eq!(names(&app), vec!["a", "b"]);
}

#[test]
fn selection_is_dropped_when_the_list_becomes_empty() {
    let mut app = app_with(&["a"]);
    press(&mut app, 'd');
    handle_action_done(Err(DirectoryError::ActionFailure), &mut app);
    handle_listed(Err(DirectoryError::QueryFailure), &mut app);
    assert_eq!(app.selected(), None);
    assert!(app.services().is_empty());
    assert_eq!(app.phase(), Phase::Idle);
    assert_eq!(press(&mut app, 's'), Effect::Nothing);
    assert_eq!(app.phase(), Phase::Idle);
}

#[test]
fn selection_keeps_its_row_number_when_the_list_grows() {
    let mut app = app_with(&["b", "c"]);
    press(&mut app, 'j');
    press(&mut app, 'e');
    handle_action_done(Ok(()), &mut app);
    handle_listed(listing(&["c", "a", "b", "d"]), &mut app);
    assert_eq!(names(&app), vec!["a", "b", "c", "d"]);
    assert_eq!(app.selected(), Some(1));
}

#[test]
fn keys_wait_while_an_action_is_under_way() {
    let mut app = app_with(&["a", "b"]);
    press(&mut app, 'r');
    for c in ['j', 'k', 's', 'p', 'r', 'e', 'd', 'x'] {
        let before = snapshot(&app);
        assert_eq!(press(&mut app, c), Effect::Nothing);
        assert_eq!(snapshot(&app), before);
    }
    handle_action_done(Ok(()), &mut app);
    for c in ['j', 'k', 's', 'p', 'r', 'e', 'd', 'x'] {
        let before = snapshot(&app);
        assert_eq!(press(&mut app, c), Effect::Nothing);
        assert_eq!(snapshot(&app), before);
    }
    handle_listed(listing(&["a", "b"]), &mut app);
    assert_eq!(press(&mut app, 'j'), Effect::Nothing);
    assert_eq!(app.selected(), Some(1));
}

#[test]
fn quit_is_taken_while_an_action_is_under_way() {
    let mut app = app_with(&["a", "b"]);
    press(&mut app, 'r');
    assert_eq!(press(&mut app, 'q'), Effect::Nothing);
    assert!(!app.running());
    let before = snapshot(&app);
    assert_eq!(handle_action_done(Ok(()), &mut app), Effect::Nothing);
    assert_eq!(handle_listed(listing(&["z"]), &mut app), Effect::Nothing);
    assert_eq!(snapshot(&app), before);
}

#[test]
fn unexpected_reports_change_nothing() {
    let mut app = app_with(&["a", "b"]);
    let before = snapshot(&app);
    assert_eq!(handle_action_done(Ok(()), &mut app), Effect::Nothing);
    assert_eq!(handle_listed(listing(&["z"]), &mut app), Effect::Nothing);
    assert_eq!(snapshot(&app), before);
    press(&mut app, 's');
    let before = snapshot(&app);
    assert_eq!(handle_listed(listing(&["z"]), &mut app), Effect::Nothing);
    assert_eq!(snapshot(&app), before);
}

#[test]
fn nothing_happens_after_quit() {
    let mut app = app_with(&["a", "b", "c"]);
    press(&mut app, 'j');
    press(&mut app, 'q');
    let before = snapshot(&app);
    assert!(!before.0);
    for c in ['j', 'k', 's', 'p', 'r', 'e', 'd', 'q', 'x'] {
        assert_eq!(press(&mut app, c), Effect::Nothing);
        assert_eq!(snapshot(&app), before);
    }
    for code in [KeyCode::Esc, KeyCode::Up, KeyCode::Down, KeyCode::Other] {
        assert_eq!(handle_key_events(KeyEvent::new(code, CONTROL), &mut app), Effect::Nothing);
        assert_eq!(snapshot(&app), before);
    }
    assert_eq!(handle_event(Event::ActionDone(Ok(())), &mut app), Effect::Nothing);
    assert_eq!(handle_event(Event::Listed(listing(&["z"])), &mut app), Effect::Nothing);
    assert_eq!(snapshot(&app), before);
}

#[test]
fn events_are_dispatched_to_their_handlers() {
    let mut app = app_with(&["a", "b"]);
    let key = Event::Key(KeyEvent::new(KeyCode::Char('e'), NONE));
    assert_eq!(
        handle_event(key, &mut app),
        Effect::Perform { action: Action::Enable, unit: "a".to_string() }
    );
    assert_eq!(
        handle_event(Event::ActionDone(Err(DirectoryError::ActionFailure)), &mut app),
        Effect::Rebuild
    );
    assert_eq!(handle_event(Event::Listed(listing(&["c"])), &mut app), Effect::Nothing);
    assert_eq!(names(&app), vec!["c"]);
    assert_eq!(app.selected(), Some(0));
    assert_eq!(app.phase(), Phase::Idle);
}
