use themewalker::app::{App, Event, ExitAction, Key, LoopStep, Mode};
use themewalker::config::SddmConfig;
use themewalker::theme::SddmTheme;

fn make_theme(name: &str) -> SddmTheme {
    SddmTheme { name: name.to_string(), path: "/tmp".to_string(), description: None, author: None }
}

fn make_app(names: &[&str], current: Option<&str>) -> App {
    let themes: Vec<SddmTheme> = names.iter().map(|n| make_theme(n)).collect();
    let config = SddmConfig::empty();
    let mut app = App::new(themes, config);
    app.current_theme = current.map(|s| s.to_string());
    app
}

#[test]
fn initial_selection_starts_at_zero_when_no_current() {
    let app = make_app(&["alpha", "beta", "gamma"], None);
    assert_eq!(app.selected_index(), Some(0));
}

#[test]
fn initial_selection_preselects_current_theme() {
    let themes = vec![make_theme("alpha"), make_theme("beta"), make_theme("gamma")];
    let mut config = SddmConfig::empty();
    config.current_theme = Some("beta".to_string());
    let app = App::new(themes, config);
    assert_eq!(app.selected_index(), Some(1));
}

#[test]
fn move_down_wraps_at_end() {
    let mut app = make_app(&["a", "b", "c"], None);
    app.cursor = Some(2);
    app.move_down();
    assert_eq!(app.selected_index(), Some(0));
}

#[test]
fn move_up_wraps_at_start() {
    let mut app = make_app(&["a", "b", "c"], None);
    app.cursor = Some(0);
    app.move_up();
    assert_eq!(app.selected_index(), Some(2));
}

#[test]
fn enter_switches_to_confirming_mode() {
    let mut app = make_app(&["alpha"], None);
    let result = app.handle_key(Key::Enter);
    assert!(result.is_none());
    assert_eq!(app.mode, Mode::Confirming);
}

#[test]
fn confirming_enter_returns_apply_action() {
    let mut app = make_app(&["alpha"], None);
    app.mode = Mode::Confirming;
    let result = app.handle_key(Key::Enter);
    assert!(matches!(result, Some(ExitAction::ApplyTheme(ref n)) if n == "alpha"));
}

#[test]
fn confirming_esc_returns_to_browsing() {
    let mut app = make_app(&["alpha"], None);
    app.mode = Mode::Confirming;
    let result = app.handle_key(Key::Esc);
    assert!(result.is_none());
    assert_eq!(app.mode, Mode::Browsing);
}

#[test]
fn quit_key_returns_quit_action() {
    let mut app = make_app(&["alpha"], None);
    let result = app.handle_key(Key::Char('q'));
    assert!(matches!(result, Some(ExitAction::Quit)));
}

#[test]
fn empty_theme_list_has_no_selection() {
    let app = make_app(&[], None);
    assert_eq!(app.selected_index(), None);
}

#[test]
fn empty_list_ignores_movement_and_activation() {
    let mut app = make_app(&[], None);
    app.move_down();
    assert_eq!(app.selected_index(), None);
    app.move_up();
    assert_eq!(app.selected_index(), None);
    assert!(app.handle_key(Key::Enter).is_none());
    assert_eq!(app.mode, Mode::Browsing);
    assert!(app.highlighted_theme().is_none());
    assert_eq!(app.status.as_deref(), Some("No themes found in /usr/share/sddm/themes/"));
}

#[test]
fn non_empty_list_has_no_notice() {
    let app = make_app(&["a"], None);
    assert!(app.status.is_none());
}

#[test]
fn full_cycle_down_returns_to_start() {
    for start in 0..4 {
        let mut app = make_app(&["a", "b", "c", "d"], None);
        app.cursor = Some(start);
        for _ in 0..4 {
            app.move_down();
        }
        assert_eq!(app.selected_index(), Some(start));
    }
}

#[test]
fn full_cycle_up_returns_to_start() {
    for start in 0..4 {
        let mut app = make_app(&["a", "b", "c", "d"], None);
        app.cursor = Some(start);
        for _ in 0..4 {
            app.move_up();
        }
        assert_eq!(app.selected_index(), Some(start));
    }
}

#[test]
fn movement_steps_by_one() {
    let mut app = make_app(&["a", "b", "c"], None);
    app.move_down();
    assert_eq!(app.selected_index(), Some(1));
    app.move_down();
    assert_eq!(app.selected_index(), Some(2));
    app.move_up();
    assert_eq!(app.selected_index(), Some(1));
    assert_eq!(app.highlighted_theme().map(|t| t.name.as_str()), Some("b"));
}

#[test]
fn browsing_keys_move_the_cursor() {
    let mut app = make_app(&["a", "b", "c"], None);
    assert!(app.handle_key(Key::Down).is_none());
    assert_eq!(app.selected_index(), Some(1));
    assert!(app.handle_key(Key::Char('j')).is_none());
    assert_eq!(app.selected_index(), Some(2));
    assert!(app.handle_key(Key::Up).is_none());
    assert_eq!(app.selected_index(), Some(1));
    assert!(app.handle_key(Key::Char('k')).is_none());
    assert_eq!(app.selected_index(), Some(0));
    assert_eq!(app.mode, Mode::Browsing);
}

#[test]
fn browsing_ignores_other_keys() {
    let mut app = make_app(&["a", "b"], None);
    for key in [Key::Other, Key::Char('y'), Key::Char('n'), Key::Char('x'), Key::Char('Q')] {
        assert!(app.handle_key(key).is_none());
        assert_eq!(app.selected_index(), Some(0));
        assert_eq!(app.mode, Mode::Browsing);
    }
}

#[test]
fn escape_quits_while_browsing() {
    let mut app = make_app(&["a"], None);
    assert!(matches!(app.handle_key(Key::Esc), Some(ExitAction::Quit)));
}

#[test]
fn confirming_keys() {
    for key in [Key::Char('y'), Key::Char('Y'), Key::Enter] {
        let mut app = make_app(&["a", "b"], None);
        app.cursor = Some(1);
        app.mode = Mode::Confirming;
        let result = app.handle_key(key);
        assert!(matches!(result, Some(ExitAction::ApplyTheme(ref n)) if n == "b"));
    }
    for key in [Key::Char('n'), Key::Char('N'), Key::Esc] {
        let mut app = make_app(&["a", "b"], None);
        app.mode = Mode::Confirming;
        assert!(app.handle_key(key).is_none());
        assert_eq!(app.mode, Mode::Browsing);
    }
}

#[test]
fn confirming_ignores_movement_and_other_keys() {
    let mut app = make_app(&["a", "b"], None);
    app.mode = Mode::Confirming;
    for key in [Key::Up, Key::Down, Key::Char('j'), Key::Char('k'), Key::Char('q'), Key::Other] {
        assert!(app.handle_key(key).is_none());
        assert_eq!(app.mode, Mode::Confirming);
        assert_eq!(app.selected_index(), Some(0));
    }
}

#[test]
fn apply_needs_two_keys() {
    let mut app = make_app(&["a", "b"], None);
    assert!(app.handle_key(Key::Down).is_none());
    assert!(app.handle_key(Key::Enter).is_none());
    assert_eq!(app.mode, Mode::Confirming);
    let result = app.handle_key(Key::Char('y'));
    assert!(matches!(result, Some(ExitAction::ApplyTheme(ref n)) if n == "b"));
}

#[test]
fn cursor_starts_on_first_of_equal_names() {
    let themes = vec![make_theme("a"), make_theme("b"), make_theme("b")];
    let mut config = SddmConfig::empty();
    config.current_theme = Some("b".to_string());
    let app = App::new(themes, config);
    assert_eq!(app.selected_index(), Some(1));
    assert_eq!(app.current_theme.as_deref(), Some("b"));
}

#[test]
fn cursor_starts_at_zero_for_unknown_current() {
    let themes = vec![make_theme("a"), make_theme("b")];
    let mut config = SddmConfig::empty();
    config.current_theme = Some("zzz".to_string());
    let app = App::new(themes, config);
    assert_eq!(app.selected_index(), Some(0));
}

#[test]
fn events_reach_the_state_machine_only_as_key_presses() {
    let mut app = make_app(&["a", "b"], None);
    assert!(matches!(app.handle_event(Event::KeyOther(Key::Down)), LoopStep::Continue));
    assert_eq!(app.selected_index(), Some(0));
    assert!(matches!(app.handle_event(Event::Other), LoopStep::Continue));
    assert!(matches!(app.handle_event(Event::Resize), LoopStep::Resize));
    assert_eq!(app.selected_index(), Some(0));
    assert!(matches!(app.handle_event(Event::KeyPress(Key::Down)), LoopStep::Continue));
    assert_eq!(app.selected_index(), Some(1));
    assert!(matches!(app.handle_event(Event::KeyOther(Key::Char('q'))), LoopStep::Continue));
    assert!(matches!(
        app.handle_event(Event::KeyPress(Key::Char('q'))),
        LoopStep::Exit(ExitAction::Quit)
    ));
}

#[test]
fn well_formedness_is_decided() {
    let mut app = make_app(&["a", "b"], None);
    assert!(app.is_well_formed());
    app.mode = Mode::Confirming;
    assert!(app.is_well_formed());
    app.cursor = Some(2);
    assert!(!app.is_well_formed());
    app.cursor = None;
    assert!(!app.is_well_formed());
    let mut empty = make_app(&[], None);
    assert!(empty.is_well_formed());
    empty.mode = Mode::Confirming;
    assert!(!empty.is_well_formed());
    empty.mode = Mode::Browsing;
    empty.cursor = Some(0);
    assert!(!empty.is_well_formed());
}
