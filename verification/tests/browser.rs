use file_picker::browser::{
    clamp_selected, is_double_click, App, Effect, OpenMenu, Report, DOUBLE_CLICK_MILLIS, READY,
};
use file_picker::input::{
    InputEvent, KeyCode, KeyEventKind, MouseButton, MouseEvent, MouseEventKind,
};
use file_picker::opener::OpenError;
use file_picker::tree::{flatten, FileNode};

fn dir(name: &str, path: &str) -> FileNode {
    FileNode::new(name.to_string(), path.to_string(), true)
}

fn file(name: &str, path: &str) -> FileNode {
    FileNode::new(name.to_string(), path.to_string(), false)
}

fn press(code: KeyCode) -> InputEvent {
    InputEvent::Key { code, kind: KeyEventKind::Press }
}

fn mouse(kind: MouseEventKind, row: u16, at_millis: u64) -> InputEvent {
    InputEvent::Mouse { event: MouseEvent { kind, column: 5, row }, terminal_height: 24, at_millis }
}

fn click(row: u16, at_millis: u64) -> InputEvent {
    mouse(MouseEventKind::Down(MouseButton::Left), row, at_millis)
}

fn names(app: &App) -> Vec<String> {
    flatten(&app.entries).iter().map(|r| r.name.clone()).collect()
}

/// `docs` and `readme.txt` at the top.
fn small() -> App {
    App::new(vec![dir("docs", "./docs"), file("readme.txt", "./readme.txt")])
}

/// Hands the listing of `docs` to the browser, as its caller would.
fn list_docs(app: &mut App, effect: Effect) {
    match effect {
        Effect::ListDirectory { idx_path, path } => {
            assert_eq!(path, "./docs");
            app.directory_listed(
                &idx_path,
                vec![file("a.md", "./docs/a.md"), file("b.md", "./docs/b.md")],
            );
        }
        other => panic!("expected a listing to be asked for, got {:?}", other),
    }
}

fn menu_app(items: &[&str], selected: usize) -> App {
    let mut app = small();
    app.selected = Some(1);
    app.open_menu =
        Some(OpenMenu { items: items.iter().map(|s| s.to_string()).collect(), selected });
    app
}

#[test]
fn starts_ready_with_first_row_selected() {
    let app = small();
    assert_eq!(app.status, READY);
    assert_eq!(app.status, "Ready. Click or scroll. Press q or Esc to quit.");
    assert_eq!(app.selected, Some(0));
    assert_eq!(app.last_click, None);
    assert!(app.open_menu.is_none());
    let empty = App::new(Vec::new());
    assert_eq!(empty.selected, None);
}

#[test]
fn expands_selected_directory_and_opens_selected_file() {
    let mut app = small();
    // right arrow on `docs`
    let effect = app.handle_event(press(KeyCode::Right));
    assert_eq!(
        effect,
        Effect::ListDirectory { idx_path: vec![0], path: "./docs".to_string() }
    );
    assert_eq!(app.status, "Expanded docs");
    list_docs(&mut app, effect);
    assert!(app.entries[0].is_expanded);
    assert_eq!(names(&app), vec!["docs", "a.md", "b.md", "readme.txt"]);
    assert_eq!(app.selected, Some(0));
    // down to `readme.txt`, then enter
    for _ in 0..3 {
        assert_eq!(app.handle_event(press(KeyCode::Down)), Effect::Idle);
    }
    assert_eq!(app.selected, Some(3));
    let effect = app.handle_event(press(KeyCode::Enter));
    let report = Report::Opened { path: "./readme.txt".to_string() };
    assert_eq!(
        effect,
        Effect::Open { spec: None, path: "./readme.txt".to_string(), report: report.clone() }
    );
    app.report_outcome(&report, &Ok(()));
    assert_eq!(app.status, "Opening ./readme.txt");
    assert_eq!(app.selected, Some(3));
}

#[test]
fn reports_failed_opening() {
    let mut app = small();
    let report = Report::Opened { path: "./readme.txt".to_string() };
    app.report_outcome(&report, &Err(OpenError::SpawnFailure("no xdg-open".to_string())));
    assert_eq!(app.status, "Failed to open ./readme.txt: no xdg-open");
    let report = Report::Launched { name: "readme.txt".to_string() };
    app.report_outcome(&report, &Ok(()));
    assert_eq!(app.status, "Launched opener for readme.txt");
    app.report_outcome(&report, &Err(OpenError::CommandNotFound("code".to_string())));
    assert_eq!(app.status, "Open failed: command not found: code");
    app.report_outcome(&report, &Err(OpenError::EmptyCommandSpec));
    assert_eq!(app.status, "Open failed: empty command spec");
}

#[test]
fn quit_keys() {
    let mut app = small();
    assert_eq!(app.handle_event(press(KeyCode::Char('q'))), Effect::Quit);
    assert_eq!(app.handle_event(press(KeyCode::Esc)), Effect::Quit);
    assert_eq!(app.handle_event(press(KeyCode::Char('x'))), Effect::Idle);
    assert_eq!(app.handle_event(press(KeyCode::Other)), Effect::Idle);
    assert_eq!(app.status, READY);
}

#[test]
fn only_pressed_keys_count_while_browsing() {
    let mut app = small();
    for kind in [KeyEventKind::Repeat, KeyEventKind::Release] {
        assert_eq!(app.handle_event(InputEvent::Key { code: KeyCode::Down, kind }), Effect::Idle);
        assert_eq!(
            app.handle_event(InputEvent::Key { code: KeyCode::Char('q'), kind }),
            Effect::Idle
        );
    }
    assert_eq!(app.selected, Some(0));
    assert_eq!(app.handle_event(InputEvent::Resize), Effect::Idle);
    assert_eq!(app.handle_event(InputEvent::Other), Effect::Idle);
}

#[test]
fn arrows_move_the_selection_within_the_rows() {
    let mut app = small();
    app.handle_event(press(KeyCode::Up));
    assert_eq!(app.selected, Some(0));
    app.handle_event(press(KeyCode::Down));
    assert_eq!(app.selected, Some(1));
    app.handle_event(press(KeyCode::Down));
    assert_eq!(app.selected, Some(1));
    app.handle_event(press(KeyCode::Up));
    assert_eq!(app.selected, Some(0));
    app.selected = None;
    app.handle_event(press(KeyCode::Up));
    assert_eq!(app.selected, None);
    app.handle_event(press(KeyCode::Down));
    assert_eq!(app.selected, Some(0));
    assert_eq!(app.status, READY);
    let mut empty = App::new(Vec::new());
    empty.handle_event(press(KeyCode::Down));
    assert_eq!(empty.selected, None);
}

#[test]
fn left_collapses_selected_directory() {
    let mut app = small();
    let effect = app.handle_event(press(KeyCode::Right));
    list_docs(&mut app, effect);
    assert_eq!(app.handle_event(press(KeyCode::Left)), Effect::Idle);
    assert_eq!(app.status, "Collapsed docs");
    assert!(!app.entries[0].is_expanded);
    assert!(app.entries[0].children.is_empty());
    assert_eq!(names(&app), vec!["docs", "readme.txt"]);
    // nothing to collapse: nothing is said
    app.status = "before".to_string();
    assert_eq!(app.handle_event(press(KeyCode::Left)), Effect::Idle);
    assert_eq!(app.status, "before");
}

#[test]
fn right_on_expanded_directory_or_file_does_nothing() {
    let mut app = small();
    let effect = app.handle_event(press(KeyCode::Right));
    list_docs(&mut app, effect);
    app.status = "before".to_string();
    assert_eq!(app.handle_event(press(KeyCode::Right)), Effect::Idle);
    assert_eq!(app.status, "before");
    app.selected = Some(3);
    assert_eq!(app.handle_event(press(KeyCode::Right)), Effect::Idle);
    assert_eq!(app.handle_event(press(KeyCode::Left)), Effect::Idle);
    assert_eq!(app.status, "before");
    assert_eq!(names(&app), vec!["docs", "a.md", "b.md", "readme.txt"]);
}

#[test]
fn enter_toggles_a_directory() {
    let mut app = small();
    let effect = app.handle_event(press(KeyCode::Enter));
    assert_eq!(app.status, "Expanded folder: docs");
    list_docs(&mut app, effect);
    assert_eq!(names(&app), vec!["docs", "a.md", "b.md", "readme.txt"]);
    assert_eq!(app.handle_event(press(KeyCode::Enter)), Effect::Idle);
    assert_eq!(app.status, "Collapsed folder: docs");
    assert_eq!(names(&app), vec!["docs", "readme.txt"]);
}

#[test]
fn listing_for_a_path_that_leads_nowhere_changes_nothing() {
    let mut app = small();
    app.directory_listed(&[5], vec![file("x", "./x")]);
    app.directory_listed(&[], vec![file("x", "./x")]);
    app.directory_listed(&[1], vec![file("x", "./x")]);
    assert_eq!(names(&app), vec!["docs", "readme.txt"]);
    assert_eq!(app.selected, Some(0));
}

#[test]
fn second_click_within_window_is_a_double_click() {
    let t = 10_000;
    assert!(!is_double_click(None, 1, t));
    assert!(is_double_click(Some((1, t)), 1, t + 300));
    assert!(is_double_click(Some((1, t)), 1, t + 350));
    assert!(is_double_click(Some((1, t)), 1, t));
    assert!(!is_double_click(Some((1, t)), 1, t + 351));
    assert!(!is_double_click(Some((1, t)), 1, t + 400));
    assert!(!is_double_click(Some((0, t)), 1, t + 300));
    assert!(!is_double_click(Some((1, 0)), 1, u64::MAX));
    assert_eq!(DOUBLE_CLICK_MILLIS, 350);
}

#[test]
fn double_click_on_file_opens_it() {
    let t = 5_000;
    let mut app = small();
    // terminal row 2 is the second row of the list
    assert_eq!(app.handle_event(click(2, t)), Effect::Idle);
    assert_eq!(app.selected, Some(1));
    assert_eq!(app.status, "Selected readme.txt");
    assert_eq!(app.last_click, Some((1, t)));
    let effect = app.handle_event(click(2, t + 300));
    assert_eq!(
        effect,
        Effect::Open {
            spec: None,
            path: "./readme.txt".to_string(),
            report: Report::Opened { path: "./readme.txt".to_string() },
        }
    );
    assert_eq!(app.last_click, None);
    assert_eq!(app.selected, Some(1));
}

#[test]
fn slow_second_click_is_a_new_single_click() {
    let t = 5_000;
    let mut app = small();
    app.handle_event(click(2, t));
    assert_eq!(app.handle_event(click(2, t + 400)), Effect::Idle);
    assert_eq!(app.last_click, Some((1, t + 400)));
    assert_eq!(app.status, "Selected readme.txt");
    // and the one after it, soon enough, is a double click again
    assert!(matches!(app.handle_event(click(2, t + 500)), Effect::Open { .. }));
}

#[test]
fn click_on_another_row_is_a_new_single_click() {
    let t = 5_000;
    let mut app = small();
    app.handle_event(click(1, t));
    assert_eq!(app.status, "Selected docs");
    assert_eq!(app.handle_event(click(2, t + 100)), Effect::Idle);
    assert_eq!(app.last_click, Some((1, t + 100)));
    assert_eq!(app.selected, Some(1));
}

#[test]
fn double_click_toggles_a_directory() {
    let t = 1_000;
    let mut app = small();
    app.handle_event(click(1, t));
    let effect = app.handle_event(click(1, t + 10));
    assert_eq!(app.status, "Expanded docs");
    assert_eq!(app.last_click, None);
    list_docs(&mut app, effect);
    assert_eq!(names(&app), vec!["docs", "a.md", "b.md", "readme.txt"]);
    app.handle_event(click(1, t + 1_000));
    assert_eq!(app.handle_event(click(1, t + 1_100)), Effect::Idle);
    assert_eq!(app.status, "Collapsed docs");
    assert_eq!(names(&app), vec!["docs", "readme.txt"]);
}

#[test]
fn clicks_outside_the_list_are_ignored() {
    let mut app = small();
    // the border, a row below the entries, the lower border, the status line
    for row in [0, 3, 10, 22, 23, 40] {
        assert_eq!(app.handle_event(click(row, 1)), Effect::Idle);
    }
    assert_eq!(app.selected, Some(0));
    assert_eq!(app.last_click, None);
    assert_eq!(app.status, READY);
    // a terminal too low for the list
    for height in [0, 1, 2, 3] {
        let ev = InputEvent::Mouse {
            event: MouseEvent { kind: MouseEventKind::Down(MouseButton::Left), column: 0, row: 1 },
            terminal_height: height,
            at_millis: 1,
        };
        assert_eq!(app.handle_event(ev), Effect::Idle);
        assert_eq!(app.last_click, None);
    }
    // height 4 shows one row
    let ev = InputEvent::Mouse {
        event: MouseEvent { kind: MouseEventKind::Down(MouseButton::Left), column: 0, row: 1 },
        terminal_height: 4,
        at_millis: 1,
    };
    app.handle_event(ev);
    assert_eq!(app.last_click, Some((0, 1)));
}

#[test]
fn wheel_moves_and_names_the_selection() {
    let mut app = small();
    app.handle_event(mouse(MouseEventKind::ScrollDown, 0, 0));
    assert_eq!(app.selected, Some(1));
    assert_eq!(app.status, "Selected readme.txt");
    app.status = "before".to_string();
    app.handle_event(mouse(MouseEventKind::ScrollDown, 0, 0));
    assert_eq!(app.selected, Some(1));
    assert_eq!(app.status, "before");
    app.handle_event(mouse(MouseEventKind::ScrollUp, 0, 0));
    assert_eq!(app.selected, Some(0));
    assert_eq!(app.status, "Selected docs");
    app.status = "before".to_string();
    app.handle_event(mouse(MouseEventKind::ScrollUp, 0, 0));
    assert_eq!(app.selected, Some(0));
    assert_eq!(app.status, "before");
    app.selected = None;
    app.handle_event(mouse(MouseEventKind::ScrollUp, 0, 0));
    assert_eq!(app.selected, Some(0));
    assert_eq!(app.status, "Selected docs");
    let mut empty = App::new(Vec::new());
    empty.handle_event(mouse(MouseEventKind::ScrollDown, 0, 0));
    assert_eq!(empty.selected, None);
    assert_eq!(empty.status, READY);
}

#[test]
fn other_mouse_events_are_described() {
    let mut app = small();
    app.handle_event(mouse(MouseEventKind::Down(MouseButton::Right), 7, 0));
    assert_eq!(app.status, "Mouse Down Right at (5, 7)");
    app.handle_event(mouse(MouseEventKind::Moved, 2, 0));
    assert_eq!(app.status, "Mouse Move at (5, 2)");
    app.handle_event(mouse(MouseEventKind::ScrollLeft, 2, 0));
    assert_eq!(app.status, "Unknown mouse event");
    assert_eq!(app.selected, Some(0));
}

#[test]
fn clamp_moves_selection_to_last_row_left() {
    // five rows, the last one selected
    let mut app = small();
    app.entries[0].expand(vec![
        file("a", "./docs/a"),
        file("b", "./docs/b"),
        file("c", "./docs/c"),
    ]);
    app.selected = Some(4);
    clamp_selected(&mut app);
    assert_eq!(app.selected, Some(4));
    // two rows are left
    app.entries[0].collapse();
    clamp_selected(&mut app);
    assert_eq!(app.selected, Some(1));
    // none is left
    app.entries.clear();
    clamp_selected(&mut app);
    assert_eq!(app.selected, None);
}

#[test]
fn clamp_leaves_valid_and_missing_selection() {
    let mut app = small();
    app.selected = Some(1);
    clamp_selected(&mut app);
    assert_eq!(app.selected, Some(1));
    app.selected = None;
    clamp_selected(&mut app);
    assert_eq!(app.selected, None);
    app.selected = Some(usize::MAX);
    clamp_selected(&mut app);
    assert_eq!(app.selected, Some(1));
}

#[test]
fn o_asks_for_the_menu_of_the_selected_row() {
    let mut app = small();
    app.selected = Some(1);
    let effect = app.handle_event(press(KeyCode::Char('o')));
    assert_eq!(effect, Effect::ChooseOpener { path: "./readme.txt".to_string() });
    assert!(app.open_menu.is_none());
    app.show_open_menu(vec!["System Default".to_string(), "code -g".to_string()]);
    assert_eq!(app.status, "Open with: readme.txt");
    let menu = app.open_menu.as_ref().unwrap();
    assert_eq!(menu.items, vec!["System Default", "code -g"]);
    assert_eq!(menu.selected, 0);
    // without a selection there is nothing to ask for
    let mut app = small();
    app.selected = None;
    assert_eq!(app.handle_event(press(KeyCode::Char('o'))), Effect::Idle);
    app.show_open_menu(vec!["System Default".to_string()]);
    assert!(app.open_menu.is_none());
    // a menu without items is not shown
    let mut app = small();
    app.show_open_menu(Vec::new());
    assert!(app.open_menu.is_none());
    assert_eq!(app.status, READY);
}

#[test]
fn menu_highlight_goes_round() {
    let mut app = menu_app(&["System Default", "a", "b"], 0);
    let selected = |app: &App| app.open_menu.as_ref().unwrap().selected;
    app.handle_event(press(KeyCode::Up));
    assert_eq!(selected(&app), 2);
    app.handle_event(press(KeyCode::Down));
    assert_eq!(selected(&app), 0);
    app.handle_event(press(KeyCode::Down));
    assert_eq!(selected(&app), 1);
    app.handle_event(InputEvent::Key { code: KeyCode::Down, kind: KeyEventKind::Repeat });
    assert_eq!(selected(&app), 2);
    app.handle_event(InputEvent::Key { code: KeyCode::Down, kind: KeyEventKind::Release });
    assert_eq!(selected(&app), 2);
    app.handle_event(press(KeyCode::Up));
    assert_eq!(selected(&app), 1);
    // the selection of the list stays where it is
    assert_eq!(app.selected, Some(1));
}

#[test]
fn menu_ignores_everything_but_its_keys() {
    let mut app = menu_app(&["System Default", "a"], 1);
    assert_eq!(app.handle_event(press(KeyCode::Char('q'))), Effect::Idle);
    assert_eq!(app.handle_event(press(KeyCode::Left)), Effect::Idle);
    assert_eq!(app.handle_event(click(1, 5)), Effect::Idle);
    assert_eq!(app.handle_event(mouse(MouseEventKind::ScrollDown, 0, 0)), Effect::Idle);
    assert_eq!(app.handle_event(InputEvent::Resize), Effect::Idle);
    assert_eq!(app.open_menu.as_ref().unwrap().selected, 1);
    assert_eq!(app.selected, Some(1));
    assert_eq!(app.last_click, None);
    assert_eq!(app.status, READY);
}

#[test]
fn escape_cancels_the_menu() {
    let mut app = menu_app(&["System Default", "a"], 1);
    assert_eq!(app.handle_event(press(KeyCode::Esc)), Effect::Idle);
    assert!(app.open_menu.is_none());
    assert_eq!(app.status, "Open with canceled");
}

#[test]
fn enter_in_menu_opens_by_default_or_with_the_chosen_opener() {
    let mut app = menu_app(&["System Default", "code -g"], 0);
    let report = Report::Launched { name: "readme.txt".to_string() };
    assert_eq!(
        app.handle_event(press(KeyCode::Enter)),
        Effect::Open { spec: None, path: "./readme.txt".to_string(), report: report.clone() }
    );
    assert!(app.open_menu.is_none());
    let mut app = menu_app(&["System Default", "code -g"], 1);
    assert_eq!(
        app.handle_event(press(KeyCode::Enter)),
        Effect::Open {
            spec: Some("code -g".to_string()),
            path: "./readme.txt".to_string(),
            report,
        }
    );
    assert!(app.open_menu.is_none());
    assert_eq!(app.status, READY);
    // without a selection the menu just closes
    let mut app = menu_app(&["System Default"], 0);
    app.selected = None;
    assert_eq!(app.handle_event(press(KeyCode::Enter)), Effect::Idle);
    assert!(app.open_menu.is_none());
}
