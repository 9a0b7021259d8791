use todo_tui::app::{App, CurrentScreen, Key, Signal};
use todo_tui::task::Task;

fn task(done: bool, desc: &str) -> Task {
    Task { done, desc: desc.to_string() }
}

fn press(app: &mut App, key: Key) -> Signal {
    app.handle_key(key, true)
}

fn type_text(app: &mut App, text: &str) {
    for c in text.chars() {
        press(app, Key::Char(c));
    }
}

fn descs(app: &App) -> Vec<String> {
    app.todo_tasks_available()
        .map(|ts| ts.iter().map(|t| t.desc.clone()).collect())
        .unwrap_or_default()
}

#[test]
fn new_app_starts_on_main_with_nothing() {
    let app = App::new();
    assert!(app.running);
    assert_eq!(app.current_screen, CurrentScreen::Main);
    assert!(app.input_buffer.is_empty());
    assert!(app.todo.is_empty());
    assert_eq!(app.current_todo, None);
    assert_eq!(app.task_cursor, None);
    assert!(app.todo_tasks_available().is_none());
}

#[test]
fn with_tasks_selects_first_task() {
    let app = App::with_tasks("Tasks".to_string(), vec![task(false, "x"), task(true, "y")]);
    assert_eq!(app.current_todo, Some(0));
    assert_eq!(app.task_cursor, Some(0));
    assert_eq!(app.sidebar_cursor, Some(0));
    assert_eq!(app.todo[0].title, "Tasks");
    assert_eq!(descs(&app), vec!["x".to_string(), "y".to_string()]);
}

#[test]
fn with_no_tasks_selects_nothing() {
    let mut app = App::with_tasks("Tasks".to_string(), vec![]);
    assert_eq!(app.task_cursor, None);
    assert_eq!(app.list_item_available(), None);
}

#[test]
fn typing_then_backspaces_then_commit_adds_one_task() {
    let mut app = App::with_tasks("Tasks".to_string(), vec![]);
    press(&mut app, Key::Char('a'));
    assert_eq!(app.current_screen, CurrentScreen::Adding);
    type_text(&mut app, "abc");
    assert_eq!(app.input_buffer, "abc");
    press(&mut app, Key::Backspace);
    press(&mut app, Key::Backspace);
    assert_eq!(app.input_buffer, "a");
    press(&mut app, Key::Enter);
    assert_eq!(app.current_screen, CurrentScreen::Main);
    assert!(app.input_buffer.is_empty());
    let tasks = app.todo_tasks_available().unwrap();
    assert_eq!(tasks.len(), 1);
    assert_eq!(tasks[0].desc, "a");
    assert!(!tasks[0].done);
}

#[test]
fn backspace_on_empty_buffer_does_nothing() {
    let mut app = App::with_tasks("Tasks".to_string(), vec![]);
    press(&mut app, Key::Char('a'));
    press(&mut app, Key::Backspace);
    assert!(app.input_buffer.is_empty());
    assert_eq!(app.current_screen, CurrentScreen::Adding);
}

#[test]
fn commit_appends_at_the_end() {
    let mut app = App::with_tasks("Tasks".to_string(), vec![task(false, "first")]);
    press(&mut app, Key::Char('a'));
    type_text(&mut app, "second");
    press(&mut app, Key::Enter);
    assert_eq!(descs(&app), vec!["first".to_string(), "second".to_string()]);
    assert_eq!(app.task_cursor, Some(0));
}

#[test]
fn commit_without_a_list_keeps_the_input() {
    let mut app = App::new();
    press(&mut app, Key::Char('a'));
    type_text(&mut app, "x");
    press(&mut app, Key::Enter);
    assert_eq!(app.current_screen, CurrentScreen::Adding);
    assert_eq!(app.input_buffer, "x");
    assert!(app.todo.is_empty());
}

#[test]
fn escape_from_adding_discards_input() {
    let mut app = App::with_tasks("Tasks".to_string(), vec![]);
    press(&mut app, Key::Char('a'));
    type_text(&mut app, "zz");
    press(&mut app, Key::Esc);
    assert_eq!(app.current_screen, CurrentScreen::Main);
    assert!(app.input_buffer.is_empty());
    assert!(descs(&app).is_empty());
}

#[test]
fn quit_then_no_does_not_save() {
    let mut app = App::with_tasks("Tasks".to_string(), vec![task(false, "keep")]);
    assert_eq!(press(&mut app, Key::Char('q')), Signal::Continue);
    assert_eq!(app.current_screen, CurrentScreen::Exiting);
    assert_eq!(press(&mut app, Key::Char('n')), Signal::Quit);
    assert!(!app.running);
    assert_eq!(descs(&app), vec!["keep".to_string()]);
}

#[test]
fn quit_then_yes_saves() {
    let mut app = App::with_tasks("Tasks".to_string(), vec![]);
    press(&mut app, Key::Char('q'));
    assert_eq!(press(&mut app, Key::Char('y')), Signal::Save);
    assert!(!app.running);
}

#[test]
fn quit_then_q_does_not_save() {
    let mut app = App::new();
    press(&mut app, Key::Char('q'));
    assert_eq!(press(&mut app, Key::Other), Signal::Continue);
    assert_eq!(app.current_screen, CurrentScreen::Exiting);
    assert_eq!(press(&mut app, Key::Char('q')), Signal::Quit);
}

#[test]
fn keys_on_empty_main_change_nothing() {
    for key in [Key::Enter, Key::Up, Key::Down, Key::Char('e'), Key::Char('d')] {
        let mut app = App::with_tasks("Tasks".to_string(), vec![]);
        assert_eq!(press(&mut app, key), Signal::Continue);
        assert_eq!(app.current_screen, CurrentScreen::Main);
        assert_eq!(app.task_cursor, None);
        assert_eq!(app.editing_task_at, None);
        assert!(descs(&app).is_empty());
        assert_eq!(app.todo.len(), 1);
    }
}

#[test]
fn escape_from_editing_keeps_description() {
    let mut app = App::with_tasks("Tasks".to_string(), vec![task(false, "walk")]);
    press(&mut app, Key::Char('e'));
    assert_eq!(app.current_screen, CurrentScreen::Editing);
    assert_eq!(app.editing_task_at, Some(0));
    press(&mut app, Key::Esc);
    assert_eq!(app.current_screen, CurrentScreen::Main);
    assert_eq!(app.editing_task_at, None);
    assert_eq!(descs(&app), vec!["walk".to_string()]);
}

#[test]
fn editing_appends_and_pops_characters() {
    let mut app = App::with_tasks("Tasks".to_string(), vec![task(false, "cat")]);
    press(&mut app, Key::Char('e'));
    press(&mut app, Key::Backspace);
    type_text(&mut app, "ke");
    assert_eq!(descs(&app), vec!["cake".to_string()]);
    press(&mut app, Key::Enter);
    assert_eq!(app.current_screen, CurrentScreen::Editing);
    press(&mut app, Key::Esc);
    assert_eq!(descs(&app), vec!["cake".to_string()]);
}

#[test]
fn enter_toggles_and_twice_restores() {
    let mut app = App::with_tasks("Tasks".to_string(), vec![task(false, "a"), task(true, "b")]);
    press(&mut app, Key::Down);
    press(&mut app, Key::Enter);
    assert!(!app.todo[0].tasks[1].done);
    assert!(!app.todo[0].tasks[0].done);
    press(&mut app, Key::Enter);
    assert!(app.todo[0].tasks[1].done);
}

#[test]
fn delete_last_moves_cursor_back() {
    let mut app = App::with_tasks(
        "Tasks".to_string(),
        vec![task(false, "a"), task(false, "b"), task(false, "c")],
    );
    press(&mut app, Key::Right);
    assert_eq!(app.task_cursor, Some(2));
    press(&mut app, Key::Char('d'));
    assert_eq!(descs(&app), vec!["a".to_string(), "b".to_string()]);
    assert_eq!(app.task_cursor, Some(1));
    press(&mut app, Key::Char('d'));
    press(&mut app, Key::Char('d'));
    assert!(descs(&app).is_empty());
    assert_eq!(app.task_cursor, None);
}

#[test]
fn delete_in_the_middle_keeps_cursor() {
    let mut app = App::with_tasks(
        "Tasks".to_string(),
        vec![task(false, "a"), task(false, "b"), task(false, "c")],
    );
    press(&mut app, Key::Down);
    press(&mut app, Key::Char('d'));
    assert_eq!(descs(&app), vec!["a".to_string(), "c".to_string()]);
    assert_eq!(app.task_cursor, Some(1));
}

#[test]
fn cursor_moves_saturate() {
    let mut app = App::with_tasks("Tasks".to_string(), vec![task(false, "a"), task(false, "b")]);
    press(&mut app, Key::Up);
    assert_eq!(app.task_cursor, Some(0));
    press(&mut app, Key::Down);
    press(&mut app, Key::Down);
    press(&mut app, Key::Down);
    assert_eq!(app.task_cursor, Some(1));
    press(&mut app, Key::Left);
    assert_eq!(app.task_cursor, Some(0));
    press(&mut app, Key::Right);
    assert_eq!(app.task_cursor, Some(1));
    assert_eq!(app.list_item_available(), Some(1));
}

#[test]
fn release_events_are_ignored() {
    let mut app = App::with_tasks("Tasks".to_string(), vec![task(false, "a")]);
    assert_eq!(app.handle_key(Key::Char('q'), false), Signal::Continue);
    assert_eq!(app.current_screen, CurrentScreen::Main);
    app.handle_key(Key::Enter, false);
    assert!(!app.todo[0].tasks[0].done);
}

#[test]
fn sidebar_adds_a_list_and_moves_its_cursor() {
    let mut app = App::with_tasks("Tasks".to_string(), vec![]);
    press(&mut app, Key::Char('b'));
    assert_eq!(app.current_screen, CurrentScreen::Sidebar);
    press(&mut app, Key::Char('a'));
    assert_eq!(app.current_screen, CurrentScreen::AddingProj);
    type_text(&mut app, "Work");
    press(&mut app, Key::Enter);
    assert_eq!(app.current_screen, CurrentScreen::Sidebar);
    assert!(app.input_buffer.is_empty());
    assert_eq!(app.todo.len(), 2);
    assert_eq!(app.todo[1].title, "Work");
    assert!(app.todo[1].tasks.is_empty());
    assert_eq!(app.current_todo, Some(0));
    press(&mut app, Key::Down);
    assert_eq!(app.sidebar_cursor, Some(1));
    press(&mut app, Key::Down);
    assert_eq!(app.sidebar_cursor, Some(1));
    press(&mut app, Key::Left);
    assert_eq!(app.sidebar_cursor, Some(0));
    press(&mut app, Key::Char('b'));
    assert_eq!(app.current_screen, CurrentScreen::Main);
}

#[test]
fn escape_from_adding_list_returns_to_sidebar() {
    let mut app = App::new();
    press(&mut app, Key::Char('b'));
    press(&mut app, Key::Char('a'));
    type_text(&mut app, "x");
    press(&mut app, Key::Esc);
    assert_eq!(app.current_screen, CurrentScreen::Sidebar);
    assert!(app.input_buffer.is_empty());
    assert!(app.todo.is_empty());
}

#[test]
fn save_task_value_commits_buffer() {
    let mut app = App::with_tasks("Tasks".to_string(), vec![]);
    app.current_screen = CurrentScreen::Adding;
    app.input_buffer = "direct".to_string();
    app.save_task_value();
    assert_eq!(app.current_screen, CurrentScreen::Main);
    assert!(app.input_buffer.is_empty());
    assert_eq!(descs(&app), vec!["direct".to_string()]);
}
