use ledit::application::{error_status, App, Key};
use ledit::commands::CommandError;
use ledit::tree::Entry;
use ledit::util::{AppEvent, AppMode, Status, StatusLevel};

fn app() -> App {
    let mut a = App::new();
    a.setup_commands();
    a
}

fn type_line(a: &mut App, line: &str) {
    for c in line.chars() {
        assert!(a.handle_key(Key::Char(c)).is_none());
    }
}

fn listing() -> Vec<Entry> {
    vec![
        Entry { name: "notes.md".to_string(), path: "/tmp/notes.md".to_string(), children: None },
        Entry {
            name: "src".to_string(),
            path: "/tmp/src".to_string(),
            children: Some(vec![Entry { name: "lib.rs".to_string(), path: "/tmp/src/lib.rs".to_string(), children: None }]),
        },
    ]
}

#[test]
fn starts_in_normal_mode() {
    let a = App::new();
    assert_eq!(a.mode, AppMode::NormalMode);
    assert!(!a.show_dialog);
    assert!(!a.should_close);
    assert!(a.file_view);
    assert!(a.command_parser.commands.is_empty());
}

#[test]
fn open_command_publishes_set_workspace_and_reloads() {
    let mut a = app();
    a.handle_key(Key::Char('c'));
    assert_eq!(a.mode, AppMode::CommandMode);
    type_line(&mut a, "open /tmp");
    assert_eq!(a.command_buffer, "open /tmp");
    let ev = a.handle_key(Key::Enter).expect("an event");
    assert!(a.command_buffer.is_empty());
    match &ev {
        AppEvent::SetWorkspace(w) => assert_eq!(w, "/tmp"),
        _ => panic!("expected SetWorkspace"),
    }
    assert!(a.apply_event(ev));
    assert_eq!(a.working_path.as_deref(), Some("/tmp"));
    a.reload_workspace(Some(listing()));
    let texts: Vec<String> = a.items.items.iter().map(|r| r.text.clone()).collect();
    assert_eq!(texts, vec!["\u{25b6} src".to_string(), "notes.md".to_string()]);
    assert_eq!(a.file_list.nodes[0].value, "/tmp/src");
}

#[test]
fn help_open_publishes_dialog() {
    let mut a = app();
    a.handle_key(Key::Char('c'));
    type_line(&mut a, "help open");
    match a.handle_key(Key::Enter) {
        Some(AppEvent::ShowDialog(title, body)) => {
            assert_eq!(title, "Help for open command");
            assert_eq!(body, "Opens the given directory as the workspace.\nUsage: open <path>");
            assert!(!a.apply_event(AppEvent::ShowDialog(title, body)));
        }
        _ => panic!("expected ShowDialog"),
    }
    assert!(a.show_dialog);
    assert_eq!(a.dialog_title, "Help for open command");
    assert_eq!(a.mode, AppMode::CommandMode);
    a.handle_key(Key::Char('x'));
    a.handle_key(Key::Esc);
    assert_eq!(a.command_buffer, "");
    assert_eq!(a.mode, AppMode::CommandMode);
    a.handle_key(Key::Enter);
    assert!(!a.show_dialog);
    assert_eq!(a.mode, AppMode::CommandMode);
}

#[test]
fn unknown_command_reports_not_found() {
    let mut a = app();
    a.handle_key(Key::Char('c'));
    type_line(&mut a, "bogus");
    assert!(a.handle_key(Key::Enter).is_none());
    assert_eq!(a.status.text, "Command not found!");
    assert_eq!(a.status.level, StatusLevel::ERROR);
    assert_eq!(a.mode, AppMode::CommandMode);
    a.handle_key(Key::Esc);
    assert_eq!(a.mode, AppMode::NormalMode);
}

#[test]
fn bad_arguments_report_invalid_syntax() {
    let mut a = app();
    a.handle_key(Key::Char('c'));
    type_line(&mut a, "o a b");
    assert!(a.handle_key(Key::Enter).is_none());
    assert_eq!(a.status.text, "Invalid syntax! Type `help open`");
    assert_eq!(a.status.level, StatusLevel::ERROR);
}

#[test]
fn quit_alias_publishes_close() {
    let mut a = app();
    a.handle_key(Key::Char('c'));
    type_line(&mut a, "q");
    let ev = a.handle_key(Key::Enter).expect("an event");
    assert!(matches!(ev, AppEvent::Close));
    assert!(!a.apply_event(ev));
    assert!(a.should_close);
}

#[test]
fn backspace_and_empty_submit() {
    let mut a = app();
    a.handle_key(Key::Char('c'));
    type_line(&mut a, "ab");
    a.handle_key(Key::Backspace);
    assert_eq!(a.command_buffer, "a");
    a.handle_key(Key::Backspace);
    a.handle_key(Key::Backspace);
    assert_eq!(a.command_buffer, "");
    assert!(a.handle_key(Key::Enter).is_none());
    assert_eq!(a.status.text, "");
}

#[test]
fn normal_mode_keys() {
    let mut a = app();
    a.handle_key(Key::Char('i'));
    assert_eq!(a.mode, AppMode::InsertMode);
    a.handle_key(Key::Char('q'));
    assert!(!a.should_close);
    a.handle_key(Key::Esc);
    assert_eq!(a.mode, AppMode::NormalMode);
    a.handle_key(Key::Char('f'));
    assert!(!a.file_view);
    a.handle_key(Key::Char('f'));
    a.handle_key(Key::Char('q'));
    assert!(a.should_close);
}

#[test]
fn q_is_ignored_while_dialog_open() {
    let mut a = app();
    a.apply_event(AppEvent::ShowDialog("t".to_string(), "c".to_string()));
    a.handle_key(Key::Char('q'));
    assert!(!a.should_close);
    a.handle_key(Key::Enter);
    assert!(!a.show_dialog);
    a.handle_key(Key::Char('q'));
    assert!(a.should_close);
}

#[test]
fn navigation_and_expand() {
    let mut a = app();
    a.working_path = Some("/tmp".to_string());
    assert!(a.load_explorer(Some(listing())).is_ok());
    assert!(a.items.items.is_empty());
    a.refresh_items();
    assert_eq!(a.items.items.len(), 2);
    a.handle_key(Key::Up);
    assert_eq!(a.items.selected, Some(0));
    a.handle_key(Key::Char(' '));
    assert_eq!(a.items.items.len(), 2);
    assert_eq!(a.items.selected, Some(0));
    a.refresh_items();
    let texts: Vec<String> = a.items.items.iter().map(|r| r.text.clone()).collect();
    assert_eq!(texts, vec!["\u{25bc} src".to_string(), "   lib.rs".to_string(), "notes.md".to_string()]);
    a.handle_key(Key::Down);
    a.handle_key(Key::Down);
    assert_eq!(a.items.selected, Some(2));
    a.handle_key(Key::Down);
    assert_eq!(a.items.selected, Some(0));
    a.handle_key(Key::Char(' '));
    a.refresh_items();
    assert_eq!(a.items.items.len(), 2);
    a.handle_key(Key::Esc);
    assert_eq!(a.items.selected, None);
}

#[test]
fn empty_workspace_placeholder() {
    let mut a = app();
    assert!(a.load_explorer(None).is_ok());
    assert!(a.items.items.is_empty());
    a.refresh_items();
    assert_eq!(a.items.items.len(), 1);
    assert_eq!(a.items.items[0].text, "Empty workspace");
}

#[test]
fn unreadable_workspace_falls_back_to_placeholder() {
    let mut a = app();
    a.working_path = Some("/nope".to_string());
    assert!(a.load_explorer(None).is_err());
    assert_eq!(a.file_list.nodes[0].display_name, "Empty workspace");
    assert!(a.items.items.is_empty());
    a.reload_workspace(None);
    assert_eq!(a.status.text, "Error while loading the explorer");
    assert_eq!(a.status.level, StatusLevel::ERROR);
}

#[test]
fn status_events_and_bus_errors() {
    let mut a = app();
    a.apply_event(AppEvent::SetStatus(Status { text: "hi".to_string(), level: StatusLevel::WARNING }));
    assert_eq!(a.status.text, "hi");
    assert_eq!(a.status.level, StatusLevel::WARNING);
    a.bus_closed();
    assert_eq!(a.status.text, "Error receiving application events: Closed");
    a.report_command_error(&CommandError::ExecutionError(Some("gone".to_string())), "open");
    assert_eq!(a.status.text, "Error while executing the command: gone");
}

#[test]
fn error_texts() {
    assert_eq!(error_status(&CommandError::NotFound, "x").text, "Command not found!");
    assert_eq!(error_status(&CommandError::InvalidSyntax, "help").text, "Invalid syntax! Type `help help`");
    assert_eq!(
        error_status(&CommandError::ExecutionError(None), "quit").text,
        "Error while executing the command: Unknown error"
    );
    assert_eq!(error_status(&CommandError::NotFound, "x").level, StatusLevel::ERROR);
}

#[test]
fn load_explorer_changes_only_the_tree() {
    let mut a = app();
    a.handle_key(Key::Char('c'));
    type_line(&mut a, "ab");
    a.working_path = Some("/tmp".to_string());
    assert!(a.load_explorer(Some(listing())).is_ok());
    assert!(a.items.items.is_empty());
    assert_eq!(a.items.selected, None);
    assert_eq!(a.command_buffer, "ab");
    assert_eq!(a.mode, AppMode::CommandMode);
    assert_eq!(a.file_list.nodes.len(), 2);
}

#[test]
fn reload_gives_fresh_distinct_ids() {
    let mut a = app();
    a.working_path = Some("/tmp".to_string());
    a.load_explorer(Some(listing())).unwrap();
    a.refresh_items();
    a.handle_key(Key::Up);
    a.handle_key(Key::Char(' '));
    assert_eq!(a.file_list.nodes[0].expanded, Some(true));
    let old_ids: Vec<u128> = vec![
        a.file_list.nodes[0].id,
        a.file_list.nodes[1].id,
        a.file_list.nodes[0].children.as_ref().unwrap()[0].id,
    ];
    a.reload_workspace(Some(listing()));
    assert_eq!(a.file_list.nodes[0].expanded, Some(false));
    let new_ids: Vec<u128> = vec![
        a.file_list.nodes[0].id,
        a.file_list.nodes[1].id,
        a.file_list.nodes[0].children.as_ref().unwrap()[0].id,
    ];
    for id in new_ids.iter() {
        assert!(!old_ids.contains(id));
    }
    assert!(new_ids[0] != new_ids[1] && new_ids[1] != new_ids[2] && new_ids[0] != new_ids[2]);
    assert_eq!(a.items.items.len(), 2);
}
