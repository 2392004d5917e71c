use ledit::commands::{split_words, Command, CommandError, CommandParser, CustomCommand, HelpCommand, OpenCommand, QuitCommand};
use ledit::util::{AppEvent, StatusLevel};

fn registry() -> CommandParser {
    let mut p = CommandParser::new();
    p.add_command(Command::Quit(QuitCommand));
    p.add_command(Command::Open(OpenCommand));
    let help = HelpCommand::new(&p.commands);
    p.add_command(Command::Help(help));
    p
}

fn words(v: &[&str]) -> Vec<String> {
    v.iter().map(|s| s.to_string()).collect()
}

#[test]
fn alias_and_name_resolve_to_same_command() {
    let p = registry();
    let (a, args_a) = p.parse("q").ok().unwrap();
    let (b, args_b) = p.parse("quit").ok().unwrap();
    assert_eq!(a, b);
    assert_eq!(a, 0);
    assert!(args_a.is_empty() && args_b.is_empty());
    assert_eq!(p.parse("o x").ok().unwrap().0, 1);
    assert_eq!(p.parse("h open").ok().unwrap().0, 2);
}

#[test]
fn unknown_word_is_not_found() {
    let p = registry();
    assert!(matches!(p.parse("bogus"), Err(CommandError::NotFound)));
    assert!(matches!(p.parse(""), Err(CommandError::NotFound)));
    assert!(matches!(p.parse("   "), Err(CommandError::NotFound)));
    assert!(matches!(CommandParser::new().parse("quit"), Err(CommandError::NotFound)));
}

#[test]
fn parse_gives_remaining_words_as_arguments() {
    let p = registry();
    let (k, args) = p.parse("  open   /tmp  ").ok().unwrap();
    assert_eq!(k, 1);
    assert_eq!(args, words(&["/tmp"]));
}

#[test]
fn first_registered_command_wins() {
    let mut p = CommandParser::new();
    p.add_command(Command::Open(OpenCommand));
    p.add_command(Command::Quit(QuitCommand));
    p.add_command(Command::Quit(QuitCommand));
    assert_eq!(p.parse("q").ok().unwrap().0, 1);
}

#[test]
fn split_words_on_white_space() {
    assert_eq!(split_words("help  open"), words(&["help", "open"]));
    assert_eq!(split_words("\ta\nb\r c "), words(&["a", "b", "c"]));
    assert!(split_words("").is_empty());
    assert!(split_words(" \t ").is_empty());
    assert_eq!(split_words("\u{e9}t\u{e9} x"), words(&["\u{e9}t\u{e9}", "x"]));
}

#[test]
fn quit_publishes_close() {
    assert!(matches!(Command::Quit(QuitCommand).execute(&vec![]), Ok(AppEvent::Close)));
    assert!(matches!(Command::Quit(QuitCommand).execute(&words(&["now"])), Err(CommandError::InvalidSyntax)));
}

#[test]
fn open_needs_exactly_one_path() {
    match Command::Open(OpenCommand).execute(&words(&["/tmp"])) {
        Ok(AppEvent::SetWorkspace(w)) => assert_eq!(w, "/tmp"),
        _ => panic!("expected SetWorkspace"),
    }
    assert!(matches!(Command::Open(OpenCommand).execute(&vec![]), Err(CommandError::InvalidSyntax)));
    assert!(matches!(Command::Open(OpenCommand).execute(&words(&["a", "b"])), Err(CommandError::InvalidSyntax)));
}

#[test]
fn help_shows_description_of_known_command() {
    let p = registry();
    let help = &p.commands[2];
    match help.execute(&words(&["open"])) {
        Ok(AppEvent::ShowDialog(title, body)) => {
            assert_eq!(title, "Help for open command");
            assert_eq!(body, Command::Open(OpenCommand).get_description());
            assert_eq!(body, "Opens the given directory as the workspace.\nUsage: open <path>");
        }
        _ => panic!("expected ShowDialog"),
    }
    match help.execute(&words(&["help"])) {
        Ok(AppEvent::ShowDialog(title, body)) => {
            assert_eq!(title, "Help for help command");
            assert_eq!(body, "Get help for the given command\nUsage: help <command name>");
        }
        _ => panic!("expected ShowDialog"),
    }
}

#[test]
fn help_on_unknown_command_sets_error_status() {
    let p = registry();
    match p.commands[2].execute(&words(&["nope"])) {
        Ok(AppEvent::SetStatus(s)) => {
            assert_eq!(s.text, "Command doesn't exist!");
            assert_eq!(s.level, StatusLevel::ERROR);
        }
        _ => panic!("expected SetStatus"),
    }
    assert!(matches!(p.commands[2].execute(&vec![]), Err(CommandError::InvalidSyntax)));
}

#[test]
fn help_table_lists_commands_then_help() {
    let p = registry();
    match &p.commands[2] {
        Command::Help(h) => {
            let names: Vec<&str> = h.commands.iter().map(|e| e.0.as_str()).collect();
            assert_eq!(names, vec!["quit", "open", "help"]);
            assert_eq!(h.commands[0].1, "Quits the application without saving.\nUsage: quit");
            assert_eq!(h.lookup(&"quit".to_string()).unwrap(), h.commands[0].1);
            assert!(h.lookup(&"q".to_string()).is_none());
        }
        _ => panic!("expected help"),
    }
}

#[test]
fn names_and_aliases() {
    assert_eq!(Command::Quit(QuitCommand).get_name(), "quit");
    assert_eq!(Command::Quit(QuitCommand).get_aliases(), words(&["q"]));
    assert_eq!(Command::Open(OpenCommand).get_aliases(), words(&["o"]));
    assert!(Command::Open(OpenCommand).matches(&"o".to_string()));
    assert!(!Command::Open(OpenCommand).matches(&"q".to_string()));
}

fn custom() -> Command {
    Command::Custom(CustomCommand {
        name: "status".to_string(),
        aliases: words(&["st", "s"]),
        description: "Shows a greeting.\nUsage: status".to_string(),
        event: AppEvent::SetWorkspace("/srv".to_string()),
    })
}

#[test]
fn custom_command_publishes_its_event() {
    let mut p = CommandParser::new();
    p.add_command(Command::Quit(QuitCommand));
    p.add_command(custom());
    assert_eq!(p.parse("s").ok().unwrap().0, 1);
    assert_eq!(p.parse("st").ok().unwrap().0, 1);
    assert_eq!(p.parse("status").ok().unwrap().0, 1);
    match p.commands[1].execute(&vec![]) {
        Ok(AppEvent::SetWorkspace(w)) => assert_eq!(w, "/srv"),
        _ => panic!("expected the custom event"),
    }
    assert!(matches!(p.commands[1].execute(&words(&["x"])), Err(CommandError::InvalidSyntax)));
    assert_eq!(p.commands[1].get_aliases(), words(&["st", "s"]));
}

#[test]
fn help_covers_custom_commands() {
    let mut p = CommandParser::new();
    p.add_command(custom());
    let help = HelpCommand::new(&p.commands);
    p.add_command(Command::Help(help));
    match p.commands[1].execute(&words(&["status"])) {
        Ok(AppEvent::ShowDialog(title, body)) => {
            assert_eq!(title, "Help for status command");
            assert_eq!(body, "Shows a greeting.\nUsage: status");
        }
        _ => panic!("expected ShowDialog"),
    }
}
