use vstd::prelude::*;
use crate::commands::{
    command_description, command_name, execute_spec, help_description, help_entries, parse_spec,
    Command, CommandError, CommandErrorView, CommandParser, HelpCommand, OpenCommand, QuitCommand,
};
use crate::list::{clamp_index, next_index, previous_index, StatefulList};
use crate::tree::{
    all_same_but_id, built_forest, empty_workspace_text, entries_view, flatten_nodes, init,
    rows_view, toggle_nodes, tree_ordered, Entry, Nodes, Row, forest_ids, ids_unique, is_placeholder,
};
use crate::util::{AppEvent, AppEventView, AppMode, NodeType, Status, StatusLevel, StatusView};

verus! {

/// A key press, as the state machine sees it.
#[derive(Clone, Copy, Debug, PartialEq, Eq, Structural)]
pub enum Key {
    Char(char),
    Enter,
    Esc,
    Up,
    Down,
    Backspace,
    Other,
}

/// The state of the application, less the terminal and the event channel.
pub struct App {
    pub items: StatefulList<Row>,
    pub file_view: bool,
    pub should_close: bool,
    pub mode: AppMode,
    pub command_buffer: String,
    pub command_parser: CommandParser,
    pub status: Status,
    pub show_dialog: bool,
    pub dialog_content: String,
    pub dialog_title: String,
    pub working_path: Option<String>,
    pub file_list: Nodes,
}

/// Relies on String::push: the character is appended at the end.
#[verifier::external_body]
fn push_char(s: &mut String, c: char)
    ensures
        final(s)@ == old(s)@.push(c),
{
    s.push(c);
}

/// Removes and returns the last character; an empty string stays as it is.
fn pop_char(s: &mut String) -> (r: Option<char>)
    ensures
        old(s)@.len() == 0 ==> r is None && final(s)@ == old(s)@,
        old(s)@.len() > 0 ==> r == Some(old(s)@.last()) && final(s)@ == init(old(s)@),
{
    let n = s.as_str().unicode_len();
    if n == 0 {
        return None;
    }
    let c = s.as_str().get_char(n - 1);
    let rest = String::from_str(s.as_str().substring_char(0, n - 1));
    *s = rest;
    Some(c)
}

/// The status text for a failed command line; `name` is the command's name.
pub open spec fn error_text(e: CommandErrorView, name: Seq<char>) -> Seq<char> {
    match e {
        CommandErrorView::NotFound => "Command not found!"@,
        CommandErrorView::InvalidSyntax => "Invalid syntax! Type `help "@ + name + "`"@,
        CommandErrorView::ExecutionError(Some(m)) => "Error while executing the command: "@ + m,
        CommandErrorView::ExecutionError(None) => "Error while executing the command: Unknown error"@,
    }
}

/// The error-level status for a failed command line.
pub fn error_status(err: &CommandError, name: &str) -> (r: Status)
    ensures
        is_error_status(r, error_text(err@, name@)),
{
    let text = match err {
        CommandError::NotFound => String::from_str("Command not found!"),
        CommandError::InvalidSyntax => String::from_str("Invalid syntax! Type `help ").concat(
            name,
        ).concat("`"),
        CommandError::ExecutionError(Some(m)) => String::from_str(
            "Error while executing the command: ",
        ).concat(m.as_str()),
        CommandError::ExecutionError(None) => String::from_str(
            "Error while executing the command: Unknown error",
        ),
    };
    Status::error(text)
}

/// Submitting a command line: the event it publishes, or the error text it
/// shows.
pub open spec fn dispatch_spec(cmds: Seq<Command>, line: Seq<char>) -> (
    Option<AppEventView>,
    Option<Seq<char>>,
) {
    match parse_spec(cmds, line) {
        Err(e) => (None, Some(error_text(e, Seq::empty()))),
        Ok((k, args)) => match execute_spec(cmds[k], args) {
            Ok(ev) => (Some(ev), None),
            Err(e) => (None, Some(error_text(e, command_name(cmds[k])))),
        },
    }
}

pub open spec fn event_opt_view(e: Option<AppEvent>) -> Option<AppEventView> {
    match e {
        Some(v) => Some(v@),
        None => None,
    }
}

/// The rows on display match the tree, and the cursor was kept within them.
pub open spec fn rows_refreshed(a: App, b: App) -> bool {
    &&& rows_view(b.items.items@) == flatten_nodes(b.file_list@)
    &&& b.items.selected == clamp_index(a.items.selected, b.items.items@.len())
}

/// Space in normal mode: the node of the selected row is expanded or
/// collapsed; the rows on display and the cursor are left for the next
/// refresh.
pub open spec fn toggled_selected(a: App, b: App) -> bool {
    if a.items.selected is Some && (a.items.selected.unwrap() as int) < a.items.items@.len() {
        &&& b.file_list@ == toggle_nodes(
            a.file_list@,
            a.items.items@[a.items.selected.unwrap() as int].id,
        )
        &&& b == App { file_list: b.file_list, ..a }
    } else {
        b == a
    }
}

/// A key in normal mode with no dialog open.
pub open spec fn normal_step(a: App, b: App, key: Key) -> bool {
    match key {
        Key::Char('q') => b == App { should_close: true, ..a },
        Key::Char('f') => b == App { file_view: !a.file_view, ..a },
        Key::Char('c') => {
            &&& b.command_buffer@.len() == 0
            &&& b == App { mode: AppMode::CommandMode, command_buffer: b.command_buffer, ..a }
        },
        Key::Char('i') => b == App { mode: AppMode::InsertMode, ..a },
        Key::Char(' ') => toggled_selected(a, b),
        Key::Esc => if a.file_view {
            b == App { items: StatefulList { selected: None, items: a.items.items }, ..a }
        } else {
            b == a
        },
        Key::Down => if a.file_view {
            b == App {
                items: StatefulList {
                    selected: next_index(a.items.selected, a.items.items@.len()),
                    items: a.items.items,
                },
                ..a
            }
        } else {
            b == a
        },
        Key::Up => if a.file_view {
            b == App {
                items: StatefulList {
                    selected: previous_index(a.items.selected, a.items.items@.len()),
                    items: a.items.items,
                },
                ..a
            }
        } else {
            b == a
        },
        _ => b == a,
    }
}

/// A key in command mode with no dialog open; `out` is the event to publish.
pub open spec fn command_step(a: App, b: App, key: Key, out: Option<AppEventView>) -> bool {
    match key {
        Key::Esc => {
            &&& out is None
            &&& b.command_buffer@.len() == 0
            &&& b == App { mode: AppMode::NormalMode, command_buffer: b.command_buffer, ..a }
        },
        Key::Backspace => {
            &&& out is None
            &&& b.command_buffer@ == if a.command_buffer@.len() > 0 {
                init(a.command_buffer@)
            } else {
                a.command_buffer@
            }
            &&& b == App { command_buffer: b.command_buffer, ..a }
        },
        Key::Char(c) => {
            &&& out is None
            &&& b.command_buffer@ == a.command_buffer@.push(c)
            &&& b == App { command_buffer: b.command_buffer, ..a }
        },
        Key::Enter => if a.command_buffer@.len() == 0 {
            out is None && b == a
        } else {
            let (ev, err) = dispatch_spec(a.command_parser.commands@, a.command_buffer@);
            &&& out == ev
            &&& b.command_buffer@.len() == 0
            &&& match err {
                Some(t) => b.status@ == StatusView { text: t, level: StatusLevel::ERROR },
                None => b.status == a.status,
            }
            &&& b == App { command_buffer: b.command_buffer, status: b.status, ..a }
        },
        _ => out is None && b == a,
    }
}

/// An error-level status with the text `t`.
pub open spec fn is_error_status(s: Status, t: Seq<char>) -> bool {
    s@ == StatusView { text: t, level: StatusLevel::ERROR }
}

/// `b` is `a` with only the command registry changed.
pub open spec fn same_but_parser(a: App, b: App) -> bool {
    b == App { command_parser: b.command_parser, ..a }
}

/// `b` is `a` with only the rows on display changed.
pub open spec fn same_but_items(a: App, b: App) -> bool {
    b == App { items: b.items, ..a }
}

/// `b` is `a` with only the tree changed.
pub open spec fn same_but_file_list(a: App, b: App) -> bool {
    b == App { file_list: b.file_list, ..a }
}

/// `b` is `a` with only the status changed.
pub open spec fn same_but_status(a: App, b: App) -> bool {
    b == App { status: b.status, ..a }
}

/// `b` is `a` with only the tree, the rows on display and the status changed.
pub open spec fn same_but_tree_and_status(a: App, b: App) -> bool {
    b == App { file_list: b.file_list, items: b.items, status: b.status, ..a }
}

/// `b` is `a` with the close flag set.
pub open spec fn closing(a: App, b: App) -> bool {
    b == App { should_close: true, ..a }
}

/// The built-in commands registered after `before`, the help table covering
/// every command registered ahead of it.
pub open spec fn commands_set_up(before: Seq<Command>, after: Seq<Command>) -> bool {
    let mid = before.push(Command::Quit(QuitCommand)).push(Command::Open(OpenCommand));
    &&& after.len() == mid.len() + 1
    &&& after.subrange(0, mid.len() as int) == mid
    &&& after.last() matches Command::Help(h) && help_entries(h) == mid.map_values(
        |c: Command| (command_name(c), command_description(c)),
    ).push(("help"@, help_description()))
}

/// The tree after loading `listing` for the working path of `a`.
pub open spec fn explorer_loaded(a: App, b: App, listing: Option<Vec<Entry>>, ok: bool) -> bool {
    match (a.working_path, listing) {
        (Some(_), Some(es)) => {
            &&& ok
            &&& all_same_but_id(b.file_list@, built_forest(entries_view(es@), 0))
            &&& tree_ordered(b.file_list@)
        },
        (Some(_), None) => !ok && is_placeholder(b.file_list@),
        (None, _) => ok && is_placeholder(b.file_list@),
    }
}

/// The state after applying `event` to `a`.
pub open spec fn event_applied(a: App, b: App, event: AppEvent) -> bool {
    match event {
        AppEvent::Close => b == App { should_close: true, ..a },
        AppEvent::ShowDialog(t, c) => b == App {
            show_dialog: true,
            dialog_title: t,
            dialog_content: c,
            ..a
        },
        AppEvent::SetStatus(s) => b == App { status: s, ..a },
        AppEvent::SetWorkspace(w) => b == App { working_path: Some(w), ..a },
    }
}

/// A key handled by the state machine; `out` is the event to publish. While
/// a dialog is open only Enter counts, and it closes the dialog.
pub open spec fn key_handled(a: App, b: App, key: Key, out: Option<AppEventView>) -> bool {
    if a.show_dialog {
        out is None && b == if key == Key::Enter {
            App { show_dialog: false, ..a }
        } else {
            a
        }
    } else {
        match a.mode {
            AppMode::InsertMode => out is None && b == if key == Key::Esc {
                App { mode: AppMode::NormalMode, ..a }
            } else {
                a
            },
            AppMode::NormalMode => out is None && normal_step(a, b, key),
            AppMode::CommandMode => command_step(a, b, key, out),
        }
    }
}

/// Submitting the command line of `a`.
pub open spec fn dispatched(a: App, b: App, out: Option<AppEventView>) -> bool {
    let (ev, err) = dispatch_spec(a.command_parser.commands@, a.command_buffer@);
    &&& out == ev
    &&& match err {
        Some(t) => is_error_status(b.status, t),
        None => b.status == a.status,
    }
    &&& same_but_status(a, b)
}

impl App {
    pub fn new() -> (r: App)
        ensures
            r.items.selected is None,
            r.items.items@.len() == 0,
            r.file_view,
            !r.should_close,
            r.mode == AppMode::NormalMode,
            r.command_buffer@.len() == 0,
            r.command_parser.commands@.len() == 0,
            r.status.text@.len() == 0,
            r.status.level == StatusLevel::INFO,
            !r.show_dialog,
            r.dialog_content@.len() == 0,
            r.dialog_title@.len() == 0,
            r.working_path is None,
            r.file_list@.len() == 0,
    {
        App {
            items: StatefulList::new(),
            file_view: true,
            should_close: false,
            mode: AppMode::NormalMode,
            command_buffer: String::new(),
            command_parser: CommandParser::new(),
            status: Status::default(),
            show_dialog: false,
            dialog_content: String::new(),
            dialog_title: String::new(),
            working_path: None,
            file_list: Nodes::new(Vec::new()),
        }
    }

    /// Registers the built-in commands `quit`, `open` and `help`, in that
    /// order; the help table covers every command registered before it.
    pub fn setup_commands(&mut self)
        ensures
            commands_set_up(old(self).command_parser.commands@, final(self).command_parser.commands@),
            same_but_parser(*old(self), *final(self)),
    {
        self.command_parser.add_command(Command::Quit(QuitCommand));
        self.command_parser.add_command(Command::Open(OpenCommand));
        let help = HelpCommand::new(&self.command_parser.commands);
        self.command_parser.add_command(Command::Help(help));
        let ghost cmds = self.command_parser.commands@;
        assert(cmds.subrange(0, cmds.len() - 1) =~= old(self).command_parser.commands@.push(
            Command::Quit(QuitCommand),
        ).push(Command::Open(OpenCommand)));
    }

    /// Asks the main loop to stop.
    pub fn close(&mut self)
        ensures
            closing(*old(self), *final(self)),
    {
        self.should_close = true;
    }

    /// Puts the rows of the current tree on display, keeping the cursor
    /// within them.
    pub fn refresh_items(&mut self)
        ensures
            rows_refreshed(*old(self), *final(self)),
            same_but_items(*old(self), *final(self)),
    {
        let rows = self.file_list.flatten();
        self.items.set_items(rows);
    }

    /// Rebuilds the tree, with ids unique within it and unused by the tree it
    /// replaces. With no working path the tree is the placeholder.
    /// Otherwise `listing` holds the entries of the working directory, or
    /// `None` when it could not be read: the tree then falls back to the
    /// placeholder and the call fails.
    pub fn load_explorer(&mut self, listing: Option<Vec<Entry>>) -> (r: Result<(), ()>)
        ensures
            explorer_loaded(*old(self), *final(self), listing, r is Ok),
            ids_unique(final(self).file_list@),
            forest_ids(final(self).file_list@).disjoint(forest_ids(old(self).file_list@)),
            same_but_file_list(*old(self), *final(self)),
    {
        let mut r: Result<(), ()> = Ok(());
        if self.working_path.is_some() {
            match listing {
                Some(es) => {
                    self.file_list = self.file_list.rebuild(&es);
                },
                None => {
                    self.file_list = self.file_list.rebuild_empty();
                    r = Err(());
                },
            }
        } else {
            self.file_list = self.file_list.rebuild_empty();
        }
        r
    }

    /// `load_explorer`, reporting a failure in the status bar, then the
    /// rows of the new tree put on display.
    pub fn reload_workspace(&mut self, listing: Option<Vec<Entry>>)
        ensures
            ({
                let failed = old(self).working_path is Some && listing is None;
                &&& explorer_loaded(*old(self), *final(self), listing, !failed)
                &&& failed ==> is_error_status(final(self).status, "Error while loading the explorer"@)
                &&& !failed ==> final(self).status == old(self).status
            }),
            rows_refreshed(*old(self), *final(self)),
            same_but_tree_and_status(*old(self), *final(self)),
    {
        if self.load_explorer(listing).is_err() {
            self.status = Status::error(String::from_str("Error while loading the explorer"));
        }
        self.refresh_items();
    }

    /// Applies an event taken from the bus. Returns true when the workspace
    /// changed and must be listed again for `reload_workspace`.
    pub fn apply_event(&mut self, event: AppEvent) -> (reload: bool)
        ensures
            reload == event is SetWorkspace,
            event_applied(*old(self), *final(self), event),
    {
        match event {
            AppEvent::Close => {
                self.close();
                false
            },
            AppEvent::ShowDialog(t, c) => {
                self.show_dialog = true;
                self.dialog_title = t;
                self.dialog_content = c;
                false
            },
            AppEvent::SetStatus(s) => {
                self.status = s;
                false
            },
            AppEvent::SetWorkspace(w) => {
                self.working_path = Some(w);
                true
            },
        }
    }

    /// Records that the event bus was found closed.
    pub fn bus_closed(&mut self)
        ensures
            is_error_status(final(self).status, "Error receiving application events: Closed"@),
            same_but_status(*old(self), *final(self)),
    {
        self.status = Status::error(String::from_str("Error receiving application events: Closed"));
    }

    /// Shows a failed command line in the status bar.
    pub fn report_command_error(&mut self, err: &CommandError, name: &str)
        ensures
            is_error_status(final(self).status, error_text(err@, name@)),
            same_but_status(*old(self), *final(self)),
    {
        self.status = error_status(err, name);
    }

    fn toggle_selected(&mut self)
        ensures
            toggled_selected(*old(self), *final(self)),
    {
        if let Some(i) = self.items.selected {
            if i < self.items.items.len() {
                let id = self.items.items[i].id;
                self.file_list.toggle_expand(id);
            }
        }
    }

    fn normal_key(&mut self, key: Key)
        ensures
            normal_step(*old(self), *final(self), key),
    {
        match key {
            Key::Char('q') => self.close(),
            Key::Char('f') => {
                self.file_view = !self.file_view;
            },
            Key::Char('c') => {
                self.mode = AppMode::CommandMode;
                self.command_buffer = String::new();
            },
            Key::Char('i') => {
                self.mode = AppMode::InsertMode;
            },
            Key::Char(' ') => self.toggle_selected(),
            Key::Esc => {
                if self.file_view {
                    self.items.unselect();
                }
            },
            Key::Down => {
                if self.file_view {
                    self.items.next();
                }
            },
            Key::Up => {
                if self.file_view {
                    self.items.previous();
                }
            },
            _ => {},
        }
    }

    fn dispatch(&mut self) -> (out: Option<AppEvent>)
        ensures
            dispatched(*old(self), *final(self), event_opt_view(out)),
    {
        match self.command_parser.parse(self.command_buffer.as_str()) {
            Ok((k, args)) => {
                let cmd = &self.command_parser.commands[k];
                match cmd.execute(&args) {
                    Ok(ev) => Some(ev),
                    Err(e) => {
                        let name = cmd.get_name();
                        self.status = error_status(&e, name.as_str());
                        None
                    },
                }
            },
            Err(e) => {
                proof {
                    reveal_strlit("");
                    assert(""@ =~= Seq::<char>::empty());
                }
                self.status = error_status(&e, "");
                None
            },
        }
    }

    fn command_key(&mut self, key: Key) -> (out: Option<AppEvent>)
        ensures
            command_step(*old(self), *final(self), key, event_opt_view(out)),
    {
        match key {
            Key::Esc => {
                self.mode = AppMode::NormalMode;
                self.command_buffer = String::new();
                None
            },
            Key::Backspace => {
                pop_char(&mut self.command_buffer);
                None
            },
            Key::Char(c) => {
                push_char(&mut self.command_buffer, c);
                None
            },
            Key::Enter => {
                if self.command_buffer.as_str().unicode_len() == 0 {
                    None
                } else {
                    let out = self.dispatch();
                    self.command_buffer = String::new();
                    out
                }
            },
            _ => None,
        }
    }

    /// Handles one key press and gives the event that a submitted command
    /// asks to publish on the bus, if any.
    pub fn handle_key(&mut self, key: Key) -> (out: Option<AppEvent>)
        ensures
            key_handled(*old(self), *final(self), key, event_opt_view(out)),
    {
        if self.show_dialog {
            if key == Key::Enter {
                self.show_dialog = false;
            }
            return None;
        }
        match self.mode {
            AppMode::InsertMode => {
                if key == Key::Esc {
                    self.mode = AppMode::NormalMode;
                }
                None
            },
            AppMode::NormalMode => {
                self.normal_key(key);
                None
            },
            AppMode::CommandMode => self.command_key(key),
        }
    }
}

} // verus!
