use vstd::prelude::*;
use crate::tree::init;
use crate::util::{AppEvent, AppEventView, Status, StatusLevel, StatusView};

verus! {

/// Why a command line could not be carried out.
pub enum CommandError {
    /// No registered command has the line's first word as name or alias.
    NotFound,
    /// The command was given arguments of the wrong number or shape.
    InvalidSyntax,
    /// The command's effect could not be delivered.
    ExecutionError(Option<String>),
}

pub enum CommandErrorView {
    NotFound,
    InvalidSyntax,
    ExecutionError(Option<Seq<char>>),
}

impl View for CommandError {
    type V = CommandErrorView;

    open spec fn view(&self) -> CommandErrorView {
        match self {
            CommandError::NotFound => CommandErrorView::NotFound,
            CommandError::InvalidSyntax => CommandErrorView::InvalidSyntax,
            CommandError::ExecutionError(None) => CommandErrorView::ExecutionError(None),
            CommandError::ExecutionError(Some(m)) => CommandErrorView::ExecutionError(Some(m@)),
        }
    }
}

/// `quit`: asks the application to close.
pub struct QuitCommand;

/// `open <path>`: asks the application to open another workspace.
pub struct OpenCommand;

/// `help <command name>`: shows the description of a command.
pub struct HelpCommand {
    /// Command names with their descriptions; a later entry for a name
    /// replaces an earlier one.
    pub commands: Vec<(String, String)>,
}

/// A command registered by the application beyond the built-in ones: it
/// takes no arguments and publishes its event.
pub struct CustomCommand {
    pub name: String,
    pub aliases: Vec<String>,
    pub description: String,
    pub event: AppEvent,
}

/// The commands the application knows.
pub enum Command {
    Quit(QuitCommand),
    Open(OpenCommand),
    Help(HelpCommand),
    Custom(CustomCommand),
}

pub open spec fn quit_description() -> Seq<char> {
    "Quits the application without saving.\nUsage: quit"@
}

pub open spec fn open_description() -> Seq<char> {
    "Opens the given directory as the workspace.\nUsage: open <path>"@
}

pub open spec fn help_description() -> Seq<char> {
    "Get help for the given command\nUsage: help <command name>"@
}

pub open spec fn command_name(c: Command) -> Seq<char> {
    match c {
        Command::Quit(_) => "quit"@,
        Command::Open(_) => "open"@,
        Command::Help(_) => "help"@,
        Command::Custom(c) => c.name@,
    }
}

pub open spec fn command_aliases(c: Command) -> Seq<Seq<char>> {
    match c {
        Command::Quit(_) => seq!["q"@],
        Command::Open(_) => seq!["o"@],
        Command::Help(_) => seq!["h"@],
        Command::Custom(c) => words_view(c.aliases@),
    }
}

pub open spec fn command_description(c: Command) -> Seq<char> {
    match c {
        Command::Quit(_) => quit_description(),
        Command::Open(_) => open_description(),
        Command::Help(_) => help_description(),
        Command::Custom(c) => c.description@,
    }
}

pub open spec fn words_view(v: Seq<String>) -> Seq<Seq<char>> {
    v.map_values(|s: String| s@)
}

pub open spec fn help_entries(h: HelpCommand) -> Seq<(Seq<char>, Seq<char>)> {
    h.commands@.map_values(|p: (String, String)| (p.0@, p.1@))
}

/// The description last recorded for `name`.
pub open spec fn lookup_last(s: Seq<(Seq<char>, Seq<char>)>, name: Seq<char>) -> Option<Seq<char>>
    decreases s.len(),
{
    if s.len() == 0 {
        None
    } else if s.last().0 == name {
        Some(s.last().1)
    } else {
        lookup_last(init(s), name)
    }
}

pub open spec fn help_title(name: Seq<char>) -> Seq<char> {
    "Help for "@ + name + " command"@
}

pub open spec fn unknown_command_text() -> Seq<char> {
    "Command doesn't exist!"@
}

/// What running `c` with `args` asks of the application.
pub open spec fn execute_spec(c: Command, args: Seq<Seq<char>>) -> Result<
    AppEventView,
    CommandErrorView,
> {
    match c {
        Command::Quit(_) => if args.len() == 0 {
            Ok(AppEventView::Close)
        } else {
            Err(CommandErrorView::InvalidSyntax)
        },
        Command::Open(_) => if args.len() == 1 {
            Ok(AppEventView::SetWorkspace(args[0]))
        } else {
            Err(CommandErrorView::InvalidSyntax)
        },
        Command::Help(h) => if args.len() == 1 {
            match lookup_last(help_entries(h), args[0]) {
                Some(d) => Ok(AppEventView::ShowDialog(help_title(args[0]), d)),
                None => Ok(
                    AppEventView::SetStatus(
                        StatusView { text: unknown_command_text(), level: StatusLevel::ERROR },
                    ),
                ),
            }
        } else {
            Err(CommandErrorView::InvalidSyntax)
        },
        Command::Custom(c) => if args.len() == 0 {
            Ok(c.event@)
        } else {
            Err(CommandErrorView::InvalidSyntax)
        },
    }
}

pub open spec fn outcome_view(r: Result<AppEvent, CommandError>) -> Result<
    AppEventView,
    CommandErrorView,
> {
    match r {
        Ok(e) => Ok(e@),
        Err(e) => Err(e@),
    }
}

fn text(s: &str) -> (r: String)
    ensures
        r@ == s@,
{
    String::from_str(s)
}

impl HelpCommand {
    /// A help table with the name and description of each given command, in
    /// order, followed by an entry for `help` itself.
    pub fn new(commands: &Vec<Command>) -> (r: HelpCommand)
        ensures
            help_entries(r) == commands@.map_values(
                |c: Command| (command_name(c), command_description(c)),
            ).push(("help"@, help_description())),
    {
        let ghost want = commands@.map_values(
            |c: Command| (command_name(c), command_description(c)),
        );
        let mut cmds: Vec<(String, String)> = Vec::new();
        let mut i: usize = 0;
        while i < commands.len()
            invariant
                i <= commands.len(),
                cmds@.len() == i,
                want == commands@.map_values(
                    |c: Command| (command_name(c), command_description(c)),
                ),
                help_entries(HelpCommand { commands: cmds }) == want.subrange(0, i as int),
            decreases commands.len() - i,
        {
            let c = &commands[i];
            let ghost before = cmds@;
            let entry = (c.get_name(), c.get_description());
            cmds.push(entry);
            proof {
                let got = help_entries(HelpCommand { commands: cmds });
                assert(cmds@ == before.push(entry));
                assert(got.len() == i + 1);
                assert forall|k: int| 0 <= k < i + 1 implies got[k] == want[k] by {
                    if k < i {
                        assert(cmds@[k] == before[k]);
                        assert(before.map_values(|p: (String, String)| (p.0@, p.1@))[k] == want[k]);
                    } else {
                        assert(cmds@[k] == entry);
                    }
                }
                assert(got =~= want.subrange(0, i + 1));
            }
            i += 1;
        }
        let ghost before = cmds@;
        let entry = (text("help"), text("Get help for the given command\nUsage: help <command name>"));
        cmds.push(entry);
        let r = HelpCommand { commands: cmds };
        proof {
            let got = help_entries(r);
            assert(want.subrange(0, i as int) =~= want);
            assert forall|k: int| 0 <= k < want.len() + 1 implies got[k] == want.push(("help"@, help_description()))[k] by {
                if k < want.len() {
                    assert(cmds@[k] == before[k]);
                    assert(before.map_values(|p: (String, String)| (p.0@, p.1@))[k] == want[k]);
                } else {
                    assert(cmds@[k] == entry);
                }
            }
            assert(got =~= want.push(("help"@, help_description())));
        }
        r
    }

    /// The description recorded for `name`.
    pub fn lookup(&self, name: &String) -> (r: Option<String>)
        ensures
            match r {
                Some(d) => lookup_last(help_entries(*self), name@) == Some(d@),
                None => lookup_last(help_entries(*self), name@) is None,
            },
    {
        let ghost s = help_entries(*self);
        let mut i: usize = self.commands.len();
        assert(s.subrange(0, i as int) =~= s);
        while i > 0
            invariant
                i <= self.commands.len(),
                s == help_entries(*self),
                lookup_last(s, name@) == lookup_last(s.subrange(0, i as int), name@),
            decreases i,
        {
            let entry = &self.commands[i - 1];
            if entry.0 == *name {
                return Some(entry.1.clone());
            }
            assert(init(s.subrange(0, i as int)) =~= s.subrange(0, i - 1));
            i -= 1;
        }
        None
    }
}

impl Command {
    pub fn get_name(&self) -> (r: String)
        ensures
            r@ == command_name(*self),
    {
        match self {
            Command::Quit(_) => text("quit"),
            Command::Open(_) => text("open"),
            Command::Help(_) => text("help"),
            Command::Custom(c) => c.name.clone(),
        }
    }

    pub fn get_aliases(&self) -> (r: Vec<String>)
        ensures
            words_view(r@) == command_aliases(*self),
    {
        let mut r: Vec<String> = Vec::new();
        match self {
            Command::Quit(_) => r.push(text("q")),
            Command::Open(_) => r.push(text("o")),
            Command::Help(_) => r.push(text("h")),
            Command::Custom(c) => {
                let mut j: usize = 0;
                while j < c.aliases.len()
                    invariant
                        j <= c.aliases.len(),
                        r@.len() == j,
                        words_view(r@) == words_view(c.aliases@).subrange(0, j as int),
                    decreases c.aliases.len() - j,
                {
                    let ghost before = r@;
                    r.push(c.aliases[j].clone());
                    assert forall|k: int| 0 <= k < j implies r@[k]@ == before[k]@ by {
                        assert(words_view(before)[k] == before[k]@);
                    }
                    assert(words_view(r@) =~= words_view(c.aliases@).subrange(0, j + 1));
                    j += 1;
                }
                assert(words_view(c.aliases@).subrange(0, j as int) =~= words_view(c.aliases@));
            },
        }
        assert(words_view(r@) =~= command_aliases(*self));
        r
    }

    pub fn get_description(&self) -> (r: String)
        ensures
            r@ == command_description(*self),
    {
        match self {
            Command::Quit(_) => text("Quits the application without saving.\nUsage: quit"),
            Command::Open(_) => text("Opens the given directory as the workspace.\nUsage: open <path>"),
            Command::Help(_) => text("Get help for the given command\nUsage: help <command name>"),
            Command::Custom(c) => c.description.clone(),
        }
    }

    /// Checks the arguments and gives the event that the command publishes.
    pub fn execute(&self, args: &Vec<String>) -> (r: Result<AppEvent, CommandError>)
        ensures
            outcome_view(r) == execute_spec(*self, words_view(args@)),
    {
        match self {
            Command::Quit(_) => {
                if args.len() == 0 {
                    Ok(AppEvent::Close)
                } else {
                    Err(CommandError::InvalidSyntax)
                }
            },
            Command::Open(_) => {
                if args.len() == 1 {
                    Ok(AppEvent::SetWorkspace(args[0].clone()))
                } else {
                    Err(CommandError::InvalidSyntax)
                }
            },
            Command::Help(h) => {
                if args.len() == 1 {
                    let name = &args[0];
                    match h.lookup(name) {
                        Some(d) => {
                            let title = text("Help for ").concat(name.as_str()).concat(" command");
                            Ok(AppEvent::ShowDialog(title, d))
                        },
                        None => Ok(AppEvent::SetStatus(Status::error(text("Command doesn't exist!")))),
                    }
                } else {
                    Err(CommandError::InvalidSyntax)
                }
            },
            Command::Custom(c) => {
                if args.len() == 0 {
                    Ok(c.event.clone())
                } else {
                    Err(CommandError::InvalidSyntax)
                }
            },
        }
    }
}

// ----- reading a command line -----

pub open spec fn is_space(c: char) -> bool {
    c == ' ' || c == '\t' || c == '\n' || c == '\r' || c == '\x0C'
}

/// Reading `s` left to right: the words completed so far and the word still
/// being read.
pub open spec fn scan(s: Seq<char>) -> (Seq<Seq<char>>, Seq<char>)
    decreases s.len(),
{
    if s.len() == 0 {
        (Seq::empty(), Seq::empty())
    } else {
        let (done, cur) = scan(init(s));
        let c = s.last();
        if is_space(c) {
            if cur.len() > 0 {
                (done.push(cur), Seq::empty())
            } else {
                (done, Seq::empty())
            }
        } else {
            (done, cur.push(c))
        }
    }
}

/// The words of `s`: its maximal runs of characters other than white space.
pub open spec fn tokens(s: Seq<char>) -> Seq<Seq<char>> {
    let (done, cur) = scan(s);
    if cur.len() > 0 {
        done.push(cur)
    } else {
        done
    }
}

fn is_space_char(c: char) -> (r: bool)
    ensures
        r == is_space(c),
{
    c == ' ' || c == '\t' || c == '\n' || c == '\r' || c == '\x0C'
}

/// The words of a line, split at white space.
pub fn split_words(line: &str) -> (r: Vec<String>)
    ensures
        words_view(r@) == tokens(line@),
{
    let n = line.unicode_len();
    let mut words: Vec<String> = Vec::new();
    let mut start: usize = 0;
    let mut in_word = false;
    let mut i: usize = 0;
    assert(line@.subrange(0, 0) =~= Seq::<char>::empty());
    while i < n
        invariant
            i <= n,
            n == line@.len(),
            start <= i,
            in_word ==> start < i,
            scan(line@.subrange(0, i as int)) == (
                words_view(words@),
                if in_word {
                    line@.subrange(start as int, i as int)
                } else {
                    Seq::empty()
                },
            ),
        decreases n - i,
    {
        let c = line.get_char(i);
        let ghost before = words@;
        assert(init(line@.subrange(0, i + 1)) =~= line@.subrange(0, i as int));
        assert(line@.subrange(0, i + 1).last() == c);
        if is_space_char(c) {
            if in_word {
                let w = String::from_str(line.substring_char(start, i));
                words.push(w);
                assert(words_view(words@) =~= words_view(before).push(line@.subrange(start as int, i as int)));
                in_word = false;
            }
        } else {
            if in_word {
                assert(line@.subrange(start as int, i as int).push(c) =~= line@.subrange(start as int, i + 1));
            } else {
                in_word = true;
                start = i;
                assert(Seq::<char>::empty().push(c) =~= line@.subrange(start as int, i + 1));
            }
        }
        i += 1;
    }
    assert(line@.subrange(0, n as int) =~= line@);
    if in_word {
        let ghost before = words@;
        let w = String::from_str(line.substring_char(start, n));
        words.push(w);
        assert(words_view(words@) =~= words_view(before).push(line@.subrange(start as int, n as int)));
    }
    words
}

/// True when `w` is the name or one of the aliases of `c`.
pub open spec fn matches_word(c: Command, w: Seq<char>) -> bool {
    command_name(c) == w || command_aliases(c).contains(w)
}

/// The position of the first command of `cmds` that `w` names.
pub open spec fn first_match(cmds: Seq<Command>, w: Seq<char>) -> Option<int>
    decreases cmds.len(),
{
    if cmds.len() == 0 {
        None
    } else {
        match first_match(init(cmds), w) {
            Some(k) => Some(k),
            None => if matches_word(cmds.last(), w) {
                Some(cmds.len() - 1)
            } else {
                None
            },
        }
    }
}

/// The command that a line names, by position in the registry, with the
/// rest of the line's words as its arguments.
pub open spec fn parse_spec(cmds: Seq<Command>, line: Seq<char>) -> Result<
    (int, Seq<Seq<char>>),
    CommandErrorView,
> {
    let t = tokens(line);
    if t.len() == 0 {
        Err(CommandErrorView::NotFound)
    } else {
        match first_match(cmds, t[0]) {
            Some(k) => Ok((k, t.drop_first())),
            None => Err(CommandErrorView::NotFound),
        }
    }
}

proof fn lemma_first_match_at(cmds: Seq<Command>, i: int, w: Seq<char>)
    requires
        0 <= i < cmds.len(),
        first_match(cmds.subrange(0, i), w) is None,
        matches_word(cmds[i], w),
    ensures
        first_match(cmds, w) == Some(i),
    decreases cmds.len(),
{
    if i == cmds.len() - 1 {
        assert(init(cmds) =~= cmds.subrange(0, i));
    } else {
        assert(init(cmds).subrange(0, i) =~= cmds.subrange(0, i));
        lemma_first_match_at(init(cmds), i, w);
    }
}

impl Command {
    /// True when `word` is this command's name or one of its aliases.
    pub fn matches(&self, word: &String) -> (r: bool)
        ensures
            r == matches_word(*self, word@),
    {
        if self.get_name() == *word {
            return true;
        }
        let aliases = self.get_aliases();
        let ghost a = command_aliases(*self);
        let mut j: usize = 0;
        while j < aliases.len()
            invariant
                j <= aliases.len(),
                words_view(aliases@) == a,
                a == command_aliases(*self),
                forall|k: int| 0 <= k < j ==> a[k] != word@,
            decreases aliases.len() - j,
        {
            if aliases[j] == *word {
                assert(a[j as int] == word@);
                assert(a.contains(word@));
                return true;
            }
            j += 1;
        }
        false
    }
}

/// The registry of commands, searched in the order they were added.
pub struct CommandParser {
    pub commands: Vec<Command>,
}

impl CommandParser {
    pub fn new() -> (r: CommandParser)
        ensures
            r.commands@.len() == 0,
    {
        CommandParser { commands: Vec::new() }
    }

    /// Registers a command after those already there.
    pub fn add_command(&mut self, command: Command)
        ensures
            final(self).commands@ == old(self).commands@.push(command),
    {
        self.commands.push(command);
    }

    /// Finds the command that the first word of `buffer` names, by its name
    /// or an alias, and gives its position with the remaining words.
    pub fn parse(&self, buffer: &str) -> (r: Result<(usize, Vec<String>), CommandError>)
        ensures
            match r {
                Ok((k, args)) => k < self.commands@.len() && parse_spec(self.commands@, buffer@)
                    == Ok::<(int, Seq<Seq<char>>), CommandErrorView>((k as int, words_view(args@))),
                Err(e) => parse_spec(self.commands@, buffer@) == Err::<
                    (int, Seq<Seq<char>>),
                    CommandErrorView,
                >(e@),
            },
    {
        let mut words = split_words(buffer);
        if words.len() == 0 {
            return Err(CommandError::NotFound);
        }
        let ghost cmds = self.commands@;
        let ghost w = words@[0]@;
        let mut i: usize = 0;
        assert(cmds.subrange(0, 0) =~= Seq::<Command>::empty());
        while i < self.commands.len()
            invariant
                i <= self.commands.len(),
                cmds == self.commands@,
                words@.len() > 0,
                w == words@[0]@,
                words_view(words@) == tokens(buffer@),
                first_match(cmds.subrange(0, i as int), w) is None,
            decreases self.commands.len() - i,
        {
            if self.commands[i].matches(&words[0]) {
                proof {
                    lemma_first_match_at(cmds, i as int, w);
                }
                let ghost all = words@;
                words.remove(0);
                assert(words_view(words@) =~= words_view(all).drop_first());
                assert(tokens(buffer@)[0] == w);
                return Ok((i, words));
            }
            assert(init(cmds.subrange(0, i + 1)) =~= cmds.subrange(0, i as int));
            i += 1;
        }
        assert(cmds.subrange(0, i as int) =~= cmds);
        Err(CommandError::NotFound)
    }
}

proof fn lemma_scan_word(w: Seq<char>)
    requires
        forall|i: int| 0 <= i < w.len() ==> !is_space(#[trigger] w[i]),
    ensures
        scan(w) == (Seq::<Seq<char>>::empty(), w),
    decreases w.len(),
{
    if w.len() > 0 {
        lemma_scan_word(init(w));
        assert(init(w).push(w.last()) =~= w);
    }
}

proof fn lemma_first_match_same(cmds: Seq<Command>, a: Seq<char>, b: Seq<char>)
    requires
        forall|k: int| 0 <= k < cmds.len() ==> matches_word(#[trigger] cmds[k], a) == matches_word(cmds[k], b),
    ensures
        first_match(cmds, a) == first_match(cmds, b),
    decreases cmds.len(),
{
    if cmds.len() > 0 {
        lemma_first_match_same(init(cmds), a, b);
        assert(matches_word(cmds[cmds.len() - 1], a) == matches_word(cmds[cmds.len() - 1], b));
    }
}

/// In any registry, a line holding just a built-in command's alias resolves
/// to the same registered command, with the same arguments, as one holding
/// just its name, unless a custom command answers to one of the two words
/// and not to the other.
pub proof fn lemma_alias_resolves_like_name(cmds: Seq<Command>, c: Command)
    requires
        !(c is Custom),
        forall|k: int|
            0 <= k < cmds.len() && #[trigger] cmds[k] is Custom ==> matches_word(
                cmds[k],
                command_aliases(c)[0],
            ) == matches_word(cmds[k], command_name(c)),
    ensures
        parse_spec(cmds, command_aliases(c)[0]) == parse_spec(cmds, command_name(c)),
{
    reveal_strlit("quit");
    reveal_strlit("q");
    reveal_strlit("open");
    reveal_strlit("o");
    reveal_strlit("help");
    reveal_strlit("h");
    let a = command_aliases(c)[0];
    let n = command_name(c);
    lemma_scan_word(a);
    lemma_scan_word(n);
    assert(tokens(a) =~= seq![a]);
    assert(tokens(n) =~= seq![n]);
    assert forall|k: int| 0 <= k < cmds.len() implies matches_word(#[trigger] cmds[k], a)
        == matches_word(cmds[k], n) by {
        let d = cmds[k];
        let da = command_aliases(d);
        if !(d is Custom) {
            assert(da.len() == 1);
        assert(da.contains(a) == (da[0] == a));
            assert(da.contains(n) == (da[0] == n));
        }
    }
    lemma_first_match_same(cmds, a, n);
    assert(tokens(a).drop_first() =~= tokens(n).drop_first());
}

} // verus!
