use vstd::prelude::*;

verus! {

#[allow(non_camel_case_types)]
#[derive(Clone, Copy, Debug, PartialEq, Eq, Structural)]
pub enum LogLevel {
    INFO,
    WARN,
    ERROR,
}

pub open spec fn level_text(level: LogLevel) -> Seq<char> {
    match level {
        LogLevel::ERROR => "ERROR"@,
        LogLevel::WARN => "WARN"@,
        LogLevel::INFO => "INFO"@,
    }
}

/// A log line: `[LEVEL][time]: message`.
pub open spec fn log_line(level: LogLevel, time: Seq<char>, message: Seq<char>) -> Seq<char> {
    "["@ + level_text(level) + "]["@ + time + "]: "@ + message
}

/// Log lines kept in memory until they are written to `latest.log` in the
/// logs directory.
pub struct Logger {
    pub logs_path: String,
    pub logs: Vec<String>,
}

/// Relies on shellexpand::full: the text with `~` and environment variables
/// expanded, or `None` when a lookup fails. It depends on the environment, so
/// nothing is promised of it.
#[verifier::external_body]
fn expand_path(s: &str) -> Option<String> {
    shellexpand::full(s).ok().map(|p| p.into_owned())
}

/// Relies on chrono::Local::now, formatted as `%Y-%m-%d %H:%M:%S`: the local
/// date and time. It changes from call to call, so nothing is promised of it.
#[verifier::external_body]
fn local_timestamp() -> String {
    chrono::Local::now().format("%Y-%m-%d %H:%M:%S").to_string()
}

fn level_name(level: LogLevel) -> (r: String)
    ensures
        r@ == level_text(level),
{
    match level {
        LogLevel::ERROR => String::from_str("ERROR"),
        LogLevel::WARN => String::from_str("WARN"),
        LogLevel::INFO => String::from_str("INFO"),
    }
}

/// The log line for `message` at `level`, stamped with `time`.
pub fn format_log_line(level: LogLevel, time: &str, message: &str) -> (r: String)
    ensures
        r@ == log_line(level, time@, message@),
{
    String::from_str("[").concat(level_name(level).as_str()).concat("][").concat(time).concat(
        "]: ",
    ).concat(message)
}

impl Logger {
    /// A logger writing under `logs_path`, with `~` and environment variables
    /// expanded where they can be.
    pub fn new(logs_path: String) -> (r: Logger)
        ensures
            r.logs@.len() == 0,
    {
        let expanded = expand_path(logs_path.as_str());
        Logger::with_expansion(expanded, logs_path)
    }

    /// A logger writing under `expanded`, or under `logs_path` as written
    /// when it could not be expanded.
    pub fn with_expansion(expanded: Option<String>, logs_path: String) -> (r: Logger)
        ensures
            r.logs_path@ == match expanded {
                Some(e) => e@,
                None => logs_path@,
            },
            r.logs@.len() == 0,
    {
        let path = match expanded {
            Some(e) => e,
            None => logs_path,
        };
        Logger { logs_path: path, logs: Vec::new() }
    }

    /// Records `message` at `level`, stamped with the current local time.
    pub fn log(&mut self, level: LogLevel, message: String)
        ensures
            final(self).logs@.len() == old(self).logs@.len() + 1,
            final(self).logs@.subrange(0, old(self).logs@.len() as int) == old(self).logs@,
            exists|t: Seq<char>| #[trigger]
                final(self).logs@.last()@ == log_line(level, t, message@),
            final(self).logs_path == old(self).logs_path,
    {
        let time = local_timestamp();
        self.log_at(level, time.as_str(), message.as_str());
    }

    /// Records `message` at `level`, stamped with `time`.
    pub fn log_at(&mut self, level: LogLevel, time: &str, message: &str)
        ensures
            final(self).logs@.len() == old(self).logs@.len() + 1,
            final(self).logs@.subrange(0, old(self).logs@.len() as int) == old(self).logs@,
            final(self).logs@.last()@ == log_line(level, time@, message@),
            final(self).logs_path == old(self).logs_path,
    {
        let line = format_log_line(level, time, message);
        self.logs.push(line);
        assert(self.logs@.subrange(0, old(self).logs@.len() as int) =~= old(self).logs@);
    }
}

} // verus!
