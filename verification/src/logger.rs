//! Log events and the settings that decide which of them are shown. The
//! library notes its events and hands them out; writing them is left to the
//! caller.

use vstd::prelude::*;
use vstd::string::*;

verus! {

/// The severity of a log event.
#[derive(Debug, PartialEq, Eq, Clone, Copy, Structural)]
pub enum LogLevel {
    /// Progress of a run.
    Info,
    /// Detail of each step.
    Debug,
    /// A failure.
    Error,
}

/// The settings of a log.
#[derive(Debug, PartialEq, Eq, Clone, Copy, Structural)]
pub struct Logger {
    /// Whether progress is shown.
    pub verbose: bool,
    /// Whether detail is shown.
    pub debug: bool,
}

/// One log event.
#[derive(Debug, PartialEq, Eq)]
pub struct LogEvent {
    /// The severity of the event.
    pub level: LogLevel,
    /// What happened.
    pub message: String,
}

/// The mathematical content of a [`LogEvent`].
pub ghost struct Entry {
    pub level: LogLevel,
    pub message: Seq<char>,
}

impl View for LogEvent {
    type V = Entry;

    open spec fn view(&self) -> Entry {
        Entry { level: self.level, message: self.message@ }
    }
}

/// The entries that a vector of events holds, in order.
pub open spec fn entries(v: Seq<LogEvent>) -> Seq<Entry> {
    Seq::new(v.len(), |i: int| v[i]@)
}

/// The name under which each level is shown.
pub open spec fn level_name(level: LogLevel) -> Seq<char> {
    match level {
        LogLevel::Info => "INFO"@,
        LogLevel::Debug => "DEBUG"@,
        LogLevel::Error => "ERROR"@,
    }
}

/// The line in which an entry is written out.
pub open spec fn entry_line(entry: Entry) -> Seq<char> {
    level_name(entry.level) + ": "@ + entry.message
}

impl LogLevel {
    /// The name under which the level is shown.
    pub fn name(&self) -> (s: String)
        ensures
            s@ == level_name(*self),
    {
        match self {
            LogLevel::Info => "INFO".to_owned(),
            LogLevel::Debug => "DEBUG".to_owned(),
            LogLevel::Error => "ERROR".to_owned(),
        }
    }
}

impl LogEvent {
    /// The line in which the event is written out.
    pub fn to_string(&self) -> (s: String)
        ensures
            s@ == entry_line(self@),
    {
        let mut s = self.level.name();
        s.append(": ");
        s.append(self.message.as_str());
        s
    }
}

impl Logger {
    /// The log with the given settings.
    pub open spec fn new_spec(verbose: bool, debug: bool) -> Logger {
        Logger { verbose, debug }
    }

    /// Whether an event of the given level is shown: progress when verbose,
    /// detail when debugging, failures always.
    pub open spec fn shows(&self, level: LogLevel) -> bool {
        match level {
            LogLevel::Info => self.verbose,
            LogLevel::Debug => self.debug,
            LogLevel::Error => true,
        }
    }

    /// The log `log` once an event is noted: the event stands at its end
    /// where events of its level are shown, and the log is as before where
    /// they are not.
    pub open spec fn noted(&self, log: Seq<Entry>, level: LogLevel, message: Seq<char>) -> Seq<
        Entry,
    > {
        if self.shows(level) {
            log.push(Entry { level, message })
        } else {
            log
        }
    }

    /// A log that shows progress when `verbose` and detail when `debug`.
    pub fn new(verbose: bool, debug: bool) -> (l: Self)
        ensures
            l == Logger::new_spec(verbose, debug),
    {
        Logger { verbose, debug }
    }

    /// Whether an event of the given level is shown.
    pub fn enabled(&self, level: &LogLevel) -> (b: bool)
        ensures
            b == self.shows(*level),
    {
        match level {
            LogLevel::Info => self.verbose,
            LogLevel::Debug => self.debug,
            LogLevel::Error => true,
        }
    }

    /// Logs `message` at `level`: returns the line to be written out, or
    /// nothing where events of that level are not shown.
    pub fn log(&self, level: &LogLevel, message: &str) -> (line: Option<String>)
        ensures
            line is Some == self.shows(*level),
            line matches Some(s) ==> s@ == level_name(*level) + ": "@ + message@,
    {
        if self.enabled(level) {
            let mut s = level.name();
            s.append(": ");
            s.append(message);
            Some(s)
        } else {
            None
        }
    }

    /// Notes an event at the end of `log` where events of its level are
    /// shown.
    pub fn note(&self, log: &mut Vec<LogEvent>, level: LogLevel, message: String)
        ensures
            entries(final(log)@) == self.noted(entries(old(log)@), level, message@),
    {
        if self.enabled(&level) {
            let event = LogEvent { level, message };
            proof {
                assert(entries(log@.push(event)) == entries(log@).push(event@));
            }
            log.push(event);
        }
    }
}

} // verus!
