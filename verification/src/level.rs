//! The severity of a log record.

use vstd::prelude::*;

use crate::text::{same_text, to_upper, upper_case};

verus! {

/// The severity of a log record.
#[derive(Debug, Clone, Copy, PartialEq, Eq, Hash, Structural)]
pub enum LogLevel {
    Info,
    Warning,
    Error,
    Debug,
}

impl LogLevel {
    /// The name under which a level is shown and counted.
    pub open spec fn display_name(self) -> Seq<char> {
        match self {
            LogLevel::Info => "Info"@,
            LogLevel::Warning => "Warning"@,
            LogLevel::Error => "Error"@,
            LogLevel::Debug => "Debug"@,
        }
    }

    /// The level that an upper-case token stands for. `WARN` is a second
    /// spelling of `WARNING`; every other token stands for no level.
    pub open spec fn of_token(token: Seq<char>) -> Option<LogLevel> {
        if token == "INFO"@ {
            Some(LogLevel::Info)
        } else if token == "WARNING"@ || token == "WARN"@ {
            Some(LogLevel::Warning)
        } else if token == "ERROR"@ {
            Some(LogLevel::Error)
        } else if token == "DEBUG"@ {
            Some(LogLevel::Debug)
        } else {
            None
        }
    }

    /// The name under which this level is shown and counted.
    pub fn name(&self) -> (name: &'static str)
        ensures
            name@ == self.display_name(),
    {
        match self {
            LogLevel::Info => "Info",
            LogLevel::Warning => "Warning",
            LogLevel::Error => "Error",
            LogLevel::Debug => "Debug",
        }
    }

    /// Looks an upper-case token up among the level names.
    pub fn from_upper(token: &str) -> (level: Option<LogLevel>)
        ensures
            level == Self::of_token(token@),
    {
        if same_text(token, "INFO") {
            Some(LogLevel::Info)
        } else if same_text(token, "WARNING") || same_text(token, "WARN") {
            Some(LogLevel::Warning)
        } else if same_text(token, "ERROR") {
            Some(LogLevel::Error)
        } else if same_text(token, "DEBUG") {
            Some(LogLevel::Debug)
        } else {
            None
        }
    }

    /// Classifies a level token without regard to case: the token is put in
    /// upper case and then looked up.
    pub fn from_str(s: &str) -> (level: Option<LogLevel>)
        ensures
            level == Self::of_token(upper_case(s@)),
    {
        let upper = to_upper(s);
        Self::from_upper(upper.as_str())
    }
}

} // verus!
