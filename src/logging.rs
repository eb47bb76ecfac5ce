//! Log levels and the rule that decides which messages are shown.
use vstd::prelude::*;
use crate::text::same_text;

verus! {

/// The severity of a log message, from least to most severe.
#[derive(PartialEq, Eq, Debug, Clone, Copy)]
pub enum LogLevel {
    Debug,
    Info,
    Log,
    Warn,
    Error,
}

/// The rank of a level: higher is more severe.
pub open spec fn rank(l: LogLevel) -> int {
    match l {
        LogLevel::Debug => 0,
        LogLevel::Info => 1,
        LogLevel::Log => 2,
        LogLevel::Warn => 3,
        LogLevel::Error => 4,
    }
}

impl LogLevel {
    /// The rank of this level.
    pub fn rank(&self) -> (r: u8)
        ensures
            r as int == rank(*self),
    {
        match self {
            LogLevel::Debug => 0,
            LogLevel::Info => 1,
            LogLevel::Log => 2,
            LogLevel::Warn => 3,
            LogLevel::Error => 4,
        }
    }

    /// The level that a configured name selects: the level of that name,
    /// `Log` for an unknown name, `Info` where no name is configured.
    pub fn threshold(name: Option<&str>) -> (r: LogLevel)
        ensures
            name is None ==> r == LogLevel::Info,
            name matches Some(n) ==> r == (if n@ == "Debug"@ {
                LogLevel::Debug
            } else if n@ == "Info"@ {
                LogLevel::Info
            } else if n@ == "Log"@ {
                LogLevel::Log
            } else if n@ == "Warn"@ {
                LogLevel::Warn
            } else if n@ == "Error"@ {
                LogLevel::Error
            } else {
                LogLevel::Log
            }),
    {
        match name {
            None => LogLevel::Info,
            Some(n) => if same_text(n, "Debug") {
                LogLevel::Debug
            } else if same_text(n, "Info") {
                LogLevel::Info
            } else if same_text(n, "Log") {
                LogLevel::Log
            } else if same_text(n, "Warn") {
                LogLevel::Warn
            } else if same_text(n, "Error") {
                LogLevel::Error
            } else {
                LogLevel::Log
            },
        }
    }

    /// Whether a message of this level is shown under `threshold`.
    pub fn shown_under(&self, threshold: LogLevel) -> (r: bool)
        ensures
            r == (rank(*self) >= rank(threshold)),
    {
        self.rank() >= threshold.rank()
    }

    /// The tag printed before a message of this level.
    pub fn tag(&self) -> (r: &'static str)
        ensures
            r@ == match *self {
                LogLevel::Debug => "[DEBUG]"@,
                LogLevel::Info => "[INFO]"@,
                LogLevel::Log => "[LOG]"@,
                LogLevel::Warn => "[WARN]"@,
                LogLevel::Error => "[ERROR]"@,
            },
    {
        match self {
            LogLevel::Debug => "[DEBUG]",
            LogLevel::Info => "[INFO]",
            LogLevel::Log => "[LOG]",
            LogLevel::Warn => "[WARN]",
            LogLevel::Error => "[ERROR]",
        }
    }
}

} // verus!
