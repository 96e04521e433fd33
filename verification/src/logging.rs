//! Log severities, in the fixed order of the C interface (`Trace` is 0,
//! `Off` is 6), and the decisions a logger makes with them: which level a
//! stored code stands for, how an out-of-range request is clamped, and
//! whether a message is emitted.
use vstd::prelude::*;

verus! {

/// Log severity; the declaration order is the C numbering (0 to 6).
#[derive(Debug, Clone, Copy, PartialEq, Eq, Structural)]
#[non_exhaustive]
pub enum LogLevel {
    /// Finest-grained diagnostic detail.
    Trace,
    /// Detailed diagnostic information.
    Debug,
    /// Normal informational messages.
    Info,
    /// Recoverable conditions worth surfacing.
    Warn,
    /// An error that still allows continuing.
    Error,
    /// A critical, likely fatal, failure.
    Critical,
    /// Logging disabled entirely.
    Off,
}

/// The C number of a level.
pub open spec fn level_code(l: LogLevel) -> int {
    match l {
        LogLevel::Trace => 0,
        LogLevel::Debug => 1,
        LogLevel::Info => 2,
        LogLevel::Warn => 3,
        LogLevel::Error => 4,
        LogLevel::Critical => 5,
        LogLevel::Off => 6,
    }
}

/// The level a stored code stands for: 0 to 5 name their level, anything
/// else is `Off`.
pub open spec fn level_of_code(code: int) -> LogLevel {
    if code == 0 {
        LogLevel::Trace
    } else if code == 1 {
        LogLevel::Debug
    } else if code == 2 {
        LogLevel::Info
    } else if code == 3 {
        LogLevel::Warn
    } else if code == 4 {
        LogLevel::Error
    } else if code == 5 {
        LogLevel::Critical
    } else {
        LogLevel::Off
    }
}

/// The upper-case label of a level.
pub open spec fn level_label(l: LogLevel) -> Seq<char> {
    match l {
        LogLevel::Trace => seq!['T', 'R', 'A', 'C', 'E'],
        LogLevel::Debug => seq!['D', 'E', 'B', 'U', 'G'],
        LogLevel::Info => seq!['I', 'N', 'F', 'O'],
        LogLevel::Warn => seq!['W', 'A', 'R', 'N'],
        LogLevel::Error => seq!['E', 'R', 'R', 'O', 'R'],
        LogLevel::Critical => seq!['C', 'R', 'I', 'T', 'I', 'C', 'A', 'L'],
        LogLevel::Off => seq!['O', 'F', 'F'],
    }
}

/// The level code stored by default: `Info`.
pub const DEFAULT_LEVEL_CODE: i32 = 2;

impl LogLevel {
    /// The level's C number.
    pub fn code(self) -> (c: i32)
        ensures
            c == level_code(self),
    {
        match self {
            LogLevel::Trace => 0,
            LogLevel::Debug => 1,
            LogLevel::Info => 2,
            LogLevel::Warn => 3,
            LogLevel::Error => 4,
            LogLevel::Critical => 5,
            LogLevel::Off => 6,
        }
    }

    /// The level a stored code stands for ([`level_of_code`]).
    pub fn from_code(code: i32) -> (l: LogLevel)
        ensures
            l == level_of_code(code as int),
    {
        if code == 0 {
            LogLevel::Trace
        } else if code == 1 {
            LogLevel::Debug
        } else if code == 2 {
            LogLevel::Info
        } else if code == 3 {
            LogLevel::Warn
        } else if code == 4 {
            LogLevel::Error
        } else if code == 5 {
            LogLevel::Critical
        } else {
            LogLevel::Off
        }
    }

    /// The code stored for a requested level: out-of-range requests clamp
    /// to the nearest level (`Trace` or `Off`).
    pub fn clamp_code(level: i32) -> (c: i32)
        ensures
            0 <= c <= 6,
            c == if level < 0 {
                0
            } else if level > 6 {
                6
            } else {
                level as int
            },
    {
        if level < 0 {
            0
        } else if level > 6 {
            6
        } else {
            level
        }
    }

    /// Whether a message of this severity is emitted under `current`: never
    /// when logging is off, else when this level is at least `current`.
    pub fn enabled(self, current: LogLevel) -> (b: bool)
        ensures
            b == (current != LogLevel::Off && level_code(self) >= level_code(current)),
    {
        current != LogLevel::Off && self.code() >= current.code()
    }

    /// The level's upper-case label.
    pub fn label(self) -> (s: &'static str)
        ensures
            s@ == level_label(self),
    {
        proof {
            reveal_strlit("TRACE");
            reveal_strlit("DEBUG");
            reveal_strlit("INFO");
            reveal_strlit("WARN");
            reveal_strlit("ERROR");
            reveal_strlit("CRITICAL");
            reveal_strlit("OFF");
        }
        match self {
            LogLevel::Trace => "TRACE",
            LogLevel::Debug => "DEBUG",
            LogLevel::Info => "INFO",
            LogLevel::Warn => "WARN",
            LogLevel::Error => "ERROR",
            LogLevel::Critical => "CRITICAL",
            LogLevel::Off => "OFF",
        }
    }
}

/// Setting a level and reading it back gives that level for every code in
/// range, and the nearest end of the range otherwise.
pub proof fn lemma_set_then_read_level(level: i32)
    ensures
        level_of_code(
            if level < 0 {
                0
            } else if level > 6 {
                6
            } else {
                level as int
            },
        ) == if level < 0 {
            LogLevel::Trace
        } else if level > 6 {
            LogLevel::Off
        } else {
            level_of_code(level as int)
        },
        forall|l: LogLevel| #[trigger] level_of_code(level_code(l)) == l,
{
}

} // verus!
