//! Log levels and the level in force.

use vstd::prelude::*;

verus! {

/// How much is logged, from nothing to everything.
#[derive(Clone, Copy, Debug, PartialEq, Eq, Structural)]
pub enum LogLevel {
    Off,
    Error,
    Warn,
    Info,
    Debug,
    Trace,
}

/// The number of a level: 0 for `Off` up to 5 for `Trace`.
pub open spec fn level_code(l: LogLevel) -> u8 {
    match l {
        LogLevel::Off => 0,
        LogLevel::Error => 1,
        LogLevel::Warn => 2,
        LogLevel::Info => 3,
        LogLevel::Debug => 4,
        LogLevel::Trace => 5,
    }
}

/// The level with a number; numbers above 5 stand for `Warn`.
pub open spec fn level_of_code(v: u8) -> LogLevel {
    if v == 0 {
        LogLevel::Off
    } else if v == 1 {
        LogLevel::Error
    } else if v == 2 {
        LogLevel::Warn
    } else if v == 3 {
        LogLevel::Info
    } else if v == 4 {
        LogLevel::Debug
    } else if v == 5 {
        LogLevel::Trace
    } else {
        LogLevel::Warn
    }
}

/// The name of a level, as the command line takes it.
pub open spec fn level_name(l: LogLevel) -> Seq<char> {
    match l {
        LogLevel::Off => "off"@,
        LogLevel::Error => "error"@,
        LogLevel::Warn => "warn"@,
        LogLevel::Info => "info"@,
        LogLevel::Debug => "debug"@,
        LogLevel::Trace => "trace"@,
    }
}

impl LogLevel {
    pub fn to_u8(self) -> (r: u8)
        ensures
            r == level_code(self),
    {
        match self {
            LogLevel::Off => 0,
            LogLevel::Error => 1,
            LogLevel::Warn => 2,
            LogLevel::Info => 3,
            LogLevel::Debug => 4,
            LogLevel::Trace => 5,
        }
    }

    pub fn from_u8(v: u8) -> (r: LogLevel)
        ensures
            r == level_of_code(v),
    {
        if v == 0 {
            LogLevel::Off
        } else if v == 1 {
            LogLevel::Error
        } else if v == 2 {
            LogLevel::Warn
        } else if v == 3 {
            LogLevel::Info
        } else if v == 4 {
            LogLevel::Debug
        } else if v == 5 {
            LogLevel::Trace
        } else {
            LogLevel::Warn
        }
    }

    /// The level's name.
    pub fn to_text(&self) -> (r: String)
        ensures
            r@ == level_name(*self),
    {
        match self {
            LogLevel::Off => "off".to_owned(),
            LogLevel::Error => "error".to_owned(),
            LogLevel::Warn => "warn".to_owned(),
            LogLevel::Info => "info".to_owned(),
            LogLevel::Debug => "debug".to_owned(),
            LogLevel::Trace => "trace".to_owned(),
        }
    }
}

impl Default for LogLevel {
    fn default() -> (r: LogLevel)
        ensures
            r == LogLevel::Warn,
    {
        LogLevel::Warn
    }
}

/// A level's number gives the level back.
pub proof fn lemma_level_code_roundtrip(l: LogLevel)
    ensures
        level_of_code(level_code(l)) == l,
{
}

/// The level in force, held as its number: always the number of a level.
pub struct LogState {
    code: u8,
}

impl LogState {
    #[verifier::type_invariant]
    spec fn holds_a_level(self) -> bool {
        self.code <= 5
    }

    pub closed spec fn code(&self) -> u8 {
        self.code
    }

    /// The default level in force: `Warn`.
    pub fn new() -> (r: LogState)
        ensures
            r.code() == level_code(LogLevel::Warn),
    {
        LogState { code: 2 }
    }

    /// A state holding the level number `code`, as stored by `set_log_level`.
    pub fn from_code(code: u8) -> (r: LogState)
        requires
            code <= 5,
        ensures
            r.code() == code,
    {
        LogState { code }
    }
}

/// The number of a level gives back that number through its level, so the level read
/// back from a state is the one whose number it holds.
pub proof fn lemma_code_level_roundtrip(code: u8)
    requires
        code <= 5,
    ensures
        level_code(level_of_code(code)) == code,
{
}

/// Sets the level in force.
pub fn set_log_level(state: &mut LogState, level: LogLevel)
    ensures
        final(state).code() == level_code(level),
{
    state.code = level.to_u8();
}

/// The level in force.
pub fn get_log_level(state: &LogState) -> (r: LogLevel)
    ensures
        r == level_of_code(state.code()),
        level_code(r) == state.code(),
{
    proof {
        use_type_invariant(state);
    }
    LogLevel::from_u8(state.code)
}

/// Whether messages of `level` are shown: when `level` is at most the level in force.
pub fn log_enabled(state: &LogState, level: LogLevel) -> (r: bool)
    ensures
        r == (level_code(level) <= state.code()),
        r == (level_code(level) <= level_code(level_of_code(state.code()))),
{
    proof {
        use_type_invariant(state);
    }
    level.to_u8() <= state.code
}

} // verus!
