//! Tiered logging decisions for the planning extension.
//!
//! Four levels filter messages: errors are always emitted, warnings from
//! `Warn` up, lifecycle messages from `Info` up (the default), and per-action
//! traces only at `Debug`. The current level lives in a [`LogLevelSetting`];
//! the engine-side driver owns the cross-thread channel and prints the lines
//! that [`process_logs`] formats.
use crate::snapshot::{decimal_digits, i64_to_decimal};
use vstd::prelude::*;
use vstd::string::*;

verus! {

broadcast use vstd::std_specs::vec::group_vec_axioms;

/// Verbosity filter for log messages.
#[derive(Clone, Copy, PartialEq, Eq, PartialOrd, Ord, Debug, Structural)]
pub enum LogLevel {
    /// Errors only.
    Error,
    /// Warnings and errors.
    Warn,
    /// High-level planning lifecycle messages. Default.
    Info,
    /// Per-action trace inside the search. Very verbose.
    Debug,
}

impl LogLevel {
    /// Position of the level in increasing verbosity.
    pub open spec fn rank(self) -> u8 {
        match self {
            LogLevel::Error => 0,
            LogLevel::Warn => 1,
            LogLevel::Info => 2,
            LogLevel::Debug => 3,
        }
    }

    /// Converts a raw `u8` to a level; values above 3 give `Debug`.
    pub fn from_u8(v: u8) -> (r: Self)
        ensures
            r == level_of_raw(v),
    {
        match v {
            0 => LogLevel::Error,
            1 => LogLevel::Warn,
            2 => LogLevel::Info,
            _ => LogLevel::Debug,
        }
    }

    /// The level's raw value (its rank).
    pub fn to_u8(self) -> (r: u8)
        ensures
            r == self.rank(),
    {
        match self {
            LogLevel::Error => 0,
            LogLevel::Warn => 1,
            LogLevel::Info => 2,
            LogLevel::Debug => 3,
        }
    }
}

/// The level a raw value stands for: its rank, with values above 3 read as
/// `Debug`.
pub open spec fn level_of_raw(v: u8) -> LogLevel {
    if v == 0 {
        LogLevel::Error
    } else if v == 1 {
        LogLevel::Warn
    } else if v == 2 {
        LogLevel::Info
    } else {
        LogLevel::Debug
    }
}

/// Converting a level to its raw value and back gives the level again, and a
/// raw value above 3 reads as `Debug`.
pub proof fn lemma_level_raw_roundtrip(level: LogLevel, v: u8)
    ensures
        level_of_raw(level.rank()) == level,
        v <= 3 ==> level_of_raw(v).rank() == v,
        v > 3 ==> level_of_raw(v) == LogLevel::Debug,
{
}

/// A message at a given level is emitted when the level is no more verbose than
/// the current one; errors therefore always are.
pub fn level_enabled(current: LogLevel, level: LogLevel) -> (r: bool)
    ensures
        r == (level.rank() <= current.rank()),
{
    level.to_u8() <= current.to_u8()
}

/// The current verbosity, stored as its raw value.
pub struct LogLevelSetting {
    raw: u8,
}

impl LogLevelSetting {
    /// The level the setting holds.
    pub closed spec fn level(&self) -> LogLevel {
        level_of_raw(self.raw)
    }

    /// A setting at the default level, `Info`.
    pub fn new() -> (r: Self)
        ensures
            r.level() == LogLevel::Info,
    {
        LogLevelSetting { raw: 2 }
    }
}

impl Default for LogLevelSetting {
    fn default() -> (r: Self)
        ensures
            r.level() == LogLevel::Info,
    {
        LogLevelSetting::new()
    }
}

/// Sets the level that filters all later messages; reading the level back
/// gives the level that was set.
pub fn set_log_level(setting: &mut LogLevelSetting, level: LogLevel)
    ensures
        final(setting).level() == level,
{
    setting.raw = level.to_u8();
}

/// Returns the current level.
pub fn get_log_level(setting: &LogLevelSetting) -> (r: LogLevel)
    ensures
        r == setting.level(),
{
    LogLevel::from_u8(setting.raw)
}

/// A log message sent from a planner thread to the main thread.
#[derive(Clone, Debug)]
pub struct LogMessage {
    pub level: LogLevel,
    pub message: String,
    /// Milliseconds since the Unix epoch.
    pub timestamp: u64,
}

/// Which engine print function a message goes to.
#[derive(Clone, Copy, Debug, PartialEq, Eq, Structural)]
pub enum LogRoute {
    /// The engine's error channel.
    Error,
    /// The engine's warning channel.
    Warning,
    /// Plain output.
    Print,
}

/// Errors go to the error channel, warnings to the warning channel, and the
/// rest to plain output.
pub open spec fn route_of(level: LogLevel) -> LogRoute {
    match level {
        LogLevel::Error => LogRoute::Error,
        LogLevel::Warn => LogRoute::Warning,
        _ => LogRoute::Print,
    }
}

/// The print function for a message level.
pub fn route_for_level(level: LogLevel) -> (r: LogRoute)
    ensures
        r == route_of(level),
{
    match level {
        LogLevel::Error => LogRoute::Error,
        LogLevel::Warn => LogRoute::Warning,
        _ => LogRoute::Print,
    }
}

/// Three-digit, zero-padded text of a number below 1000.
pub open spec fn pad3(n: nat) -> Seq<char> {
    if n < 10 {
        seq!['0', '0'] + decimal_digits(n)
    } else if n < 100 {
        seq!['0'] + decimal_digits(n)
    } else {
        decimal_digits(n)
    }
}

/// The printed line of a message: `[GdPAI <s>.<ms>s] text`, with `| debug`
/// after the time for debug messages; the time is the timestamp in seconds with
/// three decimals.
pub open spec fn log_line(level: LogLevel, message: Seq<char>, timestamp: u64) -> Seq<char> {
    seq!['[', 'G', 'd', 'P', 'A', 'I', ' '] + decimal_digits((timestamp / 1000) as nat) + seq!['.']
        + pad3((timestamp % 1000) as nat) + if level == LogLevel::Debug {
        seq!['s', ' ', '|', ' ', 'd', 'e', 'b', 'u', 'g', ']', ' ']
    } else {
        seq!['s', ']', ' ']
    } + message
}

/// Formats one message as the line the main thread prints.
pub fn format_log_line(msg: &LogMessage) -> (r: String)
    ensures
        r@ == log_line(msg.level, msg.message@, msg.timestamp),
{
    let secs = msg.timestamp / 1000;
    let ms = msg.timestamp % 1000;
    let mut line = String::from_str("[GdPAI ");
    proof {
        reveal_strlit("[GdPAI ");
    }
    let secs_text = i64_to_decimal(secs as i64);
    line.append(secs_text.as_str());
    line.append(".");
    proof {
        reveal_strlit(".");
    }
    if ms < 10 {
        line.append("00");
        proof {
            reveal_strlit("00");
        }
    } else if ms < 100 {
        line.append("0");
        proof {
            reveal_strlit("0");
        }
    }
    let ms_text = i64_to_decimal(ms as i64);
    line.append(ms_text.as_str());
    if msg.level == LogLevel::Debug {
        line.append("s | debug] ");
        proof {
            reveal_strlit("s | debug] ");
        }
    } else {
        line.append("s] ");
        proof {
            reveal_strlit("s] ");
        }
    }
    line.append(msg.message.as_str());
    proof {
        let secs_n = (msg.timestamp / 1000) as nat;
        let ms_n = (msg.timestamp % 1000) as nat;
        assert(crate::snapshot::decimal_text(secs as int) == decimal_digits(secs_n));
        assert(crate::snapshot::decimal_text(ms as int) == decimal_digits(ms_n));
        assert(line@ =~= log_line(msg.level, msg.message@, msg.timestamp));
    }
    line
}

/// The lines to print for a batch of pending messages, in arrival order, each
/// with the print function its level goes to.
pub fn process_logs(pending: &Vec<LogMessage>) -> (r: Vec<(LogRoute, String)>)
    ensures
        r@.len() == pending@.len(),
        forall|i: int|
            0 <= i < r@.len() ==> #[trigger] r@[i].0 == route_of(pending@[i].level) && r@[i].1@
                == log_line(pending@[i].level, pending@[i].message@, pending@[i].timestamp),
{
    let mut out: Vec<(LogRoute, String)> = Vec::new();
    let mut i: usize = 0;
    while i < pending.len()
        invariant
            i <= pending.len(),
            out@.len() == i,
            forall|j: int|
                0 <= j < i ==> #[trigger] out@[j].0 == route_of(pending@[j].level) && out@[j].1@
                    == log_line(pending@[j].level, pending@[j].message@, pending@[j].timestamp),
        decreases pending.len() - i,
    {
        let line = format_log_line(&pending[i]);
        out.push((route_for_level(pending[i].level), line));
        i = i + 1;
    }
    out
}

} // verus!
