//! Log levels and the logger's switches: whether logging is on and the
//! lowest level written, shared by every clone of a logger; which entries
//! pass, and how an entry and its dated file are named.
use vstd::prelude::*;
use std::sync::Arc;
use std::sync::atomic::{AtomicBool, AtomicU8};
use crate::text::{chars_eq, chars_of, dec_chars_padded, dec_seq, pad_left, push_all, string_of, to_lowercase, unicode_lowercase};

verus! {

/// Log level, from least to most severe.
#[derive(Debug, Clone, Copy, PartialEq, Eq, Structural)]
pub enum LogLevel {
    Debug,
    Info,
    Warn,
    Error,
}

pub open spec fn level_rank(l: LogLevel) -> u8 {
    match l {
        LogLevel::Debug => 0,
        LogLevel::Info => 1,
        LogLevel::Warn => 2,
        LogLevel::Error => 3,
    }
}

/// The level stored as `v`: 0 debug, 2 warn, 3 error, anything else info.
pub open spec fn level_of_rank(v: u8) -> LogLevel {
    if v == 0 {
        LogLevel::Debug
    } else if v == 2 {
        LogLevel::Warn
    } else if v == 3 {
        LogLevel::Error
    } else {
        LogLevel::Info
    }
}

/// The level a configuration word names (case-insensitive): `debug`,
/// `warn` or `warning`, `error`; anything else is info.
pub open spec fn level_named(lower: Seq<char>) -> LogLevel {
    if lower == "debug"@ {
        LogLevel::Debug
    } else if lower == "warn"@ || lower == "warning"@ {
        LogLevel::Warn
    } else if lower == "error"@ {
        LogLevel::Error
    } else {
        LogLevel::Info
    }
}

pub open spec fn level_word(l: LogLevel) -> Seq<char> {
    match l {
        LogLevel::Debug => "debug"@,
        LogLevel::Info => "info"@,
        LogLevel::Warn => "warn"@,
        LogLevel::Error => "error"@,
    }
}

pub open spec fn level_label(l: LogLevel) -> Seq<char> {
    match l {
        LogLevel::Debug => "DEBUG"@,
        LogLevel::Info => "INFO"@,
        LogLevel::Warn => "WARN"@,
        LogLevel::Error => "ERROR"@,
    }
}

impl LogLevel {
    pub fn rank(self) -> (r: u8)
        ensures
            r == level_rank(self),
    {
        match self {
            LogLevel::Debug => 0,
            LogLevel::Info => 1,
            LogLevel::Warn => 2,
            LogLevel::Error => 3,
        }
    }

    /// The label written in log entries.
    pub fn label(self) -> (s: &'static str)
        ensures
            s@ == level_label(self),
    {
        match self {
            LogLevel::Debug => "DEBUG",
            LogLevel::Info => "INFO",
            LogLevel::Warn => "WARN",
            LogLevel::Error => "ERROR",
        }
    }

    /// The configuration word of the level.
    pub fn as_str(self) -> (s: &'static str)
        ensures
            s@ == level_word(self),
    {
        match self {
            LogLevel::Debug => "debug",
            LogLevel::Info => "info",
            LogLevel::Warn => "warn",
            LogLevel::Error => "error",
        }
    }

    /// The level a configuration word names (see `level_named`).
    pub fn from_str(s: &str) -> (l: Self)
        ensures
            l == level_named(unicode_lowercase(s@)),
    {
        let lowered = to_lowercase(s);
        let c = chars_of(lowered.as_str());
        if chars_eq(&c, &chars_of("debug")) {
            LogLevel::Debug
        } else if chars_eq(&c, &chars_of("warn")) || chars_eq(&c, &chars_of("warning")) {
            LogLevel::Warn
        } else if chars_eq(&c, &chars_of("error")) {
            LogLevel::Error
        } else {
            LogLevel::Info
        }
    }

    /// Every level, least severe first.
    pub fn all() -> (v: Vec<LogLevel>)
        ensures
            v@ == seq![LogLevel::Debug, LogLevel::Info, LogLevel::Warn, LogLevel::Error],
    {
        let mut v: Vec<LogLevel> = Vec::new();
        v.push(LogLevel::Debug);
        v.push(LogLevel::Info);
        v.push(LogLevel::Warn);
        v.push(LogLevel::Error);
        assert(v@ =~= seq![LogLevel::Debug, LogLevel::Info, LogLevel::Warn, LogLevel::Error]);
        v
    }
}

/// Reading the word back gives the level: `from_str(as_str(l)) == l`
/// for the (already lowercase) words.
pub proof fn law_level_word_round_trip(l: LogLevel)
    ensures
        level_named(level_word(l)) == l,
{
    reveal_strlit("debug");
    reveal_strlit("info");
    reveal_strlit("warn");
    reveal_strlit("warning");
    reveal_strlit("error");
    assert("debug"@.len() == 5 && "info"@.len() == 4 && "warn"@.len() == 4);
    assert("warning"@.len() == 7 && "error"@.len() == 5);
    assert("debug"@[0] == 'd' && "info"@[0] == 'i' && "warn"@[0] == 'w' && "error"@[0] == 'e');
}

/// An entry at `level` is written when logging is on and the level is at
/// least the minimum.
pub open spec fn passes_level(enabled: bool, min_rank: u8, level: LogLevel) -> bool {
    enabled && level_rank(level) >= min_rank
}

/// `[hh:mm:ss] [LABEL] message` and a line feed.
pub open spec fn entry_text(h: u64, m: u64, s: u64, level: LogLevel, msg: Seq<char>) -> Seq<char> {
    seq!['['] + pad_left(dec_seq(h as nat), 2, '0') + seq![':'] + pad_left(dec_seq(m as nat), 2, '0')
        + seq![':'] + pad_left(dec_seq(s as nat), 2, '0') + "] ["@ + level_label(level) + "] "@ + msg
        + seq!['\n']
}

/// `MM-DD-YYYY.txt`, the name of the day's log file.
pub open spec fn file_name_text(month: u64, day: u64, year: u64) -> Seq<char> {
    pad_left(dec_seq(month as nat), 2, '0') + seq!['-'] + pad_left(dec_seq(day as nat), 2, '0')
        + seq!['-'] + pad_left(dec_seq(year as nat), 4, '0') + ".txt"@
}

/// The text of one log entry.
pub fn entry_line(h: u64, m: u64, s: u64, level: LogLevel, msg: &str) -> (t: String)
    ensures
        t@ == entry_text(h, m, s, level, msg@),
{
    let mut v: Vec<char> = Vec::new();
    v.push('[');
    push_all(&mut v, &dec_chars_padded(h, 2));
    v.push(':');
    push_all(&mut v, &dec_chars_padded(m, 2));
    v.push(':');
    push_all(&mut v, &dec_chars_padded(s, 2));
    push_all(&mut v, &chars_of("] ["));
    push_all(&mut v, &chars_of(level.label()));
    push_all(&mut v, &chars_of("] "));
    push_all(&mut v, &chars_of(msg));
    v.push('\n');
    assert(v@ =~= entry_text(h, m, s, level, msg@));
    string_of(v.as_slice())
}

/// The name of the log file for a date.
pub fn log_file_name(month: u64, day: u64, year: u64) -> (t: String)
    ensures
        t@ == file_name_text(month, day, year),
{
    let mut v = dec_chars_padded(month, 2);
    v.push('-');
    push_all(&mut v, &dec_chars_padded(day, 2));
    v.push('-');
    push_all(&mut v, &dec_chars_padded(year, 4));
    push_all(&mut v, &chars_of(".txt"));
    assert(v@ =~= file_name_text(month, day, year));
    string_of(v.as_slice())
}

/// Writes timestamped entries to dated files in `log_dir`.  Every clone
/// shares the on/off switch and the minimum level, so changing them on any
/// clone affects all.
#[derive(Debug, Clone)]
pub struct Logger {
    pub log_dir: String,
    enabled: Arc<AtomicBool>,
    min_level: Arc<AtomicU8>,
}

impl Logger {
    pub closed spec fn dir(&self) -> Seq<char> {
        self.log_dir@
    }

    /// A logger writing to `log_dir`, on, at level info.
    pub fn new(log_dir: String) -> (l: Self)
        ensures
            l.dir() == log_dir@,
    {
        Logger {
            log_dir,
            enabled: Arc::new(AtomicBool::new(true)),
            min_level: Arc::new(AtomicU8::new(1)),
        }
    }

    /// Set the minimum level and hand the logger back.
    pub fn with_level(self, level: LogLevel) -> (l: Self)
        ensures
            l.dir() == self.dir(),
            l == self,
    {
        self.min_level.store(level.rank(), std::sync::atomic::Ordering::Relaxed);
        self
    }

    /// Turn all logging on or off, for every clone.
    pub fn set_enabled(&self, enabled: bool) {
        self.enabled.store(enabled, std::sync::atomic::Ordering::Relaxed);
    }

    /// Change the minimum level, for every clone.
    pub fn set_level(&self, level: LogLevel) {
        self.min_level.store(level.rank(), std::sync::atomic::Ordering::Relaxed);
    }

    /// Is logging on now?  The switch is shared with every clone and
    /// changed through any of them, so nothing is stated of what is read.
    pub fn is_enabled(&self) -> bool {
        self.enabled.load(std::sync::atomic::Ordering::Relaxed)
    }

    /// The current minimum level.
    pub fn level(&self) -> (l: LogLevel)
        ensures
            exists|v: u8| l == level_of_rank(v),
    {
        let v = self.min_level.load(std::sync::atomic::Ordering::Relaxed);
        let l = if v == 0 {
            LogLevel::Debug
        } else if v == 2 {
            LogLevel::Warn
        } else if v == 3 {
            LogLevel::Error
        } else {
            LogLevel::Info
        };
        assert(l == level_of_rank(v));
        l
    }

    /// Is an entry at `level` written now?  Logging must be on and the
    /// level at least the minimum (both read once, shared state).
    pub fn should_write(&self, level: LogLevel) -> (b: bool)
        ensures
            exists|on: bool, min: u8| b == passes_level(on, min, level),
    {
        let on = self.enabled.load(std::sync::atomic::Ordering::Relaxed);
        let min = self.min_level.load(std::sync::atomic::Ordering::Relaxed);
        let b = on && level.rank() >= min;
        assert(b == passes_level(on, min, level));
        b
    }
}

} // verus!
