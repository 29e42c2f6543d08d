//! How much is logged, as the settings and the preferences say it.
use vstd::prelude::*;
use vstd::string::*;

use crate::text::same_text;

verus! {

/// How much is logged.
#[derive(Clone, Copy, Debug, PartialEq, Eq, Structural)]
pub enum LogLevel {
    Error,
    Warn,
    Info,
    Debug,
    Trace,
}

impl LogLevel {
    /// The level as the settings spell it.
    pub open spec fn key_of(self) -> Seq<char> {
        match self {
            LogLevel::Error => "error"@,
            LogLevel::Warn => "warn"@,
            LogLevel::Info => "info"@,
            LogLevel::Debug => "debug"@,
            LogLevel::Trace => "trace"@,
        }
    }

    /// The level a key names.
    pub open spec fn of_key(key: Seq<char>) -> Option<LogLevel> {
        if key == "error"@ {
            Some(LogLevel::Error)
        } else if key == "warn"@ {
            Some(LogLevel::Warn)
        } else if key == "info"@ {
            Some(LogLevel::Info)
        } else if key == "debug"@ {
            Some(LogLevel::Debug)
        } else if key == "trace"@ {
            Some(LogLevel::Trace)
        } else {
            None
        }
    }

    /// Where the level stands among those the preferences offer, from errors alone to
    /// everything.
    pub open spec fn index_of(self) -> int {
        match self {
            LogLevel::Error => 0,
            LogLevel::Warn => 1,
            LogLevel::Info => 2,
            LogLevel::Debug => 3,
            LogLevel::Trace => 4,
        }
    }

    /// The level as the settings spell it.
    pub fn key(self) -> (key: &'static str)
        ensures
            key@ == self.key_of(),
    {
        match self {
            LogLevel::Error => "error",
            LogLevel::Warn => "warn",
            LogLevel::Info => "info",
            LogLevel::Debug => "debug",
            LogLevel::Trace => "trace",
        }
    }
}

/// The level a key names, if it names one.
pub fn level_from_str(key: &str) -> (level: Option<LogLevel>)
    ensures
        level == LogLevel::of_key(key@),
{
    if same_text(key, "error") {
        Some(LogLevel::Error)
    } else if same_text(key, "warn") {
        Some(LogLevel::Warn)
    } else if same_text(key, "info") {
        Some(LogLevel::Info)
    } else if same_text(key, "debug") {
        Some(LogLevel::Debug)
    } else if same_text(key, "trace") {
        Some(LogLevel::Trace)
    } else {
        None
    }
}

/// The level the settings ask for: information when they name none that is known.
pub open spec fn level_asked(key: Seq<char>) -> LogLevel {
    match LogLevel::of_key(key) {
        Some(level) => level,
        None => LogLevel::Info,
    }
}

/// The level the settings ask for.
pub fn level_of(key: &str) -> (level: LogLevel)
    ensures
        level == level_asked(key@),
{
    match level_from_str(key) {
        Some(level) => level,
        None => LogLevel::Info,
    }
}

/// Where the level of the settings stands among those the preferences offer.
pub fn level_index(key: &str) -> (index: u32)
    ensures
        index == level_asked(key@).index_of(),
{
    match level_of(key) {
        LogLevel::Error => 0,
        LogLevel::Warn => 1,
        LogLevel::Info => 2,
        LogLevel::Debug => 3,
        LogLevel::Trace => 4,
    }
}

/// The key of the level at a place among those the preferences offer; information for a place
/// that is none of theirs.
pub fn level_at(index: u32) -> (key: &'static str)
    ensures
        index <= 4 ==> exists|level: LogLevel| #[trigger]
            level.index_of() == index && key@ == level.key_of(),
        index > 4 ==> key@ == LogLevel::Info.key_of(),
{
    let level = match index {
        0 => LogLevel::Error,
        1 => LogLevel::Warn,
        2 => LogLevel::Info,
        3 => LogLevel::Debug,
        4 => LogLevel::Trace,
        _ => LogLevel::Info,
    };
    assert(index <= 4 ==> level.index_of() == index);
    level.key()
}

/// A level comes back from its key, and so the preferences show the one that was chosen.
pub proof fn levels_come_back_from_their_keys(level: LogLevel)
    ensures
        LogLevel::of_key(level.key_of()) == Some(level),
        level_asked(level.key_of()) == level,
{
    reveal_strlit("error");
    reveal_strlit("warn");
    reveal_strlit("info");
    reveal_strlit("debug");
    reveal_strlit("trace");
    assert("error"@.len() == 5 && "warn"@.len() == 4 && "info"@.len() == 4 && "debug"@.len() == 5
        && "trace"@.len() == 5);
    assert("error"@[0] == 'e' && "warn"@[0] == 'w' && "info"@[0] == 'i' && "debug"@[0] == 'd'
        && "trace"@[0] == 't');
}

/// The keys of the levels and their places in the list; what is no key asks for `info`.
pub proof fn levels_have_their_keys_and_places(level: LogLevel, key: Seq<char>)
    ensures
        LogLevel::Error.key_of() == "error"@ && LogLevel::Error.index_of() == 0,
        LogLevel::Warn.key_of() == "warn"@ && LogLevel::Warn.index_of() == 1,
        LogLevel::Info.key_of() == "info"@ && LogLevel::Info.index_of() == 2,
        LogLevel::Debug.key_of() == "debug"@ && LogLevel::Debug.index_of() == 3,
        LogLevel::Trace.key_of() == "trace"@ && LogLevel::Trace.index_of() == 4,
        LogLevel::of_key(key) == Some(level) <==> key == level.key_of(),
        (forall|other: LogLevel| key != #[trigger] other.key_of()) ==> level_asked(key)
            is Info,
{
    levels_come_back_from_their_keys(level);
    assert(key != LogLevel::Error.key_of() && key != LogLevel::Warn.key_of() && key
        != LogLevel::Info.key_of() && key != LogLevel::Debug.key_of() && key
        != LogLevel::Trace.key_of() ==> LogLevel::of_key(key) is None);
}

/// A level is listed at the place where its key is found again.
pub proof fn levels_are_found_at_their_place(
    level: LogLevel,
    key: &str,
    index: u32,
    back: &'static str,
)
    requires
        key@ == level.key_of(),
        call_ensures(level_index, (key,), index),
        call_ensures(level_at, (index,), back),
    ensures
        back@ == key@,
        index <= 4,
{
    levels_come_back_from_their_keys(level);
    let found = choose|found: LogLevel| #[trigger]
        found.index_of() == index && back@ == found.key_of();
    assert(found == level);
}

} // verus!
