//! Severity levels of the messages on stderr.
//!
//! A message of severity `l` shows when `l` is at most the current level, in the
//! order `error < warn < info < debug`. The level starts at [`Level::Error`].

use crate::text;
use crate::text::{same, to_lower, trim};
use vstd::prelude::*;

verus! {

/// A severity, and the verbosity that shows it and all graver ones.
#[derive(Debug, Clone, Copy, PartialEq, Eq, PartialOrd, Ord, Structural)]
pub enum Level {
    Error,
    Warn,
    Info,
    Debug,
}

impl Level {
    /// The place of the level in the order of verbosity.
    pub open spec fn rank(self) -> int {
        match self {
            Level::Error => 0,
            Level::Warn => 1,
            Level::Info => 2,
            Level::Debug => 3,
        }
    }

    /// The level that a word names.
    pub open spec fn named(word: Seq<char>) -> Option<Level> {
        if word == "error"@ {
            Some(Level::Error)
        } else if word == "warn"@ || word == "warning"@ {
            Some(Level::Warn)
        } else if word == "info"@ {
            Some(Level::Info)
        } else if word == "debug"@ {
            Some(Level::Debug)
        } else {
            None
        }
    }

    /// Parses a command-line value (`error|warn|warning|info|debug`), whatever
    /// its case and the white space around it.
    pub fn parse(s: &str) -> (r: Option<Level>)
        ensures
            r == Level::named(text::lowered(text::trimmed(s@))),
    {
        let word = to_lower(trim(s));
        let w = word.as_str();
        if same(w, "error") {
            Some(Level::Error)
        } else if same(w, "warn") || same(w, "warning") {
            Some(Level::Warn)
        } else if same(w, "info") {
            Some(Level::Info)
        } else if same(w, "debug") {
            Some(Level::Debug)
        } else {
            None
        }
    }
}

fn rank_of(level: Level) -> (r: u8)
    ensures
        r == level.rank(),
{
    match level {
        Level::Error => 0,
        Level::Warn => 1,
        Level::Info => 2,
        Level::Debug => 3,
    }
}

/// The level that holds until one is set.
pub fn default_level() -> (r: Level)
    ensures
        r == Level::Error,
{
    Level::Error
}

/// Sets the current level.
pub fn set_level(current: &mut Level, level: Level)
    ensures
        *final(current) == level,
{
    *current = level;
}

/// Whether a message of severity `level` shows at the current level.
pub fn enabled(current: Level, level: Level) -> (r: bool)
    ensures
        r == (level.rank() <= current.rank()),
{
    rank_of(level) <= rank_of(current)
}

/// The current level shows its own messages and all graver ones, and no others:
/// errors always, and debug messages only where all show.
pub proof fn law_level_shows_graver(current: Level, level: Level, r: bool)
    requires
        call_ensures(enabled, (current, level), r),
    ensures
        level is Error ==> r,
        level is Warn ==> (r <==> !(current is Error)),
        level is Info ==> (r <==> current is Info || current is Debug),
        level is Debug ==> (r <==> current is Debug),
{
}

/// Only errors show until a level is set, and the level that was set holds.
pub proof fn law_level_holds_once_set(current: &mut Level, level: Level, first: Level)
    requires
        call_ensures(default_level, (), first),
        call_ensures(set_level, (current, level), ()),
    ensures
        first is Error,
        *final(current) == level,
{
}

/// The words that name a level, two of them the same one, and that no other word does.
pub proof fn law_words_name_levels(s: &str, r: Option<Level>)
    requires
        call_ensures(Level::parse, (s,), r),
    ensures
        ({
            let word = text::lowered(text::trimmed(s@));
            &&& r == Some(Level::Error) <==> word == "error"@
            &&& r == Some(Level::Warn) <==> word == "warn"@ || word == "warning"@
            &&& r == Some(Level::Info) <==> word == "info"@
            &&& r == Some(Level::Debug) <==> word == "debug"@
        }),
{
    reveal_strlit("error");
    reveal_strlit("warn");
    reveal_strlit("warning");
    reveal_strlit("info");
    reveal_strlit("debug");
    assert("error"@.len() == 5 && "warn"@.len() == 4 && "warning"@.len() == 7);
    assert("info"@.len() == 4 && "debug"@.len() == 5);
    assert("error"@[0] == 'e' && "debug"@[0] == 'd' && "warn"@[0] == 'w' && "info"@[0] == 'i');
}

} // verus!
