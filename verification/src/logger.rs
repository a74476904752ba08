//! The rules of the terminal logger: which records it shows and in which
//! colour it marks them.

use vstd::prelude::*;

use crate::cli::LevelFilter;

verus! {

/// Severity of a log record.
#[derive(Debug, Clone, Copy, PartialEq, Eq, Structural)]
pub enum Level {
    Error,
    Warn,
    Info,
    Debug,
    Trace,
}

impl Level {
    /// Position of the level on the scale shared with `LevelFilter`:
    /// `Error` = 1 .. `Trace` = 5.
    pub open spec fn rank(self) -> nat {
        match self {
            Level::Error => 1,
            Level::Warn => 2,
            Level::Info => 3,
            Level::Debug => 4,
            Level::Trace => 5,
        }
    }
}

/// The filter that bears the same name as `level`.
pub open spec fn namesake(level: Level) -> LevelFilter {
    match level {
        Level::Error => LevelFilter::Error,
        Level::Warn => LevelFilter::Warn,
        Level::Info => LevelFilter::Info,
        Level::Debug => LevelFilter::Debug,
        Level::Trace => LevelFilter::Trace,
    }
}

/// Law: a record of each level passes the filter of the same name and every
/// more talkative one, and no quieter one; levels of different names never
/// pass exactly the same filters.
pub proof fn lemma_level_passes_namesake(level: Level, other: Level, f: LevelFilter)
    ensures
        (level.rank() <= f.rank()) <==> (namesake(level).rank() <= f.rank()),
        level.rank() <= namesake(level).rank(),
        namesake(level).rank() > 0 && !(level.rank() <= (namesake(level).rank() - 1)),
        level.rank() == other.rank() ==> level == other,
{
    crate::cli::lemma_filter_steps(0, 0);
}

/// Colour of the bold marker put in front of a record.
#[derive(Debug, Clone, Copy, PartialEq, Eq, Structural)]
pub enum Color {
    Red,
    Yellow,
    Green,
    Blue,
    White,
}

/// The marker colour for records of `level`.
pub fn level_color(level: Level) -> (c: Color)
    ensures
        c == match level {
            Level::Error => Color::Red,
            Level::Warn => Color::Yellow,
            Level::Info => Color::Green,
            Level::Debug => Color::Blue,
            Level::Trace => Color::White,
        },
{
    match level {
        Level::Error => Color::Red,
        Level::Warn => Color::Yellow,
        Level::Info => Color::Green,
        Level::Debug => Color::Blue,
        Level::Trace => Color::White,
    }
}

/// Whether a record of `level` passes `filter`: its level is no more
/// talkative than the filter.
pub fn level_enabled(level: Level, filter: LevelFilter) -> (r: bool)
    ensures
        r == (level.rank() <= filter.rank()),
{
    let l: u8 = match level {
        Level::Error => 1,
        Level::Warn => 2,
        Level::Info => 3,
        Level::Debug => 4,
        Level::Trace => 5,
    };
    let f: u8 = match filter {
        LevelFilter::Off => 0,
        LevelFilter::Error => 1,
        LevelFilter::Warn => 2,
        LevelFilter::Info => 3,
        LevelFilter::Debug => 4,
        LevelFilter::Trace => 5,
    };
    l <= f
}

} // verus!
