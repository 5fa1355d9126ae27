//! Severities, thresholds, and which records a sink takes.

use vstd::prelude::*;

verus! {

/// Severity of a record, from the most severe to the most verbose.
#[derive(Clone, Copy, Debug, PartialEq, Eq, Hash, Structural)]
pub enum Level {
    Error,
    Warn,
    Info,
    Debug,
    Trace,
}

/// Threshold of a sink: the most verbose severity that it still accepts, or
/// `Off` where it accepts none.
#[derive(Clone, Copy, Debug, PartialEq, Eq, Hash, Structural)]
pub enum LevelFilter {
    Off,
    Error,
    Warn,
    Info,
    Debug,
    Trace,
}

impl Level {
    /// Verbosity rank: 1 for `Error` up to 5 for `Trace`.
    pub open spec fn rank(self) -> nat {
        match self {
            Level::Error => 1,
            Level::Warn => 2,
            Level::Info => 3,
            Level::Debug => 4,
            Level::Trace => 5,
        }
    }

    /// The upper-case name that stands for the severity in a line.
    pub open spec fn name(self) -> Seq<char> {
        match self {
            Level::Error => "ERROR"@,
            Level::Warn => "WARN"@,
            Level::Info => "INFO"@,
            Level::Debug => "DEBUG"@,
            Level::Trace => "TRACE"@,
        }
    }

    /// The escape sequence that starts the console colour of the severity:
    /// red, yellow, green, white and gray, from `Error` to `Trace`.
    pub open spec fn color(self) -> Seq<char> {
        match self {
            Level::Error => "\x1b[31m"@,
            Level::Warn => "\x1b[33m"@,
            Level::Info => "\x1b[32m"@,
            Level::Debug => "\x1b[37m"@,
            Level::Trace => "\x1b[90m"@,
        }
    }

    /// The verbosity rank as a number.
    pub fn verbosity(self) -> (r: u8)
        ensures
            r == self.rank(),
    {
        match self {
            Level::Error => 1,
            Level::Warn => 2,
            Level::Info => 3,
            Level::Debug => 4,
            Level::Trace => 5,
        }
    }

    /// The name of the severity in a line.
    pub fn as_str(self) -> (s: &'static str)
        ensures
            s@ == self.name(),
    {
        match self {
            Level::Error => "ERROR",
            Level::Warn => "WARN",
            Level::Info => "INFO",
            Level::Debug => "DEBUG",
            Level::Trace => "TRACE",
        }
    }

    /// The escape sequence that starts the console colour of the severity.
    pub fn color_code(self) -> (s: &'static str)
        ensures
            s@ == self.color(),
    {
        match self {
            Level::Error => "\x1b[31m",
            Level::Warn => "\x1b[33m",
            Level::Info => "\x1b[32m",
            Level::Debug => "\x1b[37m",
            Level::Trace => "\x1b[90m",
        }
    }
}

impl LevelFilter {
    /// Verbosity rank: 0 for `Off`, then as [`Level::rank`].
    pub open spec fn rank(self) -> nat {
        match self {
            LevelFilter::Off => 0,
            LevelFilter::Error => 1,
            LevelFilter::Warn => 2,
            LevelFilter::Info => 3,
            LevelFilter::Debug => 4,
            LevelFilter::Trace => 5,
        }
    }

    /// The more verbose of two thresholds.
    pub open spec fn spec_max(self, other: LevelFilter) -> LevelFilter {
        if self.rank() >= other.rank() {
            self
        } else {
            other
        }
    }

    /// The verbosity rank as a number.
    pub fn verbosity(self) -> (r: u8)
        ensures
            r == self.rank(),
    {
        match self {
            LevelFilter::Off => 0,
            LevelFilter::Error => 1,
            LevelFilter::Warn => 2,
            LevelFilter::Info => 3,
            LevelFilter::Debug => 4,
            LevelFilter::Trace => 5,
        }
    }

    /// The more verbose of two thresholds.
    #[verifier::when_used_as_spec(spec_max)]
    pub fn max(self, other: LevelFilter) -> (m: LevelFilter)
        ensures
            m == self.spec_max(other),
    {
        if self.verbosity() >= other.verbosity() {
            self
        } else {
            other
        }
    }
}

/// Whether a sink with the given threshold takes a record of the given
/// severity: the record is at least as severe as the threshold.
pub open spec fn spec_admits(level: Level, threshold: LevelFilter) -> bool {
    level.rank() <= threshold.rank()
}

/// Whether a sink with the given threshold takes a record of the given
/// severity.
#[verifier::when_used_as_spec(spec_admits)]
pub fn admits(level: Level, threshold: LevelFilter) -> (r: bool)
    ensures
        r == spec_admits(level, threshold),
{
    level.verbosity() <= threshold.verbosity()
}

/// A record passes the more verbose of two thresholds exactly when it passes
/// one of them.
pub proof fn lemma_admits_max(level: Level, a: LevelFilter, b: LevelFilter)
    ensures
        admits(level, a.max(b)) <==> admits(level, a) || admits(level, b),
{
}

} // verus!
