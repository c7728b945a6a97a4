use vstd::prelude::*;

use crate::bytes::str_eq;

verus! {

/// Severity of a log message, ordered from least to most severe.
#[derive(Copy, Clone, Debug, PartialEq, Eq, Structural)]
pub enum Level {
    Debug,
    Info,
    Warn,
    Error,
}

impl Level {
    /// Coloured, fixed-width label printed in front of a log line.
    pub fn log_str(&self) -> (r: &'static str)
        ensures
            r@ == level_label(*self),
    {
        match self {
            Level::Debug => "\x1b[32;1mDEBUG\x1b[m",
            Level::Info => "\x1b[34;1m INFO\x1b[m",
            Level::Warn => "\x1b[33;1m WARN\x1b[m",
            Level::Error => "\x1b[91;1mERROR\x1b[m",
        }
    }
}

/// What `str::to_lowercase` returns for the characters `s`.
pub uninterp spec fn lower_of(s: Seq<char>) -> Seq<char>;

/// Relies on `str::to_lowercase`: the result depends on the characters alone.
#[verifier::external_body]
fn lowercase(s: &str) -> (r: String)
    ensures
        r@ == lower_of(s@),
{
    s.to_lowercase()
}

/// The level whose lower-case name is `s`.
pub open spec fn level_named(s: Seq<char>) -> Option<Level> {
    if s == "debug"@ {
        Some(Level::Debug)
    } else if s == "info"@ {
        Some(Level::Info)
    } else if s == "warn"@ {
        Some(Level::Warn)
    } else if s == "error"@ {
        Some(Level::Error)
    } else {
        None
    }
}

impl Level {
    /// The level named by `s`, which is already in lower case.
    pub fn from_lowercase(s: &str) -> (r: Result<Level, ()>)
        ensures
            match level_named(s@) {
                Some(l) => r == Ok::<Level, ()>(l),
                None => r is Err,
            },
    {
        if str_eq(s, "debug") {
            Ok(Level::Debug)
        } else if str_eq(s, "info") {
            Ok(Level::Info)
        } else if str_eq(s, "warn") {
            Ok(Level::Warn)
        } else if str_eq(s, "error") {
            Ok(Level::Error)
        } else {
            Err(())
        }
    }

    /// The level named by `s`, in any case.
    pub fn from_str(s: &str) -> (r: Result<Level, ()>)
        ensures
            match level_named(lower_of(s@)) {
                Some(l) => r == Ok::<Level, ()>(l),
                None => r is Err,
            },
    {
        let lower = lowercase(s);
        Self::from_lowercase(lower.as_str())
    }
}

pub open spec fn level_label(l: Level) -> Seq<char> {
    match l {
        Level::Debug => "\x1b[32;1mDEBUG\x1b[m"@,
        Level::Info => "\x1b[34;1m INFO\x1b[m"@,
        Level::Warn => "\x1b[33;1m WARN\x1b[m"@,
        Level::Error => "\x1b[91;1mERROR\x1b[m"@,
    }
}

} // verus!
