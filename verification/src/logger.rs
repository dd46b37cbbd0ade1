//! What the logger is set up with, and what it writes.

use vstd::prelude::*;
use vstd::string::StringExecFns;
use crate::text::{decimal, format_number};

verus! {

/// How much the logger lets through.
#[derive(Clone, Copy, Debug, PartialEq, Eq, Structural)]
pub enum Level {
    Error,
    Warn,
    Info,
    Debug,
    Trace,
}

impl Level {
    /// The name of the level.
    pub open spec fn spec_name(self) -> Seq<char> {
        match self {
            Level::Error => "ERROR"@,
            Level::Warn => "WARN"@,
            Level::Info => "INFO"@,
            Level::Debug => "DEBUG"@,
            Level::Trace => "TRACE"@,
        }
    }

    /// The name of the level in a column five characters wide.
    pub open spec fn spec_column(self) -> Seq<char> {
        match self {
            Level::Error => "ERROR"@,
            Level::Warn => "WARN "@,
            Level::Info => "INFO "@,
            Level::Debug => "DEBUG"@,
            Level::Trace => "TRACE"@,
        }
    }

    /// The name of the level.
    pub fn as_str(self) -> (name: &'static str)
        ensures
            name@ == self.spec_name(),
    {
        match self {
            Level::Error => "ERROR",
            Level::Warn => "WARN",
            Level::Info => "INFO",
            Level::Debug => "DEBUG",
            Level::Trace => "TRACE",
        }
    }

    /// The name of the level in a column five characters wide.
    pub fn column(self) -> (name: &'static str)
        ensures
            name@ == self.spec_column(),
    {
        match self {
            Level::Error => "ERROR",
            Level::Warn => "WARN ",
            Level::Info => "INFO ",
            Level::Debug => "DEBUG",
            Level::Trace => "TRACE",
        }
    }
}

/// What the logger is set up with: where it writes, and how much.
#[derive(Clone, Copy, Debug)]
pub struct Logger {
    pub console: bool,
    pub logfile: bool,
    pub loglevel: Level,
}

impl Logger {
    /// What the logger says once it is ready.
    pub open spec fn spec_summary(self) -> Seq<char> {
        "activated "@ + (if self.console {
            "console"@
        } else {
            ""@
        }) + (if self.console && self.logfile {
            ","@
        } else {
            ""@
        }) + (if self.logfile {
            "logfile"@
        } else {
            ""@
        }) + " (level="@ + self.loglevel.spec_name() + ")"@
    }

    /// Whether the logger writes anywhere.
    pub fn is_enabled(&self) -> (r: bool)
        ensures
            r == (self.console || self.logfile),
    {
        self.console || self.logfile
    }

    /// What the logger says once it is ready: where it writes and at which level.
    /// A logger that writes nowhere says nothing.
    pub fn summary(&self) -> (text: Option<String>)
        ensures
            text.is_some() == (self.console || self.logfile),
            text matches Some(t) ==> t@ == self.spec_summary(),
    {
        if !self.is_enabled() {
            return None;
        }
        let text = "activated ".to_owned();
        let text = text.concat(if self.console { "console" } else { "" });
        let text = text.concat(if self.console && self.logfile { "," } else { "" });
        let text = text.concat(if self.logfile { "logfile" } else { "" });
        let text = text.concat(" (level=");
        let text = text.concat(self.loglevel.as_str());
        let text = text.concat(")");
        Some(text)
    }
}

/// The encoder of log lines. With `ansi_support` it colours what it writes.
#[derive(Debug, Default, Clone, Copy)]
pub struct HermesEncoder {
    pub ansi_support: bool,
}

impl HermesEncoder {
    /// The encoder with colouring switched on or off.
    pub fn with_ansi(self, ansi: bool) -> (encoder: Self)
        ensures
            encoder.ansi_support == ansi,
    {
        HermesEncoder { ansi_support: ansi }
    }

    /// A log line without colours: when, where, how serious, and what.
    pub open spec fn spec_line(
        timestamp: Seq<char>,
        file: Seq<char>,
        line: u32,
        level: Level,
        message: Seq<char>,
    ) -> Seq<char> {
        timestamp + " \u{2014} "@ + file + ":"@ + decimal(line as nat) + " | "@
            + level.spec_column() + " | "@ + message + "\n"@
    }

    /// Writes a log line without colours: when, where, how serious, and what.
    pub fn line(timestamp: &str, file: &str, line: u32, level: Level, message: &str) -> (text:
        String)
        ensures
            text@ == Self::spec_line(timestamp@, file@, line, level, message@),
    {
        let number = format_number(line as usize);
        let text = timestamp.to_owned();
        let text = text.concat(" \u{2014} ");
        let text = text.concat(file);
        let text = text.concat(":");
        let text = text.concat(number.as_str());
        let text = text.concat(" | ");
        let text = text.concat(level.column());
        let text = text.concat(" | ");
        let text = text.concat(message);
        let text = text.concat("\n");
        text
    }
}

} // verus!
