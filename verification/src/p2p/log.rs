//! The log bus: levels, structured events, and which of them a consumer
//! lets through.

use vstd::prelude::*;
use vstd::string::{StringExecFns, StringSliceAdditionalSpecFns};

use crate::p2p::address::PeerAddress;
use crate::p2p::text::{
    ascii_lower, ascii_string, ascii_text, decimal_bytes, eq_ignore_ascii_case,
    lemma_decimal_ascii, push_decimal,
};

verus! {

/// How much an event matters, from least to most.
#[derive(Debug, Clone, Copy, PartialEq, Eq, PartialOrd, Ord, Structural)]
pub enum LogLevel {
    Trace,
    Debug,
    Info,
    Warn,
    Error,
}

/// The level that a name stands for, whatever the case of its letters.
pub open spec fn level_named(name: Seq<u8>) -> Option<LogLevel> {
    let lower = ascii_lower(name);
    if lower == ascii_lower("trace".spec_bytes()) {
        Some(LogLevel::Trace)
    } else if lower == ascii_lower("debug".spec_bytes()) {
        Some(LogLevel::Debug)
    } else if lower == ascii_lower("info".spec_bytes()) {
        Some(LogLevel::Info)
    } else if lower == ascii_lower("warn".spec_bytes()) {
        Some(LogLevel::Warn)
    } else if lower == ascii_lower("error".spec_bytes()) {
        Some(LogLevel::Error)
    } else {
        None
    }
}

impl LogLevel {
    /// The place of the level in the order from `Trace` to `Error`.
    pub open spec fn rank(self) -> int {
        match self {
            LogLevel::Trace => 0,
            LogLevel::Debug => 1,
            LogLevel::Info => 2,
            LogLevel::Warn => 3,
            LogLevel::Error => 4,
        }
    }

    /// The name of the level, in capitals.
    pub open spec fn label(self) -> Seq<char> {
        match self {
            LogLevel::Trace => "TRACE"@,
            LogLevel::Debug => "DEBUG"@,
            LogLevel::Info => "INFO"@,
            LogLevel::Warn => "WARN"@,
            LogLevel::Error => "ERROR"@,
        }
    }

    /// What opens a line of this level: the name in brackets, padded to
    /// five characters.
    pub open spec fn prefix_text(self) -> Seq<char> {
        match self {
            LogLevel::Trace => "[TRACE]"@,
            LogLevel::Debug => "[DEBUG]"@,
            LogLevel::Info => "[INFO ]"@,
            LogLevel::Warn => "[WARN ]"@,
            LogLevel::Error => "[ERROR]"@,
        }
    }

    /// The name of the level, in capitals.
    pub fn as_str(&self) -> (text: &'static str)
        ensures
            text@ == self.label(),
    {
        match self {
            LogLevel::Trace => "TRACE",
            LogLevel::Debug => "DEBUG",
            LogLevel::Info => "INFO",
            LogLevel::Warn => "WARN",
            LogLevel::Error => "ERROR",
        }
    }

    /// The level that `s` names, whatever the case of its letters.
    pub fn from_str(s: &str) -> (level: Option<LogLevel>)
        ensures
            level == level_named(s.spec_bytes()),
    {
        if eq_ignore_ascii_case(s, "trace") {
            Some(LogLevel::Trace)
        } else if eq_ignore_ascii_case(s, "debug") {
            Some(LogLevel::Debug)
        } else if eq_ignore_ascii_case(s, "info") {
            Some(LogLevel::Info)
        } else if eq_ignore_ascii_case(s, "warn") {
            Some(LogLevel::Warn)
        } else if eq_ignore_ascii_case(s, "error") {
            Some(LogLevel::Error)
        } else {
            None
        }
    }

    /// Whether this level is `min` or matters more.
    pub fn at_least(&self, min: LogLevel) -> (passes: bool)
        ensures
            passes == (self.rank() >= min.rank()),
    {
        let a: u8 = self.number();
        let b: u8 = min.number();
        a >= b
    }

    /// The place of the level in the order from `Trace` to `Error`.
    fn number(&self) -> (n: u8)
        ensures
            n == self.rank(),
    {
        match self {
            LogLevel::Trace => 0,
            LogLevel::Debug => 1,
            LogLevel::Info => 2,
            LogLevel::Warn => 3,
            LogLevel::Error => 4,
        }
    }

    /// What opens a line of this level.
    pub fn prefix(&self) -> (text: &'static str)
        ensures
            text@ == self.prefix_text(),
    {
        match self {
            LogLevel::Trace => "[TRACE]",
            LogLevel::Debug => "[DEBUG]",
            LogLevel::Info => "[INFO ]",
            LogLevel::Warn => "[WARN ]",
            LogLevel::Error => "[ERROR]",
        }
    }
}

/// What happened.
#[derive(Debug, Clone)]
pub enum Event {
    Connected(PeerAddress),
    FailedConnection(PeerAddress, String),
    PeerDiscovered(PeerAddress),
    SavedToDisk(usize),
    Custom(String),
}

/// An event and its level.
#[derive(Debug, Clone)]
pub struct LogMessage {
    pub level: LogLevel,
    pub event: Event,
}

impl LogMessage {
    /// An event at a level.
    pub fn new(level: LogLevel, event: Event) -> (message: LogMessage)
        ensures
            message.level == level,
            message.event == event,
    {
        LogMessage { level, event }
    }
}

impl Event {
    /// The event in words.
    pub open spec fn text(self) -> Seq<char> {
        match self {
            Event::Connected(addr) => "Conectado ao peer "@ + addr@.text(),
            Event::FailedConnection(addr, reason) => "Falha ao conectar em "@ + addr@.text()
                + ": "@ + reason@,
            Event::PeerDiscovered(addr) => "Novo peer descoberto: "@ + addr@.text(),
            Event::SavedToDisk(count) => "Banco de dados salvo ("@ + ascii_text(
                decimal_bytes(count as nat),
            ) + " peers)"@,
            Event::Custom(message) => message@,
        }
    }

    /// The event in words.
    pub fn to_text(&self) -> (text: String)
        ensures
            text@ == self.text(),
    {
        match self {
            Event::Connected(addr) => {
                let mut text: String = "Conectado ao peer ".to_owned();
                text.append(addr.to_text().as_str());
                text
            },
            Event::FailedConnection(addr, reason) => {
                let mut text: String = "Falha ao conectar em ".to_owned();
                text.append(addr.to_text().as_str());
                text.append(": ");
                text.append(reason.as_str());
                text
            },
            Event::PeerDiscovered(addr) => {
                let mut text: String = "Novo peer descoberto: ".to_owned();
                text.append(addr.to_text().as_str());
                text
            },
            Event::SavedToDisk(count) => {
                let mut digits: Vec<u8> = Vec::new();
                push_decimal(&mut digits, *count as u64);
                proof {
                    lemma_decimal_ascii(*count as nat);
                    assert(digits@ =~= decimal_bytes(*count as nat));
                }
                let mut text: String = "Banco de dados salvo (".to_owned();
                text.append(ascii_string(digits.as_slice()).as_str());
                text.append(" peers)");
                text
            },
            Event::Custom(message) => message.clone(),
        }
    }
}

/// The consumer of the log bus: it lets through what is at its level or
/// above.
#[derive(Debug, Clone, Copy)]
pub struct Logger {
    pub min_level: LogLevel,
}

impl Logger {
    /// The line that the consumer writes for `message`: the level's prefix,
    /// a space, and the event in words. `None` for a message below the
    /// consumer's level.
    pub open spec fn line(self, message: LogMessage) -> Option<Seq<char>> {
        if message.level.rank() >= self.min_level.rank() {
            Some(message.level.prefix_text() + " "@ + message.event.text())
        } else {
            None
        }
    }

    /// The line to write for `message`, if it is let through.
    pub fn render(&self, message: &LogMessage) -> (line: Option<String>)
        ensures
            line is Some <==> self.line(*message) is Some,
            line matches Some(text) ==> self.line(*message) == Some(text@),
    {
        if message.level.at_least(self.min_level) {
            let mut text: String = message.level.prefix().to_owned();
            text.append(" ");
            text.append(message.event.to_text().as_str());
            Some(text)
        } else {
            None
        }
    }
}

} // verus!
