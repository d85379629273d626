//! The settings of the server, read from the text of its configuration file.

use crate::string_map::{map_of, parse_entries, parse_pairs, StringMap};
use crate::text::copy_range;
use crate::unicode::{chars_of, str_eq, string_of, trim, trim_chars};
use vstd::prelude::*;

verus! {

/// How much the server logs.
#[derive(Debug, Clone, Copy, PartialEq, Eq, Structural)]
pub enum LogLevel {
    Error,
    Warn,
    Info,
    Debug,
}

/// The settings that the server cannot start without.
#[derive(Debug)]
pub struct Config {
    pub log_level: LogLevel,
    pub log_file: String,
    pub ip: String,
    pub database: String,
}

/// The settings as plain values.
pub struct ConfigView {
    pub log_level: LogLevel,
    pub log_file: Seq<char>,
    pub ip: Seq<char>,
    pub database: Seq<char>,
}

impl View for Config {
    type V = ConfigView;

    open spec fn view(&self) -> ConfigView {
        ConfigView {
            log_level: self.log_level,
            log_file: self.log_file@,
            ip: self.ip@,
            database: self.database@,
        }
    }
}

/// `text` without its double quotes and line feeds.
pub open spec fn unquoted(text: Seq<char>) -> Seq<char> {
    text.filter(|c: char| c != '"' && c != '\n')
}

/// The entries of a configuration text: a flat object in braces, with a
/// comma between two entries and a colon between key and value, read without
/// regard to quotes and line feeds. A text that is not in braces has none.
pub open spec fn config_entries(text: Seq<char>) -> Option<Seq<(Seq<char>, Seq<char>)>> {
    let bare = unquoted(text);
    if bare.len() >= 2 && bare[0] == '{' && bare.last() == '}' {
        Some(parse_entries(trim(bare.subrange(1, bare.len() - 1)), ","@, ":"@))
    } else {
        None
    }
}

/// The log level that the entries of a configuration ask for: `0` to `3`
/// under `log_level` for errors, warnings, information and everything;
/// warnings for any other value and where nothing is said.
pub open spec fn log_level_of(entries: Map<Seq<char>, Seq<char>>) -> LogLevel {
    if !entries.contains_key("log_level"@) {
        LogLevel::Warn
    } else if trim(entries["log_level"@]) == "0"@ {
        LogLevel::Error
    } else if trim(entries["log_level"@]) == "1"@ {
        LogLevel::Warn
    } else if trim(entries["log_level"@]) == "2"@ {
        LogLevel::Info
    } else if trim(entries["log_level"@]) == "3"@ {
        LogLevel::Debug
    } else {
        LogLevel::Warn
    }
}

/// The settings that a configuration text gives. There are none if the text
/// is not in braces or says nothing of `log_file`, `ip` or `database`.
pub open spec fn config_of(text: Seq<char>) -> Option<ConfigView> {
    match config_entries(text) {
        None => None,
        Some(entries) => if map_of(entries).contains_key("log_file"@) && map_of(
            entries,
        ).contains_key("ip"@) && map_of(entries).contains_key("database"@) {
            Some(
                ConfigView {
                    log_level: log_level_of(map_of(entries)),
                    log_file: map_of(entries)["log_file"@],
                    ip: map_of(entries)["ip"@],
                    database: map_of(entries)["database"@],
                },
            )
        } else {
            None
        },
    }
}

/// Reads the entries of a configuration text; see [`config_entries`].
pub fn parse_config(text: &str) -> (r: Option<StringMap>)
    ensures
        match r {
            Some(entries) => config_entries(text@) == Some(entries.entries()),
            None => config_entries(text@) is None,
        },
{
    let text = chars_of(text);
    let mut bare: Vec<char> = Vec::new();
    let mut i: usize = 0;
    proof {
        reveal(Seq::filter);
        assert(text@.take(0) =~= Seq::empty());
    }
    while i < text.len()
        invariant
            i <= text@.len(),
            bare@ == unquoted(text@.take(i as int)),
        decreases text.len() - i,
    {
        proof {
            reveal(Seq::filter);
            let taken = text@.take(i + 1);
            assert(taken.drop_last() =~= text@.take(i as int));
            assert(taken.last() == text@[i as int]);
        }
        if text[i] != '"' && text[i] != '\n' {
            bare.push(text[i]);
        }
        i += 1;
    }
    assert(text@.take(i as int) =~= text@);
    let n = bare.len();
    if n < 2 || bare[0] != '{' || bare[n - 1] != '}' {
        return None;
    }
    let inner = trim_chars(copy_range(bare.as_slice(), 1, n - 1).as_slice());
    let comma = chars_of(",");
    let colon = chars_of(":");
    Some(parse_pairs(inner.as_slice(), comma.as_slice(), colon.as_slice()))
}

/// The log level that `entries` ask for; see [`log_level_of`].
pub fn log_level(entries: &StringMap) -> (level: LogLevel)
    ensures
        level == log_level_of(entries@),
{
    match entries.get("log_level") {
        None => LogLevel::Warn,
        Some(value) => {
            let value = string_of(trim_chars(chars_of(value.as_str()).as_slice()).as_slice());
            if str_eq(value.as_str(), "0") {
                LogLevel::Error
            } else if str_eq(value.as_str(), "1") {
                LogLevel::Warn
            } else if str_eq(value.as_str(), "2") {
                LogLevel::Info
            } else if str_eq(value.as_str(), "3") {
                LogLevel::Debug
            } else {
                LogLevel::Warn
            }
        },
    }
}

impl Config {
    /// Reads the settings from a configuration text; see [`config_of`].
    pub fn parse(text: &str) -> (r: Option<Config>)
        ensures
            match r {
                Some(config) => config_of(text@) == Some(config@),
                None => config_of(text@) is None,
            },
    {
        let entries = match parse_config(text) {
            Some(entries) => entries,
            None => {
                return None;
            },
        };
        match (entries.get("log_file"), entries.get("ip"), entries.get("database")) {
            (Some(log_file), Some(ip), Some(database)) => Some(
                Config {
                    log_level: log_level(&entries),
                    log_file: log_file.clone(),
                    ip: ip.clone(),
                    database: database.clone(),
                },
            ),
            _ => None,
        }
    }
}

} // verus!
