//! The configuration store: lower-case keys and their values, held in
//! memory.

use vstd::prelude::*;
use vstd::hash_map::StringHashMap;
use vstd::string::StringExecFns;
use crate::constants::DEFAULT_PORT;
use vstd::slice::{slice_subrange, slice_to_vec};
use vstd::utf8::{decode_utf8, valid_utf8};
use crate::deserialize::{integer_of, parse_i64, u8_to_string};
use crate::errors::ServerError;

verus! {

/// The lower-case form of an ASCII letter; any other character unchanged.
pub open spec fn lower_char(c: char) -> char {
    if 'A' <= c <= 'Z' {
        ((c as u8) + 32) as char
    } else {
        c
    }
}

/// `text` with its ASCII letters in lower case.
pub open spec fn lower(text: Seq<char>) -> Seq<char> {
    Seq::new(text.len(), |i: int| lower_char(text[i]))
}

/// Calls `str::to_ascii_lowercase`, which maps the ASCII letters `A` to
/// `Z` to `a` to `z` and leaves every other character as it is.
#[verifier::external_body]
fn ascii_lowercase(text: &str) -> (res: String)
    ensures
        res@ == lower(text@),
{
    text.to_ascii_lowercase()
}

/// The settings of the server.
pub struct Config {
    settings: StringHashMap<String>,
}

impl View for Config {
    type V = Map<Seq<char>, Seq<char>>;

    closed spec fn view(&self) -> Map<Seq<char>, Seq<char>> {
        Map::new(
            |key: Seq<char>| self.settings@.contains_key(key),
            |key: Seq<char>| self.settings@[key]@,
        )
    }
}

/// The settings that a server starts with.
pub open spec fn default_settings() -> Map<Seq<char>, Seq<char>> {
    Map::<Seq<char>, Seq<char>>::empty().insert("port"@, "6379"@).insert("save"@, ""@).insert(
        "appendonly"@,
        "no"@,
    )
}

/// The port that the value of the `port` setting names; the default port
/// where there is no such setting.
pub open spec fn port_of(settings: Map<Seq<char>, Seq<char>>) -> Option<u16> {
    if !settings.contains_key("port"@) {
        Some(DEFAULT_PORT)
    } else {
        match integer_of(vstd::utf8::encode_utf8(settings["port"@])) {
            Some(p) if 0 <= p <= 65535 => Some(p as u16),
            _ => None,
        }
    }
}

impl Config {
    /// The settings that a server starts with.
    pub fn new() -> (res: Self)
        ensures
            res@ == default_settings(),
    {
        let mut settings: StringHashMap<String> = StringHashMap::new();
        settings.insert(String::from_str("port"), String::from_str("6379"));
        settings.insert(String::from_str("save"), String::from_str(""));
        settings.insert(String::from_str("appendonly"), String::from_str("no"));
        let res = Config { settings };
        assert(res@ =~= default_settings());
        res
    }

    /// Gives the setting `key` the value `value`. The key is held in lower
    /// case.
    pub fn set_config(&mut self, key: &str, value: String)
        ensures
            final(self)@ == old(self)@.insert(lower(key@), value@),
    {
        let name = ascii_lowercase(key);
        self.settings.insert(name, value);
        assert(self@ =~= old(self)@.insert(lower(key@), value@));
    }

    /// The port to listen on, or a `ConfigError` where the setting is no
    /// port number.
    pub fn port(&self) -> (res: Result<u16, ServerError>)
        ensures
            match port_of(self@) {
                Some(p) => res == Ok::<u16, ServerError>(p),
                None => res matches Err(ServerError::ConfigError(s)) && s@ == "invalid port"@,
            },
    {
        match self.settings.get("port") {
            None => Ok(DEFAULT_PORT),
            Some(text) => match parse_i64(text.as_str().as_bytes()) {
                Some(p) if 0 <= p && p <= 65535 => Ok(p as u16),
                _ => Err(ServerError::ConfigError(String::from_str("invalid port"))),
            },
        }
    }
}

/// The value of the setting `key`, looked up in lower case.
pub fn get_config(config: &Config, key: &str) -> (res: Option<String>)
    ensures
        match res {
            Some(value) => config@.contains_key(lower(key@)) && value@ == config@[lower(key@)],
            None => !config@.contains_key(lower(key@)),
        },
{
    let name = ascii_lowercase(key);
    match config.settings.get(name.as_str()) {
        Some(value) => Some(value.clone()),
        None => None,
    }
}

/// The position of the first byte `b` at or after `from`; the length of
/// `bytes` where there is none.
pub open spec fn find_byte(bytes: Seq<u8>, b: u8, from: int) -> int
    decreases bytes.len() - from,
{
    if from < 0 || from >= bytes.len() {
        bytes.len() as int
    } else if bytes[from] == b {
        from
    } else {
        find_byte(bytes, b, from + 1)
    }
}

/// A line without the carriage return at its end, if it has one.
pub open spec fn trim_cr(line: Seq<u8>) -> Seq<u8> {
    if line.len() > 0 && line.last() == 13u8 {
        line.drop_last()
    } else {
        line
    }
}

/// What a line of a configuration file says.
pub enum Line {
    /// Nothing: the line is empty or a comment.
    Skip,
    /// A key and its value.
    Setting(Seq<char>, Seq<char>),
    /// The line is neither.
    Bad,
}

/// What the line `line` says: a line that is empty or starts with `#`
/// says nothing; any other line is a key, a space and a value.
pub open spec fn read_line(line: Seq<u8>) -> Line {
    if line.len() == 0 || line[0] == 35u8 {
        Line::Skip
    } else {
        let space = find_byte(line, 32u8, 0);
        if space >= line.len() {
            Line::Bad
        } else {
            let key = line.subrange(0, space);
            let value = line.subrange(space + 1, line.len() as int);
            if valid_utf8(key) && valid_utf8(value) {
                Line::Setting(decode_utf8(key), decode_utf8(value))
            } else {
                Line::Bad
            }
        }
    }
}

/// The settings after the lines of `contents` from position `from` on
/// were read into `settings`, and whether every line was in order.
/// Reading stops at the first line that is not.
pub open spec fn settings_from(
    settings: Map<Seq<char>, Seq<char>>,
    contents: Seq<u8>,
    from: int,
) -> (Map<Seq<char>, Seq<char>>, bool)
    decreases contents.len() - from,
{
    if from < 0 || from >= contents.len() {
        (settings, true)
    } else {
        let end = find_byte(contents, 10u8, from);
        let next = if end < contents.len() {
            end + 1
        } else {
            contents.len() as int
        };
        if end < from || end > contents.len() {
            (settings, false)
        } else {
            match read_line(trim_cr(contents.subrange(from, end))) {
                Line::Skip => settings_from(settings, contents, next),
                Line::Bad => (settings, false),
                Line::Setting(key, value) => settings_from(
                    settings.insert(lower(key), value),
                    contents,
                    next,
                ),
            }
        }
    }
}

/// Finds the first byte `b` at or after `from`.
fn position_of_byte(bytes: &[u8], b: u8, from: usize) -> (res: usize)
    requires
        from <= bytes@.len(),
    ensures
        res == find_byte(bytes@, b, from as int),
        from <= res <= bytes@.len(),
{
    let mut i: usize = from;
    while i < bytes.len()
        invariant
            from <= i <= bytes@.len(),
            find_byte(bytes@, b, from as int) == find_byte(bytes@, b, i as int),
        decreases bytes@.len() - i,
    {
        if bytes[i] == b {
            return i;
        }
        i = i + 1;
    }
    i
}

/// What one line says, as strings.
fn parse_line(line: &[u8]) -> (res: Option<Option<(String, String)>>)
    ensures
        match read_line(line@) {
            Line::Skip => res == Some(None::<(String, String)>),
            Line::Bad => res is None,
            Line::Setting(key, value) => res matches Some(Some(pair)) && pair.0@ == key && pair.1@
                == value,
        },
{
    if line.len() == 0 || line[0] == 35u8 {
        return Some(None);
    }
    let space = position_of_byte(line, 32u8, 0);
    if space >= line.len() {
        return None;
    }
    let key = u8_to_string(slice_to_vec(slice_subrange(line, 0, space)));
    let value = u8_to_string(slice_to_vec(slice_subrange(line, space + 1, line.len())));
    match (key, value) {
        (Some(key), Some(value)) => Some(Some((key, value))),
        _ => None,
    }
}

/// Reads the contents of a configuration file into the settings, line by
/// line: a line that is empty or starts with `#` is passed over, any other
/// line gives the key before its first space the value after it. Reading
/// stops with a `ConfigError` at the first line that has no space or is
/// not text; the lines before it stay read.
pub fn parse_config_file(config: &mut Config, contents: &[u8]) -> (res: Option<ServerError>)
    ensures
        final(config)@ == settings_from(old(config)@, contents@, 0).0,
        res is None == settings_from(old(config)@, contents@, 0).1,
        res matches Some(e) ==> e matches ServerError::ConfigError(s) && s@ == "invalid line"@,
{
    let mut from: usize = 0;
    while from < contents.len()
        invariant
            from <= contents@.len(),
            settings_from(old(config)@, contents@, 0) == settings_from(
                config@,
                contents@,
                from as int,
            ),
        decreases contents@.len() - from,
    {
        let end = position_of_byte(contents, 10u8, from);
        let mut stop = end;
        if stop > from && contents[stop - 1] == 13u8 {
            stop = stop - 1;
        }
        let line = slice_subrange(contents, from, stop);
        proof {
            let whole = contents@.subrange(from as int, end as int);
            assert(line@ =~= trim_cr(whole));
        }
        match parse_line(line) {
            None => {
                return Some(ServerError::ConfigError(String::from_str("invalid line")));
            },
            Some(None) => {},
            Some(Some(pair)) => {
                config.set_config(pair.0.as_str(), pair.1);
            },
        }
        if end == contents.len() {
            from = end;
        } else {
            from = end + 1;
        }
    }
    None
}

} // verus!
