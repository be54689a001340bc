//! The commands of the server: how a request names one, and what each
//! replies.

use vstd::prelude::*;
use vstd::slice::slice_to_vec;
use vstd::string::StringExecFns;
use vstd::utf8::encode_utf8;
use crate::datastore::{lookup, set_reply, Entry, Lookup};
use crate::db::{read_gives, write_gives};
use crate::options::{
    fault_text,
    has_keyword_from,
    lemma_nx_xx_exclusive,
    no_options,
    parse_options_from,
    token_bytes,
    Keyword,
};
use crate::db::Db;
use crate::errors::{DataStoreError, UserInputError};
use crate::redisconfig::{get_config, lower, Config};
use crate::resp_value::{RespType, RespValue};
use crate::text::{fold, is_word};

verus! {

/// A request, told apart by its first word.
#[derive(Debug)]
pub enum RedisCommand {
    Ping,
    Echo(String),
    Get(String),
    /// SET: the key, the value and the options.
    SetKey(String, String, Vec<String>),
    Unknown(String),
    Config(Vec<String>),
}

/// What a `RedisCommand` stands for.
pub enum Command {
    Ping,
    Echo(Seq<char>),
    Get(Seq<char>),
    SetKey(Seq<char>, Seq<char>, Seq<Seq<char>>),
    Unknown(Seq<char>),
    Config(Seq<Seq<char>>),
}

/// The text of each string.
pub open spec fn owned_texts(items: Seq<String>) -> Seq<Seq<char>> {
    Seq::new(items.len(), |i: int| items[i]@)
}

/// The text of each string slice.
pub open spec fn texts(items: Seq<&str>) -> Seq<Seq<char>> {
    Seq::new(items.len(), |i: int| items[i]@)
}

impl View for RedisCommand {
    type V = Command;

    open spec fn view(&self) -> Command {
        match self {
            RedisCommand::Ping => Command::Ping,
            RedisCommand::Echo(s) => Command::Echo(s@),
            RedisCommand::Get(k) => Command::Get(k@),
            RedisCommand::SetKey(k, v, options) => Command::SetKey(k@, v@, owned_texts(options@)),
            RedisCommand::Unknown(name) => Command::Unknown(name@),
            RedisCommand::Config(words) => Command::Config(owned_texts(words@)),
        }
    }
}

/// The words that name a command or a part of one.
#[derive(Clone, Copy, Debug, PartialEq, Eq)]
pub enum Word {
    Ping,
    Echo,
    Get,
    SetKey,
    Config,
    Other,
}

/// The word that a token is, without regard to ASCII case.
pub open spec fn word_of(token: Seq<u8>) -> Word {
    let word = fold(token);
    if word == seq![80u8, 73u8, 78u8, 71u8] {  // PING
        Word::Ping
    } else if word == seq![69u8, 67u8, 72u8, 79u8] {  // ECHO
        Word::Echo
    } else if word == seq![71u8, 69u8, 84u8] {  // GET
        Word::Get
    } else if word == seq![83u8, 69u8, 84u8] {  // SET
        Word::SetKey
    } else if word == seq![67u8, 79u8, 78u8, 70u8, 73u8, 71u8] {  // CONFIG
        Word::Config
    } else {
        Word::Other
    }
}

/// Tells which word a token is.
pub fn command_word(token: &[u8]) -> (res: Word)
    ensures
        res == word_of(token@),
{
    let ping: [u8; 4] = [80u8, 73u8, 78u8, 71u8];
    let echo: [u8; 4] = [69u8, 67u8, 72u8, 79u8];
    let get: [u8; 3] = [71u8, 69u8, 84u8];
    let set: [u8; 3] = [83u8, 69u8, 84u8];
    let config: [u8; 6] = [67u8, 79u8, 78u8, 70u8, 73u8, 71u8];
    proof {
        assert(ping@ =~= seq![80u8, 73u8, 78u8, 71u8]);
        assert(echo@ =~= seq![69u8, 67u8, 72u8, 79u8]);
        assert(get@ =~= seq![71u8, 69u8, 84u8]);
        assert(set@ =~= seq![83u8, 69u8, 84u8]);
        assert(config@ =~= seq![67u8, 79u8, 78u8, 70u8, 73u8, 71u8]);
    }
    if is_word(token, ping.as_slice()) {
        Word::Ping
    } else if is_word(token, echo.as_slice()) {
        Word::Echo
    } else if is_word(token, get.as_slice()) {
        Word::Get
    } else if is_word(token, set.as_slice()) {
        Word::SetKey
    } else if is_word(token, config.as_slice()) {
        Word::Config
    } else {
        Word::Other
    }
}

/// The word at position `i`, or the empty text where there is none.
pub open spec fn word_at(words: Seq<Seq<char>>, i: int) -> Seq<char> {
    if 0 <= i < words.len() {
        words[i]
    } else {
        Seq::empty()
    }
}

/// The words from position `i` on.
pub open spec fn words_from(words: Seq<Seq<char>>, i: int) -> Seq<Seq<char>> {
    if 0 <= i <= words.len() {
        words.skip(i)
    } else {
        Seq::empty()
    }
}

/// The command that the words of a request name: the first word, without
/// regard to ASCII case, tells which; a word that the request lacks
/// counts as empty.
pub open spec fn command_of(words: Seq<Seq<char>>) -> Command {
    match word_of(encode_utf8(words[0])) {
        Word::Ping => Command::Ping,
        Word::Echo => Command::Echo(word_at(words, 1)),
        Word::Get => Command::Get(word_at(words, 1)),
        Word::SetKey => Command::SetKey(word_at(words, 1), word_at(words, 2), words_from(words, 3)),
        Word::Config => Command::Config(words_from(words, 1)),
        Word::Other => Command::Unknown(words[0]),
    }
}

/// The word at position `i` as a string of its own.
fn owned_word(cmd: &Vec<&str>, i: usize) -> (res: String)
    ensures
        res@ == word_at(texts(cmd@), i as int),
{
    if i < cmd.len() {
        cmd[i].to_string()
    } else {
        String::new()
    }
}

/// The words from position `from` on as strings of their own.
fn owned_words(cmd: &Vec<&str>, from: usize) -> (res: Vec<String>)
    ensures
        owned_texts(res@) == words_from(texts(cmd@), from as int),
{
    let mut res: Vec<String> = Vec::new();
    if from > cmd.len() {
        assert(owned_texts(res@) =~= words_from(texts(cmd@), from as int));
        return res;
    }
    let mut i: usize = from;
    while i < cmd.len()
        invariant
            from <= i <= cmd@.len(),
            res@.len() == i - from,
            forall|k: int| 0 <= k < res@.len() ==> (#[trigger] res@[k])@ == cmd@[k + from]@,
        decreases cmd@.len() - i,
    {
        res.push(cmd[i].to_string());
        i = i + 1;
    }
    assert(owned_texts(res@) =~= words_from(texts(cmd@), from as int));
    res
}

impl RedisCommand {
    /// Tells which command the words of a request name.
    pub fn from_str(cmd: Vec<&str>) -> (res: Self)
        requires
            cmd@.len() > 0,
        ensures
            res@ == command_of(texts(cmd@)),
    {
        match command_word(cmd[0].as_bytes()) {
            Word::Ping => RedisCommand::Ping,
            Word::Echo => RedisCommand::Echo(owned_word(&cmd, 1)),
            Word::Get => RedisCommand::Get(owned_word(&cmd, 1)),
            Word::SetKey => RedisCommand::SetKey(
                owned_word(&cmd, 1),
                owned_word(&cmd, 2),
                owned_words(&cmd, 3),
            ),
            Word::Config => RedisCommand::Config(owned_words(&cmd, 1)),
            Word::Other => RedisCommand::Unknown(owned_word(&cmd, 0)),
        }
    }
}

/// The bytes of a text as a bulk string.
fn bulk(text: &str) -> (res: RespType)
    ensures
        res@ == RespValue::BulkString(Some(encode_utf8(text@))),
{
    RespType::BulkString(Some(slice_to_vec(text.as_bytes())))
}

/// An `InvalidInput` with the text `text`.
fn invalid(text: &str) -> (res: Result<RespType, UserInputError>)
    ensures
        res matches Err(UserInputError::InvalidInput(s)) && s@ == text@,
{
    Err(UserInputError::InvalidInput(String::from_str(text)))
}

/// The reply to a GET whose read of the keyspace ended in `outcome`: the
/// value as a bulk string; the null bulk string where the key is missing
/// or has expired; any other error handed on.
pub fn reply_to_get(outcome: Result<String, DataStoreError>) -> (res: Result<
    RespType,
    UserInputError,
>)
    ensures
        match outcome {
            Ok(value) => res matches Ok(r) && r@ == RespValue::BulkString(
                Some(encode_utf8(value@)),
            ),
            Err(DataStoreError::KeyNotFound) => res matches Ok(r) && r@ == RespValue::BulkString(
                None,
            ),
            Err(DataStoreError::ExpiredKey) => res matches Ok(r) && r@ == RespValue::BulkString(
                None,
            ),
            Err(e) => res == Err::<RespType, UserInputError>(UserInputError::DataStoreError(e)),
        },
{
    match outcome {
        Ok(value) => Ok(bulk(value.as_str())),
        Err(DataStoreError::KeyNotFound) => Ok(RespType::BulkString(None)),
        Err(DataStoreError::ExpiredKey) => Ok(RespType::BulkString(None)),
        Err(e) => Err(UserInputError::DataStoreError(e)),
    }
}

/// The reply to a SET whose write to the keyspace ended in `outcome`.
pub fn reply_to_set(outcome: Result<RespType, DataStoreError>) -> (res: Result<
    RespType,
    UserInputError,
>)
    ensures
        match outcome {
            Ok(reply) => res == Ok::<RespType, UserInputError>(reply),
            Err(e) => res == Err::<RespType, UserInputError>(UserInputError::DataStoreError(e)),
        },
{
    match outcome {
        Ok(reply) => Ok(reply),
        Err(e) => Err(UserInputError::DataStoreError(e)),
    }
}

/// What a CONFIG request does to the settings.
pub open spec fn config_after(
    settings: Map<Seq<char>, Seq<char>>,
    words: Seq<Seq<char>>,
) -> Map<Seq<char>, Seq<char>> {
    if words.len() >= 3 && word_of(encode_utf8(words[0])) is SetKey {
        settings.insert(lower(words[1]), words[2])
    } else {
        settings
    }
}

/// Why a CONFIG request is refused, if it is.
pub open spec fn config_refusal(words: Seq<Seq<char>>) -> Option<Seq<char>> {
    if words.len() == 0 {
        Some("No action provided for CONFIG command"@)
    } else {
        match word_of(encode_utf8(words[0])) {
            Word::Get => if words.len() < 2 {
                Some("No key provided for CONFIG GET"@)
            } else {
                None
            },
            Word::SetKey => if words.len() < 2 {
                Some("No key provided for CONFIG SET"@)
            } else if words.len() < 3 {
                Some("No value provided for CONFIG SET"@)
            } else {
                None
            },
            _ => Some("Invalid action provided for CONFIG command: "@ + words[0]),
        }
    }
}

/// The reply to a CONFIG request that is not refused: for GET the key
/// and its value as an array of two bulk strings, or the null array where
/// the key is unknown; for SET, OK.
pub open spec fn config_reply(
    settings: Map<Seq<char>, Seq<char>>,
    words: Seq<Seq<char>>,
) -> RespValue {
    if word_of(encode_utf8(words[0])) is Get {
        if settings.contains_key(lower(words[1])) {
            RespValue::Array(
                Some(
                    seq![
                        RespValue::BulkString(Some(encode_utf8(words[1]))),
                        RespValue::BulkString(Some(encode_utf8(settings[lower(words[1])]))),
                    ],
                ),
            )
        } else {
            RespValue::Array(None)
        }
    } else {
        RespValue::SimpleString("OK"@)
    }
}

/// Runs a CONFIG request on the settings.
pub fn handle_config(words: &Vec<String>, config: &mut Config) -> (res: Result<
    RespType,
    UserInputError,
>)
    ensures
        final(config)@ == config_after(old(config)@, owned_texts(words@)),
        match config_refusal(owned_texts(words@)) {
            Some(text) => res matches Err(UserInputError::InvalidInput(s)) && s@ == text,
            None => res matches Ok(r) && r@ == config_reply(old(config)@, owned_texts(words@)),
        },
{
    if words.len() == 0 {
        return invalid("No action provided for CONFIG command");
    }
    match command_word(words[0].as_str().as_bytes()) {
        Word::Get => {
            if words.len() < 2 {
                return invalid("No key provided for CONFIG GET");
            }
            match get_config(config, words[1].as_str()) {
                None => Ok(RespType::Array(None)),
                Some(value) => {
                    let mut pair: Vec<RespType> = Vec::new();
                    pair.push(bulk(words[1].as_str()));
                    pair.push(bulk(value.as_str()));
                    let reply = RespType::Array(Some(pair));
                    proof {
                        crate::resp_value::lemma_views_of(pair@);
                        assert(crate::resp_value::views_of(pair@) =~= seq![
                            RespValue::BulkString(Some(encode_utf8(words@[1]@))),
                            RespValue::BulkString(Some(encode_utf8(value@))),
                        ]);
                    }
                    Ok(reply)
                },
            }
        },
        Word::SetKey => {
            if words.len() < 2 {
                return invalid("No key provided for CONFIG SET");
            }
            if words.len() < 3 {
                return invalid("No value provided for CONFIG SET");
            }
            config.set_config(words[1].as_str(), words[2].clone());
            Ok(RespType::SimpleString(String::from_str("OK")))
        },
        _ => {
            let mut text = String::from_str("Invalid action provided for CONFIG command: ");
            text.append(words[0].as_str());
            Err(UserInputError::InvalidInput(text))
        },
    }
}

/// What is owed to a request whatever the keyspace holds: the reply of a
/// command that does not read it, and the refusal of a GET without a key
/// or a SET without a key or a value. `None` where the keyspace decides.
pub open spec fn fixed_outcome(command: Command) -> Option<Result<RespValue, Seq<char>>> {
    match command {
        Command::Ping => Some(Ok(RespValue::SimpleString("PONG"@))),
        Command::Echo(text) => if text.len() > 0 {
            Some(Ok(RespValue::SimpleString(text)))
        } else {
            Some(Err("No message provided to ECHO"@))
        },
        Command::Get(key) => if key.len() > 0 {
            None
        } else {
            Some(Err("No key provided to GET"@))
        },
        Command::SetKey(key, value, _) => if key.len() > 0 && value.len() > 0 {
            None
        } else {
            Some(Err("No key/value provided to SET"@))
        },
        _ => None,
    }
}

/// The bytes of each option of a SET.
pub open spec fn option_tokens(options: Seq<Seq<char>>) -> Seq<Seq<u8>> {
    Seq::new(options.len(), |i: int| encode_utf8(options[i]))
}

/// Whether the options of a SET hold both NX and XX.
pub open spec fn nx_with_xx(options: Seq<Seq<char>>) -> bool {
    has_keyword_from(option_tokens(options), Keyword::Nx, 0) && has_keyword_from(
        option_tokens(options),
        Keyword::Xx,
        0,
    )
}

/// What a GET of `key` gives at time `now`: an error where the lock of
/// the shard was not had (`shard` is `None`); else the value that the
/// shard holds as a bulk string, or the null bulk string where the key is
/// missing or has expired.
pub open spec fn get_gives(
    key: Seq<char>,
    now: int,
    shard: Option<Map<Seq<char>, Entry>>,
    res: Result<RespType, UserInputError>,
) -> bool {
    match shard {
        None => res == Err::<RespType, UserInputError>(
            UserInputError::DataStoreError(DataStoreError::LockError),
        ),
        Some(m) => match lookup(m, key, now) {
            Lookup::Found(text) => res matches Ok(r) && r@ == RespValue::BulkString(
                Some(encode_utf8(text)),
            ),
            _ => res matches Ok(r) && r@ == RespValue::BulkString(None),
        },
    }
}

/// What a SET of `key` gives at time `now`: an error where the options
/// are not in order; else an error where the lock of the shard was not
/// had (`shard` is `None`); else the reply that the shard owes.
pub open spec fn set_gives(
    key: Seq<char>,
    options: Seq<Seq<char>>,
    now: int,
    shard: Option<Map<Seq<char>, Entry>>,
    res: Result<RespType, UserInputError>,
) -> bool {
    match parse_options_from(option_tokens(options), 0, no_options(), now) {
        Err(fault) => res matches Err(
            UserInputError::DataStoreError(DataStoreError::InvalidOptions(s)),
        ) && s@ == fault_text(fault),
        Ok(parsed) => match shard {
            None => res == Err::<RespType, UserInputError>(
                UserInputError::DataStoreError(DataStoreError::LockError),
            ),
            Some(m) => res matches Ok(r) && r@ == set_reply(m, key, parsed, now),
        },
    }
}

/// What a GET of `key` owes: what `get_gives` says for some time and
/// for some state of the shard.
pub open spec fn get_handled(key: Seq<char>, res: Result<RespType, UserInputError>) -> bool {
    exists|now: int, shard: Option<Map<Seq<char>, Entry>>|
        #[trigger] get_gives(key, now, shard, res)
}

/// What a SET of `key` owes: what `set_gives` says for some time and for
/// some state of the shard; and where the options hold both NX and XX,
/// the refusal of the options.
pub open spec fn set_handled(
    key: Seq<char>,
    options: Seq<Seq<char>>,
    res: Result<RespType, UserInputError>,
) -> bool {
    &&& exists|now: int, shard: Option<Map<Seq<char>, Entry>>|
        #[trigger] set_gives(key, options, now, shard, res)
    &&& nx_with_xx(options) ==> (res matches Err(
        UserInputError::DataStoreError(DataStoreError::InvalidOptions(_)),
    ))
}

/// What running the request `words` owes: the settings `after` it and
/// its result `res`, given the settings `before` it. A command that goes
/// to the keyspace is owed a result of the right shape; which one, the
/// keyspace decides.
pub open spec fn handled(
    words: Seq<Seq<char>>,
    before: Map<Seq<char>, Seq<char>>,
    after: Map<Seq<char>, Seq<char>>,
    res: Result<RespType, UserInputError>,
) -> bool {
    match command_of(words) {
        Command::Unknown(name) => {
            &&& res matches Err(UserInputError::UnknownCommand(s))
            &&& s@ == name
            &&& after == before
        },
        Command::Config(parts) => {
            &&& after == config_after(before, parts)
            &&& match config_refusal(parts) {
                Some(text) => res matches Err(UserInputError::InvalidInput(s)) && s@ == text,
                None => res matches Ok(r) && r@ == config_reply(before, parts),
            }
        },
        command => {
            &&& after == before
            &&& match fixed_outcome(command) {
                Some(Ok(reply)) => res matches Ok(r) && r@ == reply,
                Some(Err(text)) => res matches Err(UserInputError::InvalidInput(s)) && s@
                    == text,
                None => match command {
                    Command::Get(key) => get_handled(key, res),
                    Command::SetKey(key, _, options) => set_handled(key, options, res),
                    _ => true,
                },
            }
        },
    }
}

/// Runs one request: PING and ECHO reply at once, GET and SET go to the
/// keyspace, CONFIG to the settings; any other word is an unknown
/// command.
pub fn handle_input_cmd(cmd: Vec<&str>, db: &Db, config: &mut Config) -> (res: Result<
    RespType,
    UserInputError,
>)
    requires
        cmd@.len() > 0,
    ensures
        handled(texts(cmd@), old(config)@, final(config)@, res),
{
    match RedisCommand::from_str(cmd) {
        RedisCommand::Ping => Ok(RespType::SimpleString(String::from_str("PONG"))),
        RedisCommand::Echo(text) => {
            if !text.as_str().is_empty() {
                Ok(RespType::SimpleString(text))
            } else {
                invalid("No message provided to ECHO")
            }
        },
        RedisCommand::Get(key) => {
            if !key.as_str().is_empty() {
                let outcome = db.get(key.as_str());
                let ghost (now, shard) = choose|now: int, shard: Option<Map<Seq<char>, Entry>>|
                    #[trigger] read_gives(key@, now, shard, outcome);
                let res = reply_to_get(outcome);
                assert(get_gives(key@, now, shard, res));
                assert(get_handled(key@, res));
                res
            } else {
                invalid("No key provided to GET")
            }
        },
        RedisCommand::SetKey(key, value, options) => {
            if !key.as_str().is_empty() && !value.as_str().is_empty() {
                let ghost words = owned_texts(options@);
                proof {
                    assert(token_bytes(options@) =~= option_tokens(words));
                }
                let outcome = db.set(key.as_str(), value.as_str(), options);
                let ghost (now, shard) = choose|now: int, shard: Option<Map<Seq<char>, Entry>>|
                    #[trigger] write_gives(key@, options@, now, shard, outcome);
                let res = reply_to_set(outcome);
                assert(set_gives(key@, words, now, shard, res));
                assert(set_handled(key@, words, res));
                res
            } else {
                invalid("No key/value provided to SET")
            }
        },
        RedisCommand::Config(words) => handle_config(&words, config),
        RedisCommand::Unknown(name) => Err(UserInputError::UnknownCommand(name)),
    }
}

} // verus!
