use redis_server::commands::{
    command_word, handle_config, handle_input_cmd, reply_to_get, reply_to_set, RedisCommand, Word,
};
use redis_server::db::Db;
use redis_server::errors::{
    DataStoreError, DeserializeError, ServerError, UserInputError,
};
use redis_server::redisconfig::{get_config, Config};
use redis_server::resp_value::RespType;

fn bulk(text: &str) -> RespType {
    RespType::BulkString(Some(text.as_bytes().to_vec()))
}

fn ok() -> RespType {
    RespType::SimpleString("OK".to_string())
}

#[test]
fn first_word_names_the_command_without_regard_to_case() {
    assert_eq!(command_word(b"PING"), Word::Ping);
    assert_eq!(command_word(b"ping"), Word::Ping);
    assert_eq!(command_word(b"eChO"), Word::Echo);
    assert_eq!(command_word(b"get"), Word::Get);
    assert_eq!(command_word(b"Set"), Word::SetKey);
    assert_eq!(command_word(b"config"), Word::Config);
    assert_eq!(command_word(b"pingx"), Word::Other);
    assert_eq!(command_word(b""), Word::Other);
}

#[test]
fn from_str_fills_missing_words_with_empty_text() {
    assert!(matches!(RedisCommand::from_str(vec!["ping", "extra"]), RedisCommand::Ping));
    match RedisCommand::from_str(vec!["ECHO"]) {
        RedisCommand::Echo(text) => assert_eq!(text, ""),
        _ => panic!("not an echo"),
    }
    match RedisCommand::from_str(vec!["get", "k"]) {
        RedisCommand::Get(key) => assert_eq!(key, "k"),
        _ => panic!("not a get"),
    }
    match RedisCommand::from_str(vec!["set", "k"]) {
        RedisCommand::SetKey(key, value, options) => {
            assert_eq!(key, "k");
            assert_eq!(value, "");
            assert!(options.is_empty());
        }
        _ => panic!("not a set"),
    }
    match RedisCommand::from_str(vec!["SET", "k", "v", "EX", "5"]) {
        RedisCommand::SetKey(key, value, options) => {
            assert_eq!(key, "k");
            assert_eq!(value, "v");
            assert_eq!(options, vec!["EX".to_string(), "5".to_string()]);
        }
        _ => panic!("not a set"),
    }
    match RedisCommand::from_str(vec!["CONFIG", "GET", "port"]) {
        RedisCommand::Config(words) => {
            assert_eq!(words, vec!["GET".to_string(), "port".to_string()])
        }
        _ => panic!("not a config"),
    }
    match RedisCommand::from_str(vec!["flushall", "now"]) {
        RedisCommand::Unknown(name) => assert_eq!(name, "flushall"),
        _ => panic!("not unknown"),
    }
}

#[test]
fn ping_and_echo() {
    let db = Db::new(2);
    let mut config = Config::new();
    assert_eq!(
        handle_input_cmd(vec!["PING"], &db, &mut config),
        Ok(RespType::SimpleString("PONG".to_string()))
    );
    assert_eq!(
        handle_input_cmd(vec!["echo", "hi there"], &db, &mut config),
        Ok(RespType::SimpleString("hi there".to_string()))
    );
    assert_eq!(
        handle_input_cmd(vec!["echo"], &db, &mut config),
        Err(UserInputError::InvalidInput("No message provided to ECHO".to_string()))
    );
}

#[test]
fn get_and_set_through_the_handler() {
    let db = Db::new(2);
    let mut config = Config::new();
    assert_eq!(handle_input_cmd(vec!["GET", "k"], &db, &mut config), Ok(RespType::BulkString(None)));
    assert_eq!(handle_input_cmd(vec!["SET", "k", "v"], &db, &mut config), Ok(ok()));
    assert_eq!(handle_input_cmd(vec!["GET", "k"], &db, &mut config), Ok(bulk("v")));
    assert_eq!(
        handle_input_cmd(vec!["SET", "k", "w", "NX"], &db, &mut config),
        Ok(RespType::BulkString(None))
    );
    assert_eq!(
        handle_input_cmd(vec!["SET", "k", "w", "GET"], &db, &mut config),
        Ok(bulk("v"))
    );
    assert_eq!(
        handle_input_cmd(vec!["SET", "k", "w", "PXAT", "1"], &db, &mut config),
        Ok(ok())
    );
    assert_eq!(handle_input_cmd(vec!["GET", "k"], &db, &mut config), Ok(RespType::BulkString(None)));
    assert_eq!(
        handle_input_cmd(vec!["GET"], &db, &mut config),
        Err(UserInputError::InvalidInput("No key provided to GET".to_string()))
    );
    assert_eq!(
        handle_input_cmd(vec!["SET", "k"], &db, &mut config),
        Err(UserInputError::InvalidInput("No key/value provided to SET".to_string()))
    );
    assert_eq!(
        handle_input_cmd(vec!["SET", "k", "v", "NX", "XX"], &db, &mut config),
        Err(UserInputError::DataStoreError(DataStoreError::InvalidOptions(
            "syntax error".to_string()
        )))
    );
}

#[test]
fn unknown_command_is_an_error() {
    let db = Db::new(2);
    let mut config = Config::new();
    assert_eq!(
        handle_input_cmd(vec!["FLUSHALL"], &db, &mut config),
        Err(UserInputError::UnknownCommand("FLUSHALL".to_string()))
    );
}

#[test]
fn replies_for_each_outcome_of_the_keyspace() {
    assert_eq!(reply_to_get(Ok("v".to_string())), Ok(bulk("v")));
    assert_eq!(reply_to_get(Err(DataStoreError::KeyNotFound)), Ok(RespType::BulkString(None)));
    assert_eq!(reply_to_get(Err(DataStoreError::ExpiredKey)), Ok(RespType::BulkString(None)));
    assert_eq!(
        reply_to_get(Err(DataStoreError::LockError)),
        Err(UserInputError::DataStoreError(DataStoreError::LockError))
    );
    assert_eq!(reply_to_set(Ok(ok())), Ok(ok()));
    assert_eq!(
        reply_to_set(Err(DataStoreError::LockError)),
        Err(UserInputError::DataStoreError(DataStoreError::LockError))
    );
}

#[test]
fn config_get_and_set() {
    let mut config = Config::new();
    assert_eq!(get_config(&config, "port"), Some("6379".to_string()));
    assert_eq!(get_config(&config, "PORT"), Some("6379".to_string()));
    assert_eq!(get_config(&config, "save"), Some("".to_string()));
    assert_eq!(get_config(&config, "appendonly"), Some("no".to_string()));
    assert_eq!(get_config(&config, "nothing"), None);
    assert_eq!(config.port(), Ok(6379));

    let words = |items: &[&str]| items.iter().map(|s| s.to_string()).collect::<Vec<String>>();
    assert_eq!(
        handle_config(&words(&["GET", "Port"]), &mut config),
        Ok(RespType::Array(Some(vec![bulk("Port"), bulk("6379")])))
    );
    assert_eq!(handle_config(&words(&["get", "nothing"]), &mut config), Ok(RespType::Array(None)));
    assert_eq!(handle_config(&words(&["SET", "PORT", "7000"]), &mut config), Ok(ok()));
    assert_eq!(get_config(&config, "port"), Some("7000".to_string()));
    assert_eq!(config.port(), Ok(7000));
    assert_eq!(handle_config(&words(&["SET", "maxmemory", "1gb"]), &mut config), Ok(ok()));
    assert_eq!(get_config(&config, "MaxMemory"), Some("1gb".to_string()));
    assert_eq!(
        handle_config(&words(&[]), &mut config),
        Err(UserInputError::InvalidInput("No action provided for CONFIG command".to_string()))
    );
    assert_eq!(
        handle_config(&words(&["GET"]), &mut config),
        Err(UserInputError::InvalidInput("No key provided for CONFIG GET".to_string()))
    );
    assert_eq!(
        handle_config(&words(&["SET"]), &mut config),
        Err(UserInputError::InvalidInput("No key provided for CONFIG SET".to_string()))
    );
    assert_eq!(
        handle_config(&words(&["SET", "port"]), &mut config),
        Err(UserInputError::InvalidInput("No value provided for CONFIG SET".to_string()))
    );
    assert_eq!(
        handle_config(&words(&["REWRITE"]), &mut config),
        Err(UserInputError::InvalidInput(
            "Invalid action provided for CONFIG command: REWRITE".to_string()
        ))
    );
    config.set_config("port", "not a port".to_string());
    assert_eq!(config.port(), Err(ServerError::ConfigError("invalid port".to_string())));
    config.set_config("port", "70000".to_string());
    assert_eq!(config.port(), Err(ServerError::ConfigError("invalid port".to_string())));
}

#[test]
fn error_messages() {
    assert_eq!(DeserializeError::EmptyInput.message(), "Empty input");
    assert_eq!(DeserializeError::InvalidInput("x".to_string()).message(), "Invalid input: x");
    assert_eq!(DeserializeError::LengthMismatch("x".to_string()).message(), "Length mismatch: x");
    assert_eq!(DataStoreError::LockError.message(), "Failed to acquire lock");
    assert_eq!(DataStoreError::KeyNotFound.message(), "Key not found");
    assert_eq!(DataStoreError::ExpiredKey.message(), "Key has expired");
    assert_eq!(
        DataStoreError::InvalidOptions("syntax error".to_string()).message(),
        "Invalid options: syntax error"
    );
    assert_eq!(DataStoreError::SerializeError.message(), "Failed to serialize data");
    assert_eq!(DataStoreError::FileIOError.message(), "Failed to read/write file");
    assert_eq!(DataStoreError::DataLoadError.message(), "Failed to load data");
    assert_eq!(UserInputError::InvalidInput("x".to_string()).message(), "Invalid input: x");
    assert_eq!(UserInputError::UnknownCommand("x".to_string()).message(), "Unknown command: x");
    assert_eq!(
        UserInputError::DataStoreError(DataStoreError::LockError).message(),
        "Data store error: Failed to acquire lock"
    );
    assert_eq!(ServerError::AcceptError.message(), "Failed to accept connection");
    assert_eq!(ServerError::ReadError.message(), "Failed to read from stream");
    assert_eq!(ServerError::WriteError.message(), "Failed to write to stream");
    assert_eq!(ServerError::RespParseError("x".to_string()).message(), "Failed to parse RESP x");
    assert_eq!(ServerError::TypeError.message(), "Type error");
    assert_eq!(
        ServerError::DataStoreError(DataStoreError::KeyNotFound).message(),
        "Data store error: Key not found"
    );
    assert_eq!(
        ServerError::UserInputError(UserInputError::UnknownCommand("x".to_string())).message(),
        "User input error: Unknown command: x"
    );
    assert_eq!(ServerError::ConfigError("x".to_string()).message(), "Config error: x");
}

#[test]
fn config_file_is_read_line_by_line() {
    let mut config = Config::new();
    let contents = b"# a comment\nport 7001\r\n\nSave 900 1\nappendonly yes";
    assert_eq!(redis_server::redisconfig::parse_config_file(&mut config, contents), None);
    assert_eq!(get_config(&config, "port"), Some("7001".to_string()));
    assert_eq!(get_config(&config, "save"), Some("900 1".to_string()));
    assert_eq!(get_config(&config, "appendonly"), Some("yes".to_string()));
    assert_eq!(config.port(), Ok(7001));
}

#[test]
fn config_file_stops_at_a_line_without_a_space() {
    let mut config = Config::new();
    let contents = b"port 7001\nnonsense\nsave 5\n";
    assert_eq!(
        redis_server::redisconfig::parse_config_file(&mut config, contents),
        Some(ServerError::ConfigError("invalid line".to_string()))
    );
    assert_eq!(get_config(&config, "port"), Some("7001".to_string()));
    assert_eq!(get_config(&config, "save"), Some("".to_string()));
    let mut other = Config::new();
    assert!(redis_server::redisconfig::parse_config_file(&mut other, b"key \xff\n").is_some());
    assert_eq!(redis_server::redisconfig::parse_config_file(&mut other, b""), None);
}
