use redis_server::db::Db;

fn now_millis() -> i64 {
    chrono::Utc::now().timestamp_millis()
}
use redis_server::errors::{DeserializeError, ServerError, UserInputError};
use redis_server::redisconfig::Config;
use redis_server::resp_value::RespType;
use redis_server::server::{error_reply, reply, respond, Connection, Event, Frame};

struct Server {
    db: Db,
    config: Config,
    connection: Connection,
}

impl Server {
    fn new() -> Self {
        Server { db: Db::new(4), config: Config::new(), connection: Connection::new() }
    }

    fn send(&mut self, bytes: &[u8]) -> Vec<u8> {
        let output =
            self.connection.on_event(Event::Received(bytes.to_vec()), &self.db, &mut self.config);
        assert!(!output.close);
        output.replies
    }
}

fn request(words: &[&str]) -> RespType {
    RespType::Array(Some(
        words.iter().map(|w| RespType::BulkString(Some(w.as_bytes().to_vec()))).collect(),
    ))
}

#[test]
fn ping_is_answered_with_pong() {
    let mut server = Server::new();
    assert_eq!(server.send(b"*1\r\n$4\r\nPING\r\n"), b"+PONG\r\n");
}

#[test]
fn set_then_get() {
    let mut server = Server::new();
    assert_eq!(server.send(b"*3\r\n$3\r\nSET\r\n$3\r\nfoo\r\n$3\r\nbar\r\n"), b"+OK\r\n");
    assert_eq!(server.send(b"*2\r\n$3\r\nGET\r\n$3\r\nfoo\r\n"), b"$3\r\nbar\r\n");
}

#[test]
fn get_of_a_missing_key_is_the_null_bulk_string() {
    let mut server = Server::new();
    assert_eq!(server.send(b"*2\r\n$3\r\nGET\r\n$6\r\nmissng\r\n"), b"$-1\r\n");
}

#[test]
fn entry_set_with_ex_is_gone_after_its_time() {
    let mut server = Server::new();
    assert_eq!(
        server.send(b"*5\r\n$3\r\nSET\r\n$1\r\nk\r\n$1\r\nv\r\n$2\r\nEX\r\n$1\r\n1\r\n"),
        b"+OK\r\n"
    );
    assert_eq!(server.send(b"*2\r\n$3\r\nGET\r\n$1\r\nk\r\n"), b"$1\r\nv\r\n");
    let start = now_millis();
    while now_millis() < start + 2000 {
        std::hint::spin_loop();
    }
    assert_eq!(server.send(b"*2\r\n$3\r\nGET\r\n$1\r\nk\r\n"), b"$-1\r\n");
}

#[test]
fn set_with_xx_and_get_returns_the_prior_value() {
    let mut server = Server::new();
    assert_eq!(server.send(b"*3\r\n$3\r\nSET\r\n$1\r\nk\r\n$3\r\nold\r\n"), b"+OK\r\n");
    assert_eq!(
        server.send(b"*5\r\n$3\r\nSET\r\n$1\r\nk\r\n$3\r\nnew\r\n$2\r\nXX\r\n$3\r\nGET\r\n"),
        b"$3\r\nold\r\n"
    );
    assert_eq!(server.send(b"*2\r\n$3\r\nGET\r\n$1\r\nk\r\n"), b"$3\r\nnew\r\n");
}

#[test]
fn malformed_frame_gets_an_error_and_the_connection_goes_on() {
    let mut server = Server::new();
    let answer = server.send(b"*2\r\n$3\r\nGET\r\n");
    assert_eq!(
        answer,
        b"-Failed to parse RESP Length mismatch: Array length value larger than actual length\r\n"
    );
    assert_eq!(server.send(b"*1\r\n$4\r\nPING\r\n"), b"+PONG\r\n");
}

#[test]
fn frame_that_arrives_in_pieces_is_answered_once_whole() {
    let mut server = Server::new();
    assert_eq!(server.send(b"*2\r\n$3\r\nGE"), b"");
    assert_eq!(server.send(b"T\r\n$1\r"), b"");
    assert_eq!(server.send(b"\nk\r\n*1\r\n$4\r\nPI"), b"$-1\r\n");
    assert_eq!(server.send(b"NG\r\n"), b"+PONG\r\n");
}

#[test]
fn frames_that_arrive_together_are_answered_in_order() {
    let mut server = Server::new();
    let answer = server.send(
        b"*3\r\n$3\r\nSET\r\n$1\r\na\r\n$1\r\n1\r\n*2\r\n$3\r\nGET\r\n$1\r\na\r\n*1\r\n$4\r\nPING\r\n",
    );
    assert_eq!(answer, b"+OK\r\n$1\r\n1\r\n+PONG\r\n");
}

#[test]
fn unknown_command_names_the_command() {
    let mut server = Server::new();
    assert_eq!(server.send(b"*1\r\n$5\r\nHELLO\r\n"), b"-unknown command 'HELLO'\r\n");
    assert_eq!(
        server.send(b"*1\r\n$7\r\nBAD\r\nXY\r\n"),
        b"-unknown command 'BAD  XY'\r\n"
    );
}

#[test]
fn value_that_is_no_request_is_a_type_error() {
    let mut server = Server::new();
    assert_eq!(server.send(b"+PING\r\n"), b"-Type error\r\n");
    assert_eq!(server.send(b"*-1\r\n"), b"-Type error\r\n");
    assert_eq!(server.send(b"*0\r\n"), b"-Type error\r\n");
    assert_eq!(server.send(b"*2\r\n$4\r\nECHO\r\n:5\r\n"), b"-Type error\r\n");
    assert_eq!(server.send(b"*1\r\n$2\r\n\xff\xfe\r\n"), b"-Type error\r\n");
}

#[test]
fn config_over_the_wire() {
    let mut server = Server::new();
    assert_eq!(
        server.send(b"*3\r\n$6\r\nCONFIG\r\n$3\r\nGET\r\n$4\r\nport\r\n"),
        b"*2\r\n$4\r\nport\r\n$4\r\n6379\r\n"
    );
    assert_eq!(
        server.send(b"*4\r\n$6\r\nCONFIG\r\n$3\r\nSET\r\n$4\r\nsave\r\n$2\r\n60\r\n"),
        b"+OK\r\n"
    );
    assert_eq!(
        server.send(b"*3\r\n$6\r\nCONFIG\r\n$3\r\nGET\r\n$4\r\nsave\r\n"),
        b"*2\r\n$4\r\nsave\r\n$2\r\n60\r\n"
    );
    assert_eq!(server.send(b"*3\r\n$6\r\nCONFIG\r\n$3\r\nGET\r\n$1\r\nx\r\n"), b"*-1\r\n");
}

#[test]
fn events_other_than_bytes_end_the_connection() {
    let db = Db::new(1);
    let mut config = Config::new();
    for event in [Event::Closed, Event::TimedOut, Event::Failed, Event::Received(vec![])] {
        let mut connection = Connection::new();
        connection.receive(b"*1\r\n$4\r\nPI");
        let output = connection.on_event(event, &db, &mut config);
        assert!(output.close);
        assert!(output.replies.is_empty());
    }
}

#[test]
fn next_frame_tells_the_three_cases_apart() {
    let mut connection = Connection::new();
    assert!(matches!(connection.next_frame(), Frame::Incomplete));
    connection.receive(b"+OK\r\n+half");
    match connection.next_frame() {
        Frame::Request(value) => assert_eq!(value, RespType::SimpleString("OK".to_string())),
        _ => panic!("not a request"),
    }
    assert!(matches!(connection.next_frame(), Frame::Incomplete));
    connection.receive(b"\r\n!bad\r\n+lost\r\n");
    assert!(matches!(connection.next_frame(), Frame::Request(_)));
    match connection.next_frame() {
        Frame::Malformed(e) => assert!(matches!(e, DeserializeError::InvalidInput(_))),
        _ => panic!("not malformed"),
    }
    assert!(matches!(connection.next_frame(), Frame::Incomplete));
}

#[test]
fn reply_and_respond() {
    let db = Db::new(2);
    let mut config = Config::new();
    assert_eq!(
        reply(request(&["PING"]), &db, &mut config),
        Ok(RespType::SimpleString("PONG".to_string()))
    );
    assert_eq!(reply(RespType::Integer(1), &db, &mut config), Err(ServerError::TypeError));
    assert_eq!(reply(RespType::Array(None), &db, &mut config), Err(ServerError::TypeError));
    assert_eq!(
        reply(request(&["nope"]), &db, &mut config),
        Err(ServerError::UserInputError(UserInputError::UnknownCommand("nope".to_string())))
    );
    assert_eq!(
        respond(request(&["nope"]), &db, &mut config),
        RespType::Error("unknown command 'nope'".to_string())
    );
    assert_eq!(
        respond(request(&["echo"]), &db, &mut config),
        RespType::Error("User input error: Invalid input: No message provided to ECHO".to_string())
    );
    assert_eq!(
        respond(request(&["echo", "x"]), &db, &mut config),
        RespType::SimpleString("x".to_string())
    );
}

#[test]
fn error_reply_is_a_single_line() {
    assert_eq!(
        error_reply(&ServerError::ConfigError("a\r\nb\nc".to_string())),
        RespType::Error("Config error: a  b c".to_string())
    );
    assert_eq!(error_reply(&ServerError::ReadError), RespType::Error("Failed to read from stream".to_string()));
}
