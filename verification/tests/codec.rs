use bytes::Bytes;
use redis_server::deserialize::{
    deserialize, deserialize_array, deserialize_bulk_string, is_incomplete, parse_i64,
};
use redis_server::errors::DeserializeError;
use redis_server::resp_value::RespType;

const NULL_ARRAY: &[u8] = b"*-1\r\n";
const NULL_BULK_STRING: &[u8] = b"$-1\r\n";

#[test]
fn test_serialize_simple_string() {
    let input = RespType::SimpleString("OK".to_string());
    let expected = b"+OK\r\n";
    assert_eq!(input.serialize(), expected);
}

#[test]
fn test_serialize_null_array() {
    let input = RespType::Array(None);
    let expected = NULL_ARRAY;
    assert_eq!(input.serialize(), expected);
}

#[test]
fn test_serialize_null_bulk_string() {
    let input = RespType::BulkString(None);
    let expected = NULL_BULK_STRING;
    assert_eq!(input.serialize(), expected);
}

#[test]
fn test_serialize_array_simple() {
    let input = RespType::Array(Some(vec![
        RespType::SimpleString("foo".to_string()),
        RespType::Error("bar".to_string()),
    ]));
    let expected = b"*2\r\n+foo\r\n-bar\r\n";
    assert_eq!(input.serialize(), expected);
}

#[test]
fn test_serialize_array_of_bulk_string() {
    let input = RespType::Array(Some(vec![
        RespType::BulkString(Some("foo".to_string().into_bytes())),
        RespType::BulkString(Some("bar".to_string().into_bytes())),
    ]));
    let expected = b"*2\r\n$3\r\nfoo\r\n$3\r\nbar\r\n";
    assert_eq!(input.serialize(), expected);
}

#[test]
fn test_deserialize_simple_string() {
    let input = b"+OK\r\n";
    let expected = RespType::SimpleString("OK".to_string());
    assert_eq!(deserialize(input).unwrap(), (expected, input.len()));
}

#[test]
fn test_deserialize_null_array() {
    let input = NULL_ARRAY;
    let expected = RespType::Array(None);
    assert_eq!(deserialize(input).unwrap(), (expected, input.len()));
}

#[test]
fn test_deserialize_null_bulk_string() {
    let input = NULL_BULK_STRING;
    let expected = RespType::BulkString(None);
    assert_eq!(deserialize(input).unwrap(), (expected, input.len()));
}

#[test]
fn test_deserialize_array_simple() {
    let input = b"*2\r\n+foo\r\n-bar\r\n";
    let expected = RespType::Array(Some(vec![
        RespType::SimpleString("foo".to_string()),
        RespType::Error("bar".to_string()),
    ]));
    assert_eq!(deserialize(input).unwrap(), (expected, input.len()));
}

#[test]
fn test_deserialize_array_of_bulk_string() {
    let input = b"*2\r\n$3\r\nfoo\r\n$3\r\nbar\r\n";
    let expected = RespType::Array(Some(vec![
        RespType::BulkString(Some(Bytes::from("foo").to_vec())),
        RespType::BulkString(Some(Bytes::from("bar").to_vec())),
    ]));
    assert_eq!(deserialize(input).unwrap(), (expected, input.len()));
}

#[test]
fn test_deserialize_nested_array() {
    let input = b"*2\r\n*2\r\n+foo\r\n-bar\r\n*2\r\n+foo\r\n-bar\r\n";
    let expected = RespType::Array(Some(vec![
        RespType::Array(Some(vec![
            RespType::SimpleString("foo".to_string()),
            RespType::Error("bar".to_string()),
        ])),
        RespType::Array(Some(vec![
            RespType::SimpleString("foo".to_string()),
            RespType::Error("bar".to_string()),
        ])),
    ]));
    assert_eq!(deserialize(input).unwrap(), (expected, input.len()));
}

#[test]
fn test_deserialize_bulk_string_with_newline() {
    let input = b"$8\r\nfoo\r\nbar\r\n";
    let expected = RespType::BulkString(Some(Bytes::from("foo\r\nbar").to_vec()));
    assert_eq!(deserialize(input).unwrap(), (expected, input.len()));
}

#[test]
fn test_deserialize_mixed_array() {
    let input = b"*3\r\n+foo\r\n$3\r\nbar\r\n:42\r\n";
    let expected = RespType::Array(Some(vec![
        RespType::SimpleString("foo".to_string()),
        RespType::BulkString(Some(Bytes::from("bar").to_vec())),
        RespType::Integer(42),
    ]));
    assert_eq!(deserialize(input).unwrap(), (expected, input.len()));
}

#[test]
fn test_deserialize_bulk_string_wrong_length() {
    let input = b"$3\r\nfooooooo\r\n";
    let res = deserialize(input);
    assert!(res.is_err());
    assert_eq!(
        res.err().unwrap(),
        DeserializeError::LengthMismatch(
            "Bulk string length does not match content length".to_string()
        )
    );
}

#[test]
fn test_deserialize_invalid_input() {
    let input = b"!foo\r\n";
    let res = deserialize(input);
    assert!(res.is_err());
    assert_eq!(
        res.err().unwrap(),
        DeserializeError::InvalidInput(format!("Invalid input: {:?}", input))
    );
}

#[test]
fn test_deserialize_array_actual_length_too_short() {
    let input = b"*5\r\n+foo\r\n-bar\r\n+foo\r\n";
    let res = deserialize(input);
    assert!(res.is_err());
    match res.err().unwrap() {
        DeserializeError::LengthMismatch(s) => {
            assert_eq!(s, "Array length value larger than actual length")
        }
        _ => panic!("Unexpected error type"),
    }
}

#[test]
fn deserialize_empty_input() {
    assert_eq!(deserialize(b"").err().unwrap(), DeserializeError::EmptyInput);
}

#[test]
fn deserialize_reports_bytes_consumed_with_trailing_data() {
    let input = b"+OK\r\n+NEXT\r\n";
    let (value, used) = deserialize(input).unwrap();
    assert_eq!(value, RespType::SimpleString("OK".to_string()));
    assert_eq!(used, 5);
    let (value, used) = deserialize(&input[used..]).unwrap();
    assert_eq!(value, RespType::SimpleString("NEXT".to_string()));
    assert_eq!(used, 7);
}

#[test]
fn deserialize_integers() {
    assert_eq!(deserialize(b":0\r\n").unwrap(), (RespType::Integer(0), 4));
    assert_eq!(deserialize(b":-17\r\n").unwrap(), (RespType::Integer(-17), 6));
    assert_eq!(deserialize(b":+5\r\n").unwrap(), (RespType::Integer(5), 5));
    assert_eq!(
        deserialize(b":9223372036854775807\r\n").unwrap(),
        (RespType::Integer(i64::MAX), 22)
    );
    assert_eq!(
        deserialize(b":-9223372036854775808\r\n").unwrap(),
        (RespType::Integer(i64::MIN), 23)
    );
}

#[test]
fn deserialize_integer_rejects_non_digits_and_overflow() {
    assert_eq!(
        deserialize(b":12a\r\n").err().unwrap(),
        DeserializeError::InvalidInput(format!("Failed to parse integer: {:?}", b"12a"))
    );
    assert!(matches!(
        deserialize(b":9223372036854775808\r\n"),
        Err(DeserializeError::InvalidInput(_))
    ));
    assert!(matches!(deserialize(b":\r\n"), Err(DeserializeError::InvalidInput(_))));
    assert!(matches!(deserialize(b":-\r\n"), Err(DeserializeError::InvalidInput(_))));
}

#[test]
fn deserialize_missing_crlf_is_invalid_input() {
    let input = b"+OK";
    assert_eq!(
        deserialize(input).err().unwrap(),
        DeserializeError::InvalidInput(format!("Failed to find crlf in input: {:?}", input))
    );
    assert!(matches!(deserialize(b"$3\r"), Err(DeserializeError::InvalidInput(_))));
}

#[test]
fn deserialize_non_integer_length_is_invalid_input() {
    assert_eq!(
        deserialize(b"$x\r\nabc\r\n").err().unwrap(),
        DeserializeError::InvalidInput(format!(
            "Failed to parse length string into integer: {:?}",
            b"x"
        ))
    );
    assert!(matches!(deserialize(b"*-2\r\n"), Err(DeserializeError::InvalidInput(_))));
    assert!(matches!(deserialize(b"$-7\r\n"), Err(DeserializeError::InvalidInput(_))));
}

#[test]
fn deserialize_text_that_is_not_utf8_is_invalid_input() {
    let input: &[u8] = &[b'+', 0xff, 0xfe, b'\r', b'\n'];
    assert_eq!(
        deserialize(input).err().unwrap(),
        DeserializeError::InvalidInput(format!(
            "Failed to parse text into utf8 string: {:?}",
            &input[1..3]
        ))
    );
}

#[test]
fn deserialize_bulk_string_shorter_than_declared() {
    assert!(matches!(deserialize(b"$5\r\nab\r\n"), Err(DeserializeError::LengthMismatch(_))));
    assert!(matches!(
        deserialize(b"$99999999999999999999999\r\nab\r\n"),
        Err(DeserializeError::LengthMismatch(_))
    ));
}

#[test]
fn deserialize_null_values_inside_an_array() {
    let input = b"*2\r\n$-1\r\n*-1\r\n";
    let expected =
        RespType::Array(Some(vec![RespType::BulkString(None), RespType::Array(None)]));
    assert_eq!(deserialize(input).unwrap(), (expected, input.len()));
}

#[test]
fn deserialize_empty_array_and_empty_bulk_string() {
    assert_eq!(deserialize(b"*0\r\n").unwrap(), (RespType::Array(Some(vec![])), 4));
    assert_eq!(deserialize(b"$0\r\n\r\n").unwrap(), (RespType::BulkString(Some(vec![])), 6));
}

#[test]
fn deserialize_array_and_bulk_string_check_their_prefix() {
    assert_eq!(
        deserialize_array(b"*1\r\n:1\r\n").unwrap(),
        RespType::Array(Some(vec![RespType::Integer(1)]))
    );
    assert_eq!(
        deserialize_array(b"+OK\r\n").err().unwrap(),
        DeserializeError::InvalidInput(format!("Invalid input: {:?}", b"+OK\r\n"))
    );
    assert_eq!(
        deserialize_bulk_string(b"$2\r\nhi\r\n").unwrap(),
        RespType::BulkString(Some(b"hi".to_vec()))
    );
    assert!(matches!(
        deserialize_bulk_string(b"*0\r\n"),
        Err(DeserializeError::InvalidInput(_))
    ));
}

fn sample_values() -> Vec<RespType> {
    vec![
        RespType::SimpleString("".to_string()),
        RespType::SimpleString("hello world".to_string()),
        RespType::SimpleString("tab\tand \u{e9}\u{4e2d}".to_string()),
        RespType::SimpleString("lone \r return".to_string()),
        RespType::Error("ERR something".to_string()),
        RespType::Integer(0),
        RespType::Integer(-1),
        RespType::Integer(1234567890),
        RespType::Integer(i64::MAX),
        RespType::Integer(i64::MIN),
        RespType::BulkString(None),
        RespType::BulkString(Some(vec![])),
        RespType::BulkString(Some(b"with\r\ncrlf".to_vec())),
        RespType::BulkString(Some(vec![0, 255, 13, 10, 36])),
        RespType::Array(None),
        RespType::Array(Some(vec![])),
        RespType::Array(Some(vec![
            RespType::Integer(7),
            RespType::Array(Some(vec![
                RespType::BulkString(Some(b"x".to_vec())),
                RespType::Array(None),
            ])),
            RespType::SimpleString("end".to_string()),
        ])),
    ]
}

#[test]
fn round_trip_on_sample_values() {
    for value in sample_values() {
        let bytes = value.serialize();
        let (back, used) = deserialize(&bytes).unwrap();
        assert_eq!(back, value);
        assert_eq!(used, bytes.len());
    }
}

#[test]
fn byte_length_agrees_with_serialize_on_sample_values() {
    for value in sample_values() {
        assert_eq!(value.get_byte_length(), value.serialize().len());
    }
    let twelve = RespType::BulkString(Some(vec![b'a'; 12]));
    assert_eq!(twelve.get_byte_length(), 19);
    assert_eq!(RespType::Integer(-120).get_byte_length(), 7);
}

#[test]
fn simple_string_with_a_line_break_does_not_round_trip() {
    let value = RespType::SimpleString("a\r\nb".to_string());
    let bytes = value.serialize();
    let (back, used) = deserialize(&bytes).unwrap();
    assert_eq!(back, RespType::SimpleString("a".to_string()));
    assert_eq!(used, 4);
}

#[test]
fn parse_i64_reads_signed_decimal() {
    assert_eq!(parse_i64(b"42"), Some(42));
    assert_eq!(parse_i64(b"-42"), Some(-42));
    assert_eq!(parse_i64(b"007"), Some(7));
    assert_eq!(parse_i64(b""), None);
    assert_eq!(parse_i64(b"4 2"), None);
    assert_eq!(parse_i64(b"18446744073709551616"), None);
}

#[test]
fn incomplete_frames_are_told_from_malformed_ones() {
    assert!(is_incomplete(b""));
    assert!(is_incomplete(b"+OK"));
    assert!(is_incomplete(b"$5\r\nab"));
    assert!(is_incomplete(b"*2\r\n$3\r\nGE"));
    assert!(is_incomplete(b"*2"));
    assert!(!is_incomplete(b"*2\r\n$3\r\nGET\r\n"));
    assert!(!is_incomplete(b"$3\r\nfooooooo\r\n"));
    assert!(!is_incomplete(b"!foo\r\n"));
    assert!(!is_incomplete(b"$x\r\n"));
}
