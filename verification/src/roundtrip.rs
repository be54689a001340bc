//! Laws that tie the encoder to the decoder.

use vstd::prelude::*;
use vstd::utf8::{encode_utf8, encode_utf8_decode_utf8, encode_utf8_valid_utf8};
use crate::constants::crlf;
use crate::deserialize::{
    all_digits,
    decode,
    decode_array,
    decode_bulk_string,
    decode_header,
    decode_integer,
    decode_items,
    decode_text,
    digits_part,
    digits_value,
    find_crlf,
    has_sign,
    is_digit,
    items_starved,
    parse_decimal,
    starved,
    DecodeFailure,
};
use crate::deserialize::parsed;
use crate::errors::DeserializeError;
use crate::resp_value::{decimal_digits, decimal_int, encode, encode_all, RespType, RespValue};

verus! {

/// No carriage return in `bytes` is followed by a line feed.
pub open spec fn no_crlf(bytes: Seq<u8>) -> bool {
    forall|i: int|
        #![trigger bytes[i]]
        0 <= i < bytes.len() - 1 ==> !(bytes[i] == 13u8 && bytes[i + 1] == 10u8)
}

/// The values whose encoding can be read back: the text of a simple string
/// or an error holds no line break, an integer fits 64 bits, and the
/// elements of an array are such values too.
pub open spec fn frameable(v: RespValue) -> bool
    decreases v,
{
    match v {
        RespValue::SimpleString(s) => no_crlf(encode_utf8(s)),
        RespValue::Error(s) => no_crlf(encode_utf8(s)),
        RespValue::Integer(i) => i64::MIN <= i <= i64::MAX,
        RespValue::BulkString(_) => true,
        RespValue::Array(None) => true,
        RespValue::Array(Some(a)) => forall|i: int|
            0 <= i < a.len() ==> frameable(#[trigger] a[i]),
    }
}

/// The digits of a number are digits, and denote the number.
pub proof fn lemma_decimal_digits(n: nat)
    ensures
        all_digits(decimal_digits(n)),
        digits_value(decimal_digits(n)) == n,
    decreases n,
{
    reveal_with_fuel(digits_value, 2);
    if n >= 10 {
        lemma_decimal_digits(n / 10);
        let d = decimal_digits(n / 10);
        assert(decimal_digits(n) == d.push((48 + n % 10) as u8));
        assert(d.push((48 + n % 10) as u8).drop_last() == d);
    }
}

/// The decimal text of an integer reads back as the integer.
pub proof fn lemma_parse_decimal_int(i: int)
    ensures
        parse_decimal(decimal_int(i)) == Some(i),
        forall|k: int|
            0 <= k < decimal_int(i).len() ==> (#[trigger] decimal_int(i)[k]) != 13u8,
{
    if i < 0 {
        let d = decimal_digits((-i) as nat);
        lemma_decimal_digits((-i) as nat);
        let s = seq![45u8] + d;
        assert(s.skip(1) == d);
        assert(has_sign(s));
        assert(digits_part(s) == d);
        assert forall|k: int| 0 <= k < s.len() implies (#[trigger] s[k]) != 13u8 by {
            if k > 0 {
                assert(is_digit(d[k - 1]));
            }
        }
    } else {
        let d = decimal_digits(i as nat);
        lemma_decimal_digits(i as nat);
        assert(is_digit(d[0]));
        assert(!has_sign(d));
        assert forall|k: int| 0 <= k < d.len() implies (#[trigger] d[k]) != 13u8 by {
            assert(is_digit(d[k]));
        }
    }
}

/// Where a line break stands at `end` and none before it, the first line
/// break at or after `from` is at `end`.
pub proof fn lemma_find_crlf(input: Seq<u8>, from: int, end: int)
    requires
        0 <= from <= end,
        end + 1 < input.len(),
        input[end] == 13u8,
        input[end + 1] == 10u8,
        forall|j: int|
            #![trigger input[j]]
            from <= j < end ==> !(input[j] == 13u8 && input[j + 1] == 10u8),
    ensures
        find_crlf(input, from) == Some(end),
    decreases end - from,
{
    if from < end {
        assert(!(input[from] == 13u8 && input[from + 1] == 10u8));
        lemma_find_crlf(input, from + 1, end);
    }
}

/// The line that follows a one-byte prefix ends where its line break is.
proof fn lemma_line(tag: u8, line: Seq<u8>, rest: Seq<u8>)
    requires
        no_crlf(line),
    ensures
        find_crlf(seq![tag] + line + crlf() + rest, 1) == Some(1 + line.len() as int),
        (seq![tag] + line + crlf() + rest).subrange(1, 1 + line.len() as int) == line,
{
    let input = seq![tag] + line + crlf() + rest;
    let end = 1 + line.len() as int;
    assert forall|j: int| #![trigger input[j]] 1 <= j < end implies !(input[j] == 13u8 && input[j
        + 1] == 10u8) by {
        assert(input[j] == line[j - 1]);
        if j + 1 < end {
            assert(input[j + 1] == line[j]);
        }
    }
    lemma_find_crlf(input, 1, end);
}

/// The encoding of a value is not empty.
pub proof fn lemma_encode_nonempty(v: RespValue)
    ensures
        encode(v).len() > 0,
{
}

/// The encoding of a sequence is that of its first element followed by
/// that of the others.
pub proof fn lemma_encode_all_first(items: Seq<RespValue>)
    requires
        items.len() > 0,
    ensures
        encode_all(items) == encode(items[0]) + encode_all(items.skip(1)),
    decreases items.len(),
{
    if items.len() == 1 {
        assert(items.drop_last() == Seq::<RespValue>::empty());
        assert(items.skip(1) == Seq::<RespValue>::empty());
        assert(encode_all(items.drop_last()) == Seq::<u8>::empty());
        assert(encode_all(items) == encode(items[0]));
    } else {
        lemma_encode_all_first(items.drop_last());
        assert(items.drop_last().skip(1) == items.skip(1).drop_last());
        assert(items.skip(1).last() == items.last());
        assert(items.drop_last()[0] == items[0]);
    }
}

/// Reading the elements `k..` of `items` from their encodings, after the
/// first `k` were read, gives all of `items`.
pub proof fn lemma_decode_items(items: Seq<RespValue>, k: int, rest: Seq<u8>, used: int)
    requires
        0 <= k <= items.len(),
        forall|i: int| 0 <= i < items.len() ==> frameable(#[trigger] items[i]),
    ensures
        decode_items(
            encode_all(items.skip(k)) + rest,
            (items.len() - k) as nat,
            items.take(k),
            used,
        ) == Ok::<(Seq<RespValue>, int), DecodeFailure>(
            (items, used + encode_all(items.skip(k)).len()),
        ),
    decreases items, items.len() - k,
{
    if k == items.len() {
        assert(items.take(k) == items);
        assert(items.skip(k) == Seq::<RespValue>::empty());
    } else {
        let tail = items.skip(k);
        let after = encode_all(items.skip(k + 1)) + rest;
        let input = encode_all(tail) + rest;
        lemma_encode_all_first(tail);
        assert(tail.skip(1) == items.skip(k + 1));
        assert(tail[0] == items[k]);
        assert(input == encode(items[k]) + after);
        lemma_decode_encode(items[k], after);
        lemma_encode_nonempty(items[k]);
        let n = encode(items[k]).len() as int;
        assert(input.skip(n) == after);
        assert(items.take(k).push(items[k]) == items.take(k + 1));
        lemma_decode_items(items, k + 1, rest, used + n);
    }
}

/// A line of text is read back.
proof fn lemma_decode_encoded_text(text: Seq<char>, error: bool, rest: Seq<u8>)
    requires
        no_crlf(encode_utf8(text)),
    ensures
        decode_text(
            seq![if error { 45u8 } else { 43u8 }] + encode_utf8(text) + crlf() + rest,
            error,
        ) == Ok::<(RespValue, int), DecodeFailure>(
            (
                if error {
                    RespValue::Error(text)
                } else {
                    RespValue::SimpleString(text)
                },
                encode_utf8(text).len() as int + 3,
            ),
        ),
{
    let tag = if error { 45u8 } else { 43u8 };
    lemma_line(tag, encode_utf8(text), rest);
    encode_utf8_valid_utf8(text);
    encode_utf8_decode_utf8(text);
}

/// An integer line is read back.
proof fn lemma_decode_encoded_integer(i: int, rest: Seq<u8>)
    requires
        i64::MIN <= i <= i64::MAX,
    ensures
        decode_integer(seq![58u8] + decimal_int(i) + crlf() + rest) == Ok::<
            (RespValue, int),
            DecodeFailure,
        >((RespValue::Integer(i), decimal_int(i).len() as int + 3)),
{
    lemma_parse_decimal_int(i);
    lemma_line(58u8, decimal_int(i), rest);
}

/// The header of a bulk string or an array that declares the length `n`
/// is read back.
proof fn lemma_decode_encoded_header(tag: u8, n: nat, rest: Seq<u8>)
    ensures
        decode_header(seq![tag] + decimal_digits(n) + crlf() + rest) == Ok::<
            (int, int),
            DecodeFailure,
        >((n as int, decimal_digits(n).len() as int + 3)),
        (seq![tag] + decimal_digits(n) + crlf() + rest).skip(decimal_digits(n).len() as int + 3)
            == rest,
{
    lemma_parse_decimal_int(n as int);
    lemma_line(tag, decimal_digits(n), rest);
    let input = seq![tag] + decimal_digits(n) + crlf() + rest;
    assert(input.skip(decimal_digits(n).len() as int + 3) =~= rest);
}

/// The header of a null bulk string or a null array is read back.
proof fn lemma_decode_null_header(tag: u8, rest: Seq<u8>)
    ensures
        decode_header(seq![tag, 45u8, 49u8, 13u8, 10u8] + rest) == Ok::<(int, int), DecodeFailure>(
            (-1int, 5int),
        ),
{
    let line = seq![45u8, 49u8];
    let input = seq![tag, 45u8, 49u8, 13u8, 10u8] + rest;
    assert(input =~= seq![tag] + line + crlf() + rest);
    assert(no_crlf(line));
    lemma_line(tag, line, rest);
    lemma_minus_one();
}

/// A bulk string is read back.
proof fn lemma_decode_encoded_bulk(content: Seq<u8>, rest: Seq<u8>)
    ensures
        decode_bulk_string(
            seq![36u8] + decimal_digits(content.len()) + crlf() + content + crlf() + rest,
        ) == Ok::<(RespValue, int), DecodeFailure>(
            (
                RespValue::BulkString(Some(content)),
                decimal_digits(content.len()).len() as int + content.len() as int + 5,
            ),
        ),
{
    let digits = decimal_digits(content.len());
    let input = seq![36u8] + digits + crlf() + content + crlf() + rest;
    let start = digits.len() as int + 3;
    assert(input =~= seq![36u8] + digits + crlf() + (content + crlf() + rest));
    lemma_decode_encoded_header(36u8, content.len(), content + crlf() + rest);
    assert(input.subrange(start, start + content.len() as int) =~= content);
    assert(input[start + content.len()] == 13u8);
    assert(input[start + content.len() + 1] == 10u8);
}

/// A simple string or an error is read back.
proof fn lemma_roundtrip_text(text: Seq<char>, error: bool, rest: Seq<u8>)
    requires
        no_crlf(encode_utf8(text)),
    ensures
        ({
            let v = if error {
                RespValue::Error(text)
            } else {
                RespValue::SimpleString(text)
            };
            decode(encode(v) + rest) == Ok::<(RespValue, int), DecodeFailure>(
                (v, encode(v).len() as int),
            )
        }),
{
    let tag = if error { 45u8 } else { 43u8 };
    let v = if error {
        RespValue::Error(text)
    } else {
        RespValue::SimpleString(text)
    };
    let input = seq![tag] + encode_utf8(text) + crlf() + rest;
    assert(encode(v) + rest =~= input);
    lemma_decode_encoded_text(text, error, rest);
    assert(decode(input) == decode_text(input, error));
}

/// An integer is read back.
proof fn lemma_roundtrip_integer(i: int, rest: Seq<u8>)
    requires
        i64::MIN <= i <= i64::MAX,
    ensures
        decode(encode(RespValue::Integer(i)) + rest) == Ok::<(RespValue, int), DecodeFailure>(
            (RespValue::Integer(i), encode(RespValue::Integer(i)).len() as int),
        ),
{
    let input = seq![58u8] + decimal_int(i) + crlf() + rest;
    assert(encode(RespValue::Integer(i)) + rest =~= input);
    lemma_decode_encoded_integer(i, rest);
    assert(decode(input) == decode_integer(input));
}

/// A bulk string is read back, the null bulk string too.
proof fn lemma_roundtrip_bulk(content: Option<Seq<u8>>, rest: Seq<u8>)
    ensures
        decode(encode(RespValue::BulkString(content)) + rest) == Ok::<
            (RespValue, int),
            DecodeFailure,
        >((RespValue::BulkString(content), encode(RespValue::BulkString(content)).len() as int)),
{
    let v = RespValue::BulkString(content);
    match content {
        None => {
            let input = seq![36u8, 45u8, 49u8, 13u8, 10u8] + rest;
            assert(encode(v) + rest =~= input);
            lemma_decode_null_header(36u8, rest);
            assert(decode(input) == decode_bulk_string(input));
        },
        Some(b) => {
            let input = seq![36u8] + decimal_digits(b.len()) + crlf() + b + crlf() + rest;
            assert(encode(v) + rest =~= input);
            lemma_decode_encoded_bulk(b, rest);
            assert(decode(input) == decode_bulk_string(input));
        },
    }
}

/// The null array is read back.
proof fn lemma_roundtrip_null_array(rest: Seq<u8>)
    ensures
        decode(encode(RespValue::Array(None)) + rest) == Ok::<(RespValue, int), DecodeFailure>(
            (RespValue::Array(None), 5int),
        ),
        encode(RespValue::Array(None)).len() == 5,
{
    let input = seq![42u8, 45u8, 49u8, 13u8, 10u8] + rest;
    assert(encode(RespValue::Array(None)) + rest =~= input);
    lemma_decode_null_header(42u8, rest);
    assert(decode(input) == decode_array(input));
}

/// An array is read back where its elements are.
proof fn lemma_roundtrip_array(items: Seq<RespValue>, rest: Seq<u8>)
    requires
        decode_items(
            encode_all(items) + rest,
            items.len(),
            Seq::empty(),
            decimal_digits(items.len()).len() as int + 3,
        ) == Ok::<(Seq<RespValue>, int), DecodeFailure>(
            (items, decimal_digits(items.len()).len() as int + 3 + encode_all(items).len()),
        ),
    ensures
        decode(encode(RespValue::Array(Some(items))) + rest) == Ok::<
            (RespValue, int),
            DecodeFailure,
        >((RespValue::Array(Some(items)), encode(RespValue::Array(Some(items))).len() as int)),
{
    let v = RespValue::Array(Some(items));
    let digits = decimal_digits(items.len());
    let input = seq![42u8] + digits + crlf() + (encode_all(items) + rest);
    assert(encode(v) + rest =~= input);
    lemma_decode_encoded_header(42u8, items.len(), encode_all(items) + rest);
    assert(decode(input) == decode_array(input));
}

/// Decoding reads a frameable value back from the front of any input that
/// starts with its encoding, and takes exactly the bytes of the encoding.
pub proof fn lemma_decode_encode(v: RespValue, rest: Seq<u8>)
    requires
        frameable(v),
    ensures
        decode(encode(v) + rest) == Ok::<(RespValue, int), DecodeFailure>(
            (v, encode(v).len() as int),
        ),
    decreases v, 0int,
{
    match v {
        RespValue::SimpleString(s) => {
            lemma_roundtrip_text(s, false, rest);
        },
        RespValue::Error(s) => {
            lemma_roundtrip_text(s, true, rest);
        },
        RespValue::Integer(i) => {
            lemma_roundtrip_integer(i, rest);
        },
        RespValue::BulkString(content) => {
            lemma_roundtrip_bulk(content, rest);
        },
        RespValue::Array(None) => {
            lemma_roundtrip_null_array(rest);
        },
        RespValue::Array(Some(a)) => {
            assert(a.skip(0) =~= a);
            assert(a.take(0) =~= Seq::<RespValue>::empty());
            lemma_decode_items(a, 0, rest, decimal_digits(a.len()).len() as int + 3);
            lemma_roundtrip_array(a, rest);
        },
    }
}

/// The text `-1` denotes minus one.
proof fn lemma_minus_one()
    ensures
        parse_decimal(seq![45u8, 49u8]) == Some(-1int),
{
    let s = seq![45u8, 49u8];
    reveal_with_fuel(digits_value, 2);
    assert(has_sign(s));
    assert(s.skip(1) == seq![49u8]);
    assert(is_digit(seq![49u8][0]));
    assert(seq![49u8].drop_last() == Seq::<u8>::empty());
}

/// Decoding the encoding of a frameable value gives the value back,
/// together with the length of the encoding.
pub proof fn lemma_roundtrip(v: RespValue)
    requires
        frameable(v),
    ensures
        decode(encode(v)) == Ok::<(RespValue, int), DecodeFailure>((v, encode(v).len() as int)),
{
    lemma_decode_encode(v, Seq::empty());
    assert(encode(v) + Seq::<u8>::empty() == encode(v));
}

/// The first line break at or after `from`, where there is one, stands at
/// or after `from` and has both its bytes inside `input`.
pub proof fn lemma_find_crlf_bounds(input: Seq<u8>, from: int)
    requires
        0 <= from,
    ensures
        find_crlf(input, from) matches Some(end) ==> from <= end && end + 1 < input.len()
            && input[end] == 13u8 && input[end + 1] == 10u8,
    decreases input.len() - from,
{
    if from + 1 < input.len() && !(input[from] == 13u8 && input[from + 1] == 10u8) {
        lemma_find_crlf_bounds(input, from + 1);
    }
}

/// Elements that were read took bytes of `rest`, and no more than it has.
pub proof fn lemma_decode_items_consumed(
    rest: Seq<u8>,
    remaining: nat,
    acc: Seq<RespValue>,
    used: int,
)
    ensures
        decode_items(rest, remaining, acc, used) matches Ok((_, total)) ==> used <= total <= used
            + rest.len(),
    decreases rest.len(), remaining + 3,
{
    if remaining > 0 {
        lemma_decode_consumed(rest);
        if let Ok((v, n)) = decode(rest) {
            if 0 < n <= rest.len() {
                lemma_decode_items_consumed(
                    rest.skip(n),
                    (remaining - 1) as nat,
                    acc.push(v),
                    used + n,
                );
            }
        }
    }
}

/// A value that was decoded took at least one byte of the input, and no
/// more bytes than the input has.
pub proof fn lemma_decode_consumed(input: Seq<u8>)
    ensures
        decode(input) matches Ok((_, n)) ==> 0 < n <= input.len(),
    decreases input.len(), 2nat,
{
    if input.len() > 0 {
        lemma_find_crlf_bounds(input, 1);
        if input[0] == 42u8 {
            if let Ok((count, start)) = decode_header(input) {
                if count >= 0 && 1 <= start <= input.len() {
                    lemma_decode_items_consumed(
                        input.skip(start),
                        count as nat,
                        Seq::empty(),
                        start,
                    );
                }
            }
        }
    }
}

/// Input that stops in the middle of its elements is not decoded.
pub proof fn lemma_items_starved_fail(
    rest: Seq<u8>,
    remaining: nat,
    acc: Seq<RespValue>,
    used: int,
)
    requires
        items_starved(rest, remaining),
    ensures
        decode_items(rest, remaining, acc, used) is Err,
    decreases rest.len(), remaining + 3,
{
    match decode(rest) {
        Ok((v, n)) => {
            lemma_items_starved_fail(rest.skip(n), (remaining - 1) as nat, acc.push(v), used + n);
        },
        Err(_) => {
            lemma_starved_fails(rest);
        },
    }
}

/// Input that stops in the middle of a frame is not decoded: to wait for
/// more bytes never keeps a whole frame waiting.
pub proof fn lemma_starved_fails(input: Seq<u8>)
    requires
        starved(input),
    ensures
        decode(input) is Err,
    decreases input.len(), 2nat,
{
    if input.len() > 0 {
        lemma_find_crlf_bounds(input, 1);
        if input[0] == 42u8 {
            if let Ok((count, start)) = decode_header(input) {
                lemma_items_starved_fail(input.skip(start), count as nat, Seq::empty(), start);
            }
        }
    }
}

/// Whether `bytes` ends with a line break.
pub open spec fn ends_with_crlf(bytes: Seq<u8>) -> bool {
    bytes.len() >= 2 && bytes[bytes.len() - 2] == 13u8 && bytes[bytes.len() - 1] == 10u8
}

/// The encoding of every value ends with a line break.
pub proof fn lemma_encode_ends_with_crlf(v: RespValue)
    ensures
        ends_with_crlf(encode(v)),
    decreases v,
{
    match v {
        RespValue::Array(Some(items)) => {
            if items.len() > 0 {
                lemma_encode_ends_with_crlf(items.last());
                let head = seq![42u8] + decimal_digits(items.len()) + crlf() + encode_all(
                    items.drop_last(),
                );
                assert(encode(v) =~= head + encode(items.last()));
            } else {
                assert(encode_all(items) =~= Seq::<u8>::empty());
            }
        },
        _ => {},
    }
}

/// What `deserialize` gives on the bytes that `serialize` gave for a
/// frameable value: the value, and the number of the bytes.
pub proof fn lemma_deserialize_serialize(
    value: RespType,
    bytes: Seq<u8>,
    res: Result<(RespType, usize), DeserializeError>,
)
    requires
        frameable(value@),
        bytes == encode(value@),
        parsed(res) == decode(bytes),
    ensures
        res matches Ok((back, used)) && back@ == value@ && used == bytes.len(),
{
    lemma_roundtrip(value@);
}

} // verus!
