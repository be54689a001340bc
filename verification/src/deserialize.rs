//! The RESP grammar as a function on bytes, and the parser that implements it.

use vstd::prelude::*;
use vstd::slice::{slice_subrange, slice_to_vec};
use vstd::string::StringExecFns;
use vstd::utf8::{decode_utf8, valid_utf8};
use crate::constants::{
    ARRAY_PREFIX,
    BULK_STRING_PREFIX,
    ERROR_PREFIX,
    INTEGER_PREFIX,
    SIMPLE_STRING_PREFIX,
};
use crate::errors::DeserializeError;
use crate::resp_value::{lemma_views_of_push, views_of, RespType, RespValue};

verus! {

/// Why a byte sequence is not a frame, with the text that explains it.
pub enum DecodeFailure {
    InvalidInput(Seq<char>),
    LengthMismatch(Seq<char>),
    EmptyInput,
}

impl View for DeserializeError {
    type V = DecodeFailure;

    open spec fn view(&self) -> DecodeFailure {
        match self {
            DeserializeError::InvalidInput(s) => DecodeFailure::InvalidInput(s@),
            DeserializeError::LengthMismatch(s) => DecodeFailure::LengthMismatch(s@),
            DeserializeError::EmptyInput => DecodeFailure::EmptyInput,
        }
    }
}

/// How the standard library prints a byte slice for debugging.
pub uninterp spec fn debug_text(bytes: Seq<u8>) -> Seq<char>;

/// A decimal number as it was scanned: its sign, and its magnitude where
/// that fits 64 bits.
pub struct Decimal {
    pub negative: bool,
    pub magnitude: Option<u64>,
}

pub open spec fn is_digit(b: u8) -> bool {
    48 <= b <= 57
}

/// One or more decimal digits.
pub open spec fn all_digits(s: Seq<u8>) -> bool {
    s.len() > 0 && forall|i: int| 0 <= i < s.len() ==> is_digit(#[trigger] s[i])
}

/// The number that a run of decimal digits denotes.
pub open spec fn digits_value(s: Seq<u8>) -> nat
    decreases s.len(),
{
    if s.len() == 0 {
        0
    } else {
        digits_value(s.drop_last()) * 10 + (s.last() - 48) as nat
    }
}

/// Whether `s` starts with a sign.
pub open spec fn has_sign(s: Seq<u8>) -> bool {
    s.len() > 0 && (s[0] == 45u8 || s[0] == 43u8)
}

/// The digits of `s`, after its sign if it has one.
pub open spec fn digits_part(s: Seq<u8>) -> Seq<u8> {
    if has_sign(s) {
        s.skip(1)
    } else {
        s
    }
}

/// The integer that `s` denotes in base ten: an optional sign, then one or
/// more digits. `None` where `s` is not of that form.
pub open spec fn parse_decimal(s: Seq<u8>) -> Option<int> {
    if !all_digits(digits_part(s)) {
        None
    } else if s[0] == 45u8 {
        Some(-(digits_value(digits_part(s)) as int))
    } else {
        Some(digits_value(digits_part(s)) as int)
    }
}

/// The first position at or after `from` where a carriage return is
/// followed by a line feed.
pub open spec fn find_crlf(input: Seq<u8>, from: int) -> Option<int>
    decreases input.len() - from,
{
    if from < 0 || from + 1 >= input.len() {
        None
    } else if input[from] == 13u8 && input[from + 1] == 10u8 {
        Some(from)
    } else {
        find_crlf(input, from + 1)
    }
}

pub open spec fn unknown_prefix(input: Seq<u8>) -> DecodeFailure {
    DecodeFailure::InvalidInput("Invalid input: "@ + debug_text(input))
}

pub open spec fn missing_crlf(input: Seq<u8>) -> DecodeFailure {
    DecodeFailure::InvalidInput("Failed to find crlf in input: "@ + debug_text(input))
}

pub open spec fn not_utf8(line: Seq<u8>) -> DecodeFailure {
    DecodeFailure::InvalidInput("Failed to parse text into utf8 string: "@ + debug_text(line))
}

pub open spec fn not_an_integer(line: Seq<u8>) -> DecodeFailure {
    DecodeFailure::InvalidInput("Failed to parse integer: "@ + debug_text(line))
}

pub open spec fn not_a_length(line: Seq<u8>) -> DecodeFailure {
    DecodeFailure::InvalidInput("Failed to parse length string into integer: "@ + debug_text(line))
}

pub open spec fn negative_length(line: Seq<u8>) -> DecodeFailure {
    DecodeFailure::InvalidInput("Negative length: "@ + debug_text(line))
}

pub open spec fn bulk_mismatch() -> DecodeFailure {
    DecodeFailure::LengthMismatch("Bulk string length does not match content length"@)
}

pub open spec fn array_too_short() -> DecodeFailure {
    DecodeFailure::LengthMismatch("Array length value larger than actual length"@)
}

/// The header of a bulk string or an array: the declared length and the
/// position where the content starts.
pub open spec fn decode_header(input: Seq<u8>) -> Result<(int, int), DecodeFailure> {
    match find_crlf(input, 1) {
        None => Err(missing_crlf(input)),
        Some(end) => match parse_decimal(input.subrange(1, end)) {
            None => Err(not_a_length(input.subrange(1, end))),
            Some(len) => Ok((len, end + 2)),
        },
    }
}

/// A line of text: a simple string (`error` false) or an error.
pub open spec fn decode_text(input: Seq<u8>, error: bool) -> Result<
    (RespValue, int),
    DecodeFailure,
> {
    match find_crlf(input, 1) {
        None => Err(missing_crlf(input)),
        Some(end) => {
            let line = input.subrange(1, end);
            if !valid_utf8(line) {
                Err(not_utf8(line))
            } else if error {
                Ok((RespValue::Error(decode_utf8(line)), end + 2))
            } else {
                Ok((RespValue::SimpleString(decode_utf8(line)), end + 2))
            }
        },
    }
}

/// An integer line.
pub open spec fn decode_integer(input: Seq<u8>) -> Result<(RespValue, int), DecodeFailure> {
    match find_crlf(input, 1) {
        None => Err(missing_crlf(input)),
        Some(end) => {
            let line = input.subrange(1, end);
            match parse_decimal(line) {
                Some(i) if i64::MIN <= i <= i64::MAX => Ok((RespValue::Integer(i), end + 2)),
                _ => Err(not_an_integer(line)),
            }
        },
    }
}

/// A bulk string: the declared length decides where the content ends.
pub open spec fn decode_bulk_string(input: Seq<u8>) -> Result<(RespValue, int), DecodeFailure> {
    match decode_header(input) {
        Err(e) => Err(e),
        Ok((len, start)) => {
            if len == -1 {
                Ok((RespValue::BulkString(None), start))
            } else if len < 0 {
                Err(negative_length(input.subrange(1, start - 2)))
            } else if start + len + 2 > input.len() || input[start + len] != 13u8 || input[start
                + len + 1] != 10u8 {
                Err(bulk_mismatch())
            } else {
                Ok(
                    (
                        RespValue::BulkString(Some(input.subrange(start, start + len))),
                        start + len + 2,
                    ),
                )
            }
        },
    }
}

/// An array: the declared count of elements, each decoded where the one
/// before it ended.
pub open spec fn decode_array(input: Seq<u8>) -> Result<(RespValue, int), DecodeFailure>
    decreases input.len(), 1nat,
{
    match decode_header(input) {
        Err(e) => Err(e),
        Ok((count, start)) => {
            if count == -1 {
                Ok((RespValue::Array(None), start))
            } else if count < 0 {
                Err(negative_length(input.subrange(1, start - 2)))
            } else if 1 <= start <= input.len() {
                match decode_items(input.skip(start), count as nat, Seq::empty(), start) {
                    Err(e) => Err(e),
                    Ok((items, used)) => Ok((RespValue::Array(Some(items)), used)),
                }
            } else {
                Err(DecodeFailure::EmptyInput)
            }
        },
    }
}

/// `remaining` more elements read from `rest`, after the elements `acc`
/// that took the first `used` bytes.
pub open spec fn decode_items(
    rest: Seq<u8>,
    remaining: nat,
    acc: Seq<RespValue>,
    used: int,
) -> Result<(Seq<RespValue>, int), DecodeFailure>
    decreases rest.len(), remaining + 3,
{
    if remaining == 0 {
        Ok((acc, used))
    } else {
        match decode(rest) {
            Err(DecodeFailure::EmptyInput) => Err(array_too_short()),
            Err(e) => Err(e),
            Ok((v, n)) => {
                if 0 < n <= rest.len() {
                    decode_items(rest.skip(n), (remaining - 1) as nat, acc.push(v), used + n)
                } else {
                    Err(DecodeFailure::EmptyInput)
                }
            },
        }
    }
}

/// The value at the front of `input` and the number of bytes it takes, or
/// the reason why there is none.
pub open spec fn decode(input: Seq<u8>) -> Result<(RespValue, int), DecodeFailure>
    decreases input.len(), 2nat,
{
    if input.len() == 0 {
        Err(DecodeFailure::EmptyInput)
    } else if input[0] == SIMPLE_STRING_PREFIX {
        decode_text(input, false)
    } else if input[0] == ERROR_PREFIX {
        decode_text(input, true)
    } else if input[0] == INTEGER_PREFIX {
        decode_integer(input)
    } else if input[0] == BULK_STRING_PREFIX {
        decode_bulk_string(input)
    } else if input[0] == ARRAY_PREFIX {
        decode_array(input)
    } else {
        Err(unknown_prefix(input))
    }
}

/// What a parser's result stands for.
pub open spec fn parsed(res: Result<(RespType, usize), DeserializeError>) -> Result<
    (RespValue, int),
    DecodeFailure,
> {
    match res {
        Ok((v, n)) => Ok((v@, n as int)),
        Err(e) => Err(e@),
    }
}

/// What the result of a parser that hands out the value alone stands for.
pub open spec fn parsed_value(res: Result<RespType, DeserializeError>) -> Result<
    RespValue,
    DecodeFailure,
> {
    match res {
        Ok(v) => Ok(v@),
        Err(e) => Err(e@),
    }
}

/// The value of a decoding, without the count of bytes.
pub open spec fn value_of(res: Result<(RespValue, int), DecodeFailure>) -> Result<
    RespValue,
    DecodeFailure,
> {
    match res {
        Ok((v, _)) => Ok(v),
        Err(e) => Err(e),
    }
}

/// Prints a byte slice with the standard library's `Debug` formatting of
/// slices. The text is a function of the bytes alone; the contract gives
/// it a name and claims nothing else of it.
#[verifier::external_body]
fn debug_bytes(input: &[u8]) -> (res: String)
    ensures
        res@ == debug_text(input@),
{
    format!("{:?}", input)
}

/// Calls `String::from_utf8`: the bytes become a string exactly when they
/// are well-formed UTF-8, and the string then holds the characters that
/// they encode.
#[verifier::external_body]
pub(crate) fn u8_to_string(input: Vec<u8>) -> (res: Option<String>)
    ensures
        res is Some <==> valid_utf8(input@),
        res is Some ==> res->0@ == decode_utf8(input@),
{
    match String::from_utf8(input) {
        Ok(s) => Some(s),
        Err(_) => None,
    }
}

/// An `InvalidInput` whose text is `prefix` followed by the printed bytes.
fn invalid_input(prefix: &str, bytes: &[u8]) -> (res: DeserializeError)
    ensures
        res@ == DecodeFailure::InvalidInput(prefix@ + debug_text(bytes@)),
{
    let mut text = String::from_str(prefix);
    let printed = debug_bytes(bytes);
    text.append(printed.as_str());
    DeserializeError::InvalidInput(text)
}

/// Finds the end of the line that starts at `from`.
fn find_line_end(input: &[u8], from: usize) -> (res: Option<usize>)
    ensures
        match res {
            Some(end) => find_crlf(input@, from as int) == Some(end as int) && from <= end && end
                + 1 < input.len(),
            None => find_crlf(input@, from as int) is None,
        },
{
    let mut i: usize = from;
    while i < input.len() && input.len() - i >= 2
        invariant
            from <= i,
            find_crlf(input@, from as int) == find_crlf(input@, i as int),
        decreases input.len() - i,
    {
        if input[i] == 13u8 && input[i + 1] == 10u8 {
            return Some(i);
        }
        i = i + 1;
    }
    None
}

/// Scans an optional sign and one or more decimal digits.
pub fn scan_decimal(line: &[u8]) -> (res: Option<Decimal>)
    ensures
        res is Some <==> parse_decimal(line@) is Some,
        res matches Some(d) ==> {
            &&& d.negative == (line@[0] == 45u8)
            &&& match d.magnitude {
                Some(m) => m == digits_value(digits_part(line@)),
                None => digits_value(digits_part(line@)) > u64::MAX,
            }
        },
{
    let n = line.len();
    if n == 0 {
        return None;
    }
    let signed = line[0] == 45u8 || line[0] == 43u8;
    let negative = line[0] == 45u8;
    let first: usize = if signed {
        1
    } else {
        0
    };
    if first == n {
        return None;
    }
    let ghost digits = digits_part(line@);
    let mut value: u64 = 0;
    let mut fits = true;
    let mut i: usize = first;
    while i < n
        invariant
            first <= i <= n,
            n == line@.len(),
            digits == digits_part(line@),
            digits.len() == n - first,
            forall|k: int| 0 <= k < digits.len() ==> digits[k] == line@[k + first],
            forall|k: int| 0 <= k < i - first ==> is_digit(#[trigger] digits[k]),
            fits ==> value == digits_value(digits.take(i - first)),
            !fits ==> digits_value(digits.take(i - first)) > u64::MAX,
        decreases n - i,
    {
        let b = line[i];
        if b < 48u8 || b > 57u8 {
            assert(!is_digit(digits[i - first]));
            return None;
        }
        let d: u64 = (b - 48u8) as u64;
        proof {
            assert(digits.take(i - first + 1).drop_last() == digits.take(i - first));
        }
        if fits {
            if value > (u64::MAX - d) / 10 {
                fits = false;
            } else {
                value = value * 10 + d;
            }
        }
        i = i + 1;
    }
    proof {
        assert(digits.take(n - first) == digits);
    }
    Some(
        Decimal {
            negative,
            magnitude: if fits {
                Some(value)
            } else {
                None
            },
        },
    )
}

/// The 64-bit integer that `s` denotes, where it denotes one.
pub open spec fn integer_of(s: Seq<u8>) -> Option<i64> {
    match parse_decimal(s) {
        Some(i) if i64::MIN <= i <= i64::MAX => Some(i as i64),
        _ => None,
    }
}

/// Reads a 64-bit signed integer in base ten.
pub fn parse_i64(line: &[u8]) -> (res: Option<i64>)
    ensures
        res == integer_of(line@),
{
    match scan_decimal(line) {
        None => None,
        Some(d) => match d.magnitude {
            None => None,
            Some(m) => {
                if d.negative {
                    if m <= 0x7fff_ffff_ffff_ffffu64 {
                        Some(-(m as i64))
                    } else if m == 0x8000_0000_0000_0000u64 {
                        Some(i64::MIN)
                    } else {
                        None
                    }
                } else if m <= 0x7fff_ffff_ffff_ffffu64 {
                    Some(m as i64)
                } else {
                    None
                }
            },
        },
    }
}

/// Reads the header of a bulk string or an array: the declared length and
/// the position where the content starts.
pub fn get_length_and_content_start_idx(input: &[u8]) -> (res: Result<
    (Decimal, usize),
    DeserializeError,
>)
    ensures
        match res {
            Ok((d, start)) => {
                &&& decode_header(input@) matches Ok((len, s))
                &&& s == start
                &&& 3 <= start <= input.len()
                &&& parse_decimal(input@.subrange(1, start - 2)) == Some(len)
                &&& d.negative == (input@[1] == 45u8)
                &&& d.negative ==> len <= 0
                &&& !d.negative ==> len >= 0
                &&& match d.magnitude {
                    Some(m) => m == len || m == -len,
                    None => len > u64::MAX || -len > u64::MAX,
                }
            },
            Err(e) => decode_header(input@) == Err::<(int, int), DecodeFailure>(e@),
        },
{
    let end = match find_line_end(input, 1) {
        None => {
            return Err(invalid_input("Failed to find crlf in input: ", input));
        },
        Some(end) => end,
    };
    let line = slice_subrange(input, 1, end);
    match scan_decimal(line) {
        None => Err(invalid_input("Failed to parse length string into integer: ", line)),
        Some(d) => Ok((d, end + 2)),
    }
}

/// Reads a simple string (`error` false) or an error from `input`, which
/// starts with its prefix.
fn parse_text(input: &[u8], error: bool) -> (res: Result<(RespType, usize), DeserializeError>)
    requires
        input@.len() > 0,
    ensures
        parsed(res) == decode_text(input@, error),
        res matches Ok((_, n)) ==> 0 < n <= input@.len(),
{
    let end = match find_line_end(input, 1) {
        None => {
            return Err(invalid_input("Failed to find crlf in input: ", input));
        },
        Some(end) => end,
    };
    let line = slice_subrange(input, 1, end);
    match u8_to_string(slice_to_vec(line)) {
        None => Err(invalid_input("Failed to parse text into utf8 string: ", line)),
        Some(text) => {
            if error {
                Ok((RespType::Error(text), end + 2))
            } else {
                Ok((RespType::SimpleString(text), end + 2))
            }
        },
    }
}

/// Reads an integer from `input`, which starts with its prefix.
fn parse_integer(input: &[u8]) -> (res: Result<(RespType, usize), DeserializeError>)
    requires
        input@.len() > 0,
    ensures
        parsed(res) == decode_integer(input@),
        res matches Ok((_, n)) ==> 0 < n <= input@.len(),
{
    let end = match find_line_end(input, 1) {
        None => {
            return Err(invalid_input("Failed to find crlf in input: ", input));
        },
        Some(end) => end,
    };
    let line = slice_subrange(input, 1, end);
    let value = parse_i64(line);
    match value {
        None => Err(invalid_input("Failed to parse integer: ", line)),
        Some(i) => Ok((RespType::Integer(i), end + 2)),
    }
}

/// Reads a bulk string from `input`, which starts with its prefix.
fn parse_bulk_string(input: &[u8]) -> (res: Result<(RespType, usize), DeserializeError>)
    requires
        input@.len() > 0,
    ensures
        parsed(res) == decode_bulk_string(input@),
        res matches Ok((_, n)) ==> 0 < n <= input@.len(),
{
    let (d, start) = match get_length_and_content_start_idx(input) {
        Err(e) => {
            return Err(e);
        },
        Ok(header) => header,
    };
    let len: u64 = match d.magnitude {
        None => {
            if d.negative {
                return Err(
                    invalid_input("Negative length: ", slice_subrange(input, 1, start - 2)),
                );
            }
            return Err(
                DeserializeError::LengthMismatch(
                    String::from_str("Bulk string length does not match content length"),
                ),
            );
        },
        Some(m) => m,
    };
    if d.negative && len == 1 {
        return Ok((RespType::BulkString(None), start));
    }
    if d.negative && len > 0 {
        return Err(invalid_input("Negative length: ", slice_subrange(input, 1, start - 2)));
    }
    let available = input.len() - start;
    if available < 2 || len > (available - 2) as u64 {
        return Err(
            DeserializeError::LengthMismatch(
                String::from_str("Bulk string length does not match content length"),
            ),
        );
    }
    let stop = start + len as usize;
    if input[stop] != 13u8 || input[stop + 1] != 10u8 {
        return Err(
            DeserializeError::LengthMismatch(
                String::from_str("Bulk string length does not match content length"),
            ),
        );
    }
    let content = slice_to_vec(slice_subrange(input, start, stop));
    Ok((RespType::BulkString(Some(content)), stop + 2))
}

/// Reads an array from `input`, which starts with its prefix.
fn parse_array(input: &[u8]) -> (res: Result<(RespType, usize), DeserializeError>)
    requires
        input@.len() > 0,
    ensures
        parsed(res) == decode_array(input@),
        res matches Ok((_, n)) ==> 0 < n <= input@.len(),
    decreases input@.len(), 1nat,
{
    let (d, start) = match get_length_and_content_start_idx(input) {
        Err(e) => {
            return Err(e);
        },
        Ok(header) => header,
    };
    if d.negative {
        match d.magnitude {
            Some(1) => {
                return Ok((RespType::Array(None), start));
            },
            Some(0) => {},
            _ => {
                return Err(
                    invalid_input("Negative length: ", slice_subrange(input, 1, start - 2)),
                );
            },
        }
    }
    let ghost count: nat = decode_header(input@)->Ok_0.0 as nat;
    let ghost body = input@.skip(start as int);
    let mut content: Vec<RespType> = Vec::new();
    let mut pos: usize = start;
    let mut done: u64 = 0;
    while d.magnitude.is_none() || done < d.magnitude.unwrap()
        invariant
            3 <= start <= pos <= input@.len(),
            body == input@.skip(start as int),
            decode_header(input@) == Ok::<(int, int), DecodeFailure>((count as int, start as int)),
            done <= count,
            done + start <= pos,
            d.magnitude matches Some(m) ==> m == count,
            d.magnitude is None ==> count > u64::MAX,
            decode_items(body, count, Seq::empty(), start as int) == decode_items(
                input@.skip(pos as int),
                (count - done) as nat,
                views_of(content@),
                pos as int,
            ),
        decreases input@.len() - pos,
    {
        let rest = slice_subrange(input, pos, input.len());
        assert(rest@ == input@.skip(pos as int));
        match deserialize(rest) {
            Err(e) => {
                assert(decode(rest@) == Err::<(RespValue, int), DecodeFailure>(e@));
                assert(count - done > 0);
                return match e {
                    DeserializeError::EmptyInput => Err(
                        DeserializeError::LengthMismatch(
                            String::from_str("Array length value larger than actual length"),
                        ),
                    ),
                    other => Err(other),
                };
            },
            Ok((item, used)) => {
                proof {
                    lemma_views_of_push(content@, item);
                    assert(rest@.skip(used as int) == input@.skip(pos + used));
                }
                content.push(item);
                pos = pos + used;
                done = done + 1;
            },
        }
    }
    Ok((RespType::Array(Some(content)), pos))
}

/// Reads the value at the front of `input` and reports how many bytes it
/// takes.
pub fn deserialize(input: &[u8]) -> (res: Result<(RespType, usize), DeserializeError>)
    ensures
        parsed(res) == decode(input@),
        res matches Ok((_, n)) ==> 0 < n <= input@.len(),
    decreases input@.len(), 2nat,
{
    if input.len() == 0 {
        return Err(DeserializeError::EmptyInput);
    }
    let tag = input[0];
    if tag == SIMPLE_STRING_PREFIX {
        parse_text(input, false)
    } else if tag == ERROR_PREFIX {
        parse_text(input, true)
    } else if tag == INTEGER_PREFIX {
        parse_integer(input)
    } else if tag == BULK_STRING_PREFIX {
        parse_bulk_string(input)
    } else if tag == ARRAY_PREFIX {
        parse_array(input)
    } else {
        Err(invalid_input("Invalid input: ", input))
    }
}

/// Reads a bulk string from the front of `input`; anything else there is
/// invalid input.
pub fn deserialize_bulk_string(input: &[u8]) -> (res: Result<RespType, DeserializeError>)
    ensures
        parsed_value(res) == if input@.len() > 0 && input@[0] == BULK_STRING_PREFIX {
            value_of(decode_bulk_string(input@))
        } else {
            Err(unknown_prefix(input@))
        },
{
    if input.len() == 0 || input[0] != BULK_STRING_PREFIX {
        return Err(invalid_input("Invalid input: ", input));
    }
    match parse_bulk_string(input) {
        Ok((value, _)) => Ok(value),
        Err(e) => Err(e),
    }
}

/// Reads an array from the front of `input`; anything else there is
/// invalid input.
pub fn deserialize_array(input: &[u8]) -> (res: Result<RespType, DeserializeError>)
    ensures
        parsed_value(res) == if input@.len() > 0 && input@[0] == ARRAY_PREFIX {
            value_of(decode_array(input@))
        } else {
            Err(unknown_prefix(input@))
        },
{
    if input.len() == 0 || input[0] != ARRAY_PREFIX {
        return Err(invalid_input("Invalid input: ", input));
    }
    match parse_array(input) {
        Ok((value, _)) => Ok(value),
        Err(e) => Err(e),
    }
}

/// Whether `input` stops in the middle of a frame: it is empty, or a line
/// of it has no line break yet, or a bulk string has fewer bytes than it
/// declares, or an element of an array stops in that way. An array whose
/// input ends where an element would begin is not of this kind.
pub open spec fn starved(input: Seq<u8>) -> bool
    decreases input.len(), 0nat,
{
    if input.len() == 0 {
        true
    } else if input[0] == SIMPLE_STRING_PREFIX || input[0] == ERROR_PREFIX || input[0]
        == INTEGER_PREFIX {
        find_crlf(input, 1) is None
    } else if input[0] == BULK_STRING_PREFIX {
        match decode_header(input) {
            Err(_) => find_crlf(input, 1) is None,
            Ok((len, start)) => len >= 0 && start + len + 2 > input.len(),
        }
    } else if input[0] == ARRAY_PREFIX {
        match decode_header(input) {
            Err(_) => find_crlf(input, 1) is None,
            Ok((count, start)) => count >= 0 && 1 <= start <= input.len() && items_starved(
                input.skip(start),
                count as nat,
            ),
        }
    } else {
        false
    }
}

/// Whether one of `remaining` more elements to be read from `rest` stops
/// in the middle.
pub open spec fn items_starved(rest: Seq<u8>, remaining: nat) -> bool
    decreases rest.len(), remaining + 1,
{
    remaining > 0 && rest.len() > 0 && match decode(rest) {
        Ok((_, n)) => 0 < n <= rest.len() && items_starved(
            rest.skip(n),
            (remaining - 1) as nat,
        ),
        Err(_) => starved(rest),
    }
}

/// Tells whether `input` stops in the middle of a frame.
pub fn is_incomplete(input: &[u8]) -> (res: bool)
    ensures
        res == starved(input@),
    decreases input@.len(), 0nat,
{
    if input.len() == 0 {
        return true;
    }
    let tag = input[0];
    if tag == SIMPLE_STRING_PREFIX || tag == ERROR_PREFIX || tag == INTEGER_PREFIX {
        return find_line_end(input, 1).is_none();
    }
    if tag != BULK_STRING_PREFIX && tag != ARRAY_PREFIX {
        return false;
    }
    let (d, start) = match get_length_and_content_start_idx(input) {
        Err(_) => {
            return find_line_end(input, 1).is_none();
        },
        Ok(header) => header,
    };
    if d.negative {
        match d.magnitude {
            Some(0) => {},
            _ => {
                return false;
            },
        }
    }
    if tag == BULK_STRING_PREFIX {
        let available = input.len() - start;
        return match d.magnitude {
            None => true,
            Some(len) => available < 2 || len > (available - 2) as u64,
        };
    }
    let ghost count: nat = decode_header(input@)->Ok_0.0 as nat;
    let mut pos: usize = start;
    let mut done: u64 = 0;
    while d.magnitude.is_none() || done < d.magnitude.unwrap()
        invariant
            3 <= start <= pos <= input@.len(),
            done <= count,
            done + start <= pos,
            d.magnitude matches Some(m) ==> m == count,
            d.magnitude is None ==> count > u64::MAX,
            starved(input@) == items_starved(input@.skip(start as int), count),
            items_starved(input@.skip(start as int), count) == items_starved(
                input@.skip(pos as int),
                (count - done) as nat,
            ),
        decreases input@.len() - pos,
    {
        if pos == input.len() {
            return false;
        }
        let rest = slice_subrange(input, pos, input.len());
        assert(rest@ == input@.skip(pos as int));
        match deserialize(rest) {
            Err(_) => {
                return is_incomplete(rest);
            },
            Ok((_, used)) => {
                proof {
                    assert(rest@.skip(used as int) == input@.skip(pos + used));
                }
                pos = pos + used;
                done = done + 1;
            },
        }
    }
    false
}

} // verus!
