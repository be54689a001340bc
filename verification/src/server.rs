//! What a connection decides: which bytes of its buffer are a request,
//! what is replied to it, and when the connection ends. Reading and
//! writing the stream is left to the caller.

use vstd::prelude::*;
use vstd::slice::slice_to_vec;
use vstd::string::StringExecFns;
use vstd::utf8::{
    decode_first_codepoint,
    decode_utf8,
    decode_utf8_encode_utf8,
    encode_utf8,
    encode_utf8_valid_utf8,
    is_leading_byte_width_1,
    length_of_first_scalar,
    pop_first_scalar,
    valid_first_scalar,
    valid_utf8,
};
use crate::commands::{handle_input_cmd, handled, texts};
use crate::db::Db;
use crate::constants::{crlf, ERROR_PREFIX};
use crate::deserialize::{
    decode,
    deserialize,
    is_incomplete,
    starved,
    u8_to_string,
    DecodeFailure,
};
use crate::errors::{DeserializeError, ServerError, UserInputError};
use crate::redisconfig::Config;
use crate::resp_value::{append_bytes, encode, lemma_views_of, views_of, RespType, RespValue};
use crate::roundtrip::frameable;

verus! {

/// A bulk string that holds text.
pub open spec fn is_text_bulk(v: RespValue) -> bool {
    v matches RespValue::BulkString(Some(bytes)) && valid_utf8(bytes)
}

/// The text of a bulk string.
pub open spec fn bulk_text(v: RespValue) -> Seq<char> {
    match v {
        RespValue::BulkString(Some(bytes)) => decode_utf8(bytes),
        _ => Seq::empty(),
    }
}

/// The words of a request: the value is an array that is not null and
/// not empty, and each element of it is a bulk string that holds text.
pub open spec fn request_words(v: RespValue) -> Option<Seq<Seq<char>>> {
    match v {
        RespValue::Array(Some(items)) => if items.len() > 0 && forall|i: int|
            0 <= i < items.len() ==> is_text_bulk(#[trigger] items[i]) {
            Some(Seq::new(items.len(), |i: int| bulk_text(items[i])))
        } else {
            None
        },
        _ => None,
    }
}

/// The result of a command inside the result of a request.
pub open spec fn command_result(res: Result<RespType, ServerError>) -> Option<
    Result<RespType, UserInputError>,
> {
    match res {
        Ok(reply) => Some(Ok(reply)),
        Err(ServerError::UserInputError(e)) => Some(Err(e)),
        Err(_) => None,
    }
}

/// Runs the request `arr`. A value that is no request is a `TypeError`;
/// a request is run as a command.
pub fn reply(arr: RespType, db: &Db, config: &mut Config) -> (res: Result<RespType, ServerError>)
    ensures
        match request_words(arr@) {
            None => res == Err::<RespType, ServerError>(ServerError::TypeError) && final(config)@
                == old(config)@,
            Some(words) => command_result(res) matches Some(inner) && handled(
                words,
                old(config)@,
                final(config)@,
                inner,
            ),
        },
{
    let ghost request = arr@;
    let items = match arr {
        RespType::Array(Some(items)) => items,
        _ => {
            return Err(ServerError::TypeError);
        },
    };
    proof {
        lemma_views_of(items@);
    }
    if items.len() == 0 {
        return Err(ServerError::TypeError);
    }
    let mut owned: Vec<String> = Vec::new();
    let mut i: usize = 0;
    while i < items.len()
        invariant
            i <= items@.len(),
            owned@.len() == i,
            request == arr@,
            request == RespValue::Array(Some(views_of(items@))),
            config@ == old(config)@,
            views_of(items@).len() == items@.len(),
            forall|k: int| 0 <= k < items@.len() ==> (#[trigger] views_of(items@)[k]) == items@[k]@,
            forall|k: int| 0 <= k < i ==> is_text_bulk(#[trigger] items@[k]@),
            forall|k: int| 0 <= k < i ==> (#[trigger] owned@[k])@ == bulk_text(items@[k]@),
        decreases items@.len() - i,
    {
        let word = match &items[i] {
            RespType::BulkString(Some(bytes)) => u8_to_string(slice_to_vec(bytes.as_slice())),
            _ => None,
        };
        if word.is_none() {
            assert(!is_text_bulk(items@[i as int]@));
            assert(!is_text_bulk(views_of(items@)[i as int]));
            return Err(ServerError::TypeError);
        }
        let text = word.unwrap();
        let ghost before = owned@;
        assert(is_text_bulk(items@[i as int]@));
        assert(text@ == bulk_text(items@[i as int]@));
        owned.push(text);
        assert(forall|k: int| 0 <= k < i ==> owned@[k] == before[k]);
        assert(owned@[i as int]@ == bulk_text(items@[i as int]@));
        i = i + 1;
    }
    let mut words: Vec<&str> = Vec::new();
    let mut j: usize = 0;
    while j < owned.len()
        invariant
            j <= owned@.len(),
            words@.len() == j,
            forall|k: int| 0 <= k < j ==> (#[trigger] words@[k])@ == owned@[k]@,
        decreases owned@.len() - j,
    {
        words.push(owned[j].as_str());
        j = j + 1;
    }
    proof {
        assert forall|k: int| 0 <= k < items@.len() implies is_text_bulk(
            #[trigger] views_of(items@)[k],
        ) by {
            assert(is_text_bulk(items@[k]@));
        }
        assert(texts(words@) =~= request_words(request)->0);
    }
    match handle_input_cmd(words, db, config) {
        Ok(reply) => Ok(reply),
        Err(e) => Err(ServerError::UserInputError(e)),
    }
}

/// `bytes` with each carriage return and each line feed made a space.
pub open spec fn flat(bytes: Seq<u8>) -> Seq<u8> {
    Seq::new(
        bytes.len(),
        |i: int|
            if bytes[i] == 13u8 || bytes[i] == 10u8 {
                32u8
            } else {
                bytes[i]
            },
    )
}

/// Text stays text when its line breaks are made spaces.
pub proof fn lemma_flat_is_text(bytes: Seq<u8>)
    requires
        valid_utf8(bytes),
    ensures
        valid_utf8(flat(bytes)),
    decreases bytes.len(),
{
    if bytes.len() > 0 {
        let changed = flat(bytes);
        assert(valid_first_scalar(bytes));
        lemma_flat_is_text(pop_first_scalar(bytes));
        assert(length_of_first_scalar(changed) == length_of_first_scalar(bytes));
        assert(pop_first_scalar(changed) =~= flat(pop_first_scalar(bytes)));
        if is_leading_byte_width_1(bytes[0]) {
            let b = changed[0];
            assert((b & 0x7f) <= 0x7f) by (bit_vector);
        } else {
            assert(decode_first_codepoint(changed) == decode_first_codepoint(bytes));
        }
        assert(valid_first_scalar(changed));
    }
}

/// What a client is told of an error: for an unknown command its name in
/// quotes, else the text of the error.
pub open spec fn error_text(e: ServerError) -> Seq<char> {
    match e {
        ServerError::UserInputError(UserInputError::UnknownCommand(name)) => "unknown command '"@
            + name@ + "'"@,
        _ => e.text(),
    }
}

/// The bytes of the error reply that tells `text`: the text on a single
/// line, each line break in it made a space.
pub open spec fn error_frame(text: Seq<char>) -> Seq<u8> {
    seq![ERROR_PREFIX] + flat(encode_utf8(text)) + crlf()
}

/// The text of a failure to decode.
pub open spec fn failure_text(failure: DecodeFailure) -> Seq<char> {
    match failure {
        DecodeFailure::InvalidInput(s) => "Invalid input: "@ + s,
        DecodeFailure::LengthMismatch(s) => "Length mismatch: "@ + s,
        DecodeFailure::EmptyInput => "Empty input"@,
    }
}

/// The error reply for `e`: its text with each line break made a space,
/// so that the reply is a single line.
pub fn error_reply(e: &ServerError) -> (res: RespType)
    ensures
        res@ matches RespValue::Error(text) && encode_utf8(text) == flat(
            encode_utf8(error_text(*e)),
        ),
        encode(res@) == error_frame(error_text(*e)),
        frameable(res@),
{
    let message = match e {
        ServerError::UserInputError(UserInputError::UnknownCommand(name)) => {
            let mut text = String::from_str("unknown command '");
            text.append(name.as_str());
            text.append("'");
            text
        },
        _ => e.message(),
    };
    let bytes = message.as_str().as_bytes();
    let mut single: Vec<u8> = Vec::new();
    let mut i: usize = 0;
    while i < bytes.len()
        invariant
            i <= bytes@.len(),
            single@.len() == i,
            forall|k: int| 0 <= k < i ==> (#[trigger] single@[k]) == flat(bytes@)[k],
        decreases bytes@.len() - i,
    {
        let b = bytes[i];
        if b == 13u8 || b == 10u8 {
            single.push(32u8);
        } else {
            single.push(b);
        }
        i = i + 1;
    }
    let ghost flattened = single@;
    proof {
        assert(flattened =~= flat(bytes@));
        encode_utf8_valid_utf8(message@);
        lemma_flat_is_text(bytes@);
        decode_utf8_encode_utf8(flattened);
        assert(forall|k: int| 0 <= k < flattened.len() ==> (#[trigger] flattened[k]) != 13u8);
    }
    match u8_to_string(single) {
        Some(text) => RespType::Error(text),
        None => RespType::Error(message),
    }
}

/// What is owed to the value `request`: to a request the result of its
/// command, an error made an error reply; to any other value an error
/// reply, with the settings as they were. An error reply can be read
/// back by the client.
pub open spec fn answered(
    request: RespValue,
    before: Map<Seq<char>, Seq<char>>,
    after: Map<Seq<char>, Seq<char>>,
    res: RespType,
) -> bool {
    match request_words(request) {
        None => {
            &&& after == before
            &&& frameable(res@)
            &&& encode(res@) == error_frame(error_text(ServerError::TypeError))
        },
        Some(words) => exists|inner: Result<RespType, UserInputError>|
            #[trigger] handled(words, before, after, inner) && (match inner {
                Ok(r) => res == r,
                Err(e) => frameable(res@) && encode(res@) == error_frame(
                    error_text(ServerError::UserInputError(e)),
                ),
            }),
    }
}

/// The reply to a request, an error made a reply too.
pub fn respond(request: RespType, db: &Db, config: &mut Config) -> (res: RespType)
    ensures
        answered(request@, old(config)@, final(config)@, res),
{
    let ghost words = request_words(request@);
    match reply(request, db, config) {
        Ok(r) => {
            proof {
                if words is Some {
                    assert(handled(
                        words->0,
                        old(config)@,
                        config@,
                        Ok::<RespType, UserInputError>(r),
                    ));
                }
            }
            r
        },
        Err(e) => {
            let res = error_reply(&e);
            proof {
                if words is Some {
                    let inner = command_result(Err::<RespType, ServerError>(e))->0;
                    assert(handled(words->0, old(config)@, config@, inner));
                }
            }
            res
        },
    }
}

/// What stands at the front of the buffer of a connection.
pub enum Frame {
    /// Not yet a whole frame: more bytes are needed.
    Incomplete,
    /// A value, which has left the buffer.
    Request(RespType),
    /// Bytes that are no frame; the buffer was emptied.
    Malformed(DeserializeError),
}

/// The bytes that a connection has received and not yet used.
pub struct Connection {
    buffer: Vec<u8>,
}

impl View for Connection {
    type V = Seq<u8>;

    closed spec fn view(&self) -> Seq<u8> {
        self.buffer@
    }
}

/// What is left in a buffer once every whole frame at its front has been
/// taken: bytes that are the beginning of a frame stay, bytes that are no
/// frame are dropped.
pub open spec fn leftover(buffer: Seq<u8>) -> Seq<u8>
    decreases buffer.len(),
{
    match decode(buffer) {
        Ok((_, n)) => if 0 < n <= buffer.len() {
            leftover(buffer.skip(n))
        } else {
            buffer
        },
        Err(_) => if starved(buffer) {
            buffer
        } else {
            Seq::empty()
        },
    }
}

/// The value that `buffer` holds where it holds one frame and nothing
/// else.
pub open spec fn whole_frame(buffer: Seq<u8>) -> Option<RespValue> {
    match decode(buffer) {
        Ok((v, n)) => if n == buffer.len() {
            Some(v)
        } else {
            None
        },
        Err(_) => None,
    }
}

/// What the caller tells a connection.
pub enum Event {
    /// These bytes were read from the stream.
    Received(Vec<u8>),
    /// The peer has closed its side: a read gave no bytes.
    Closed,
    /// No bytes came within the idle time.
    TimedOut,
    /// A read failed.
    Failed,
}

/// What a connection asks of the caller after an event.
pub struct Output {
    /// The bytes to write and flush, if any.
    pub replies: Vec<u8>,
    /// Whether the connection ends after that.
    pub close: bool,
}

impl Connection {
    /// A connection that has received nothing.
    pub fn new() -> (res: Self)
        ensures
            res@ == Seq::<u8>::empty(),
    {
        Connection { buffer: Vec::new() }
    }

    /// Takes bytes that were read from the stream into the buffer.
    pub fn receive(&mut self, bytes: &[u8])
        ensures
            final(self)@ == old(self)@ + bytes@,
    {
        append_bytes(&mut self.buffer, bytes);
    }

    /// Takes the frame at the front of the buffer, if a whole one is there.
    pub fn next_frame(&mut self) -> (res: Frame)
        ensures
            match decode(old(self)@) {
                Ok((v, n)) => res matches Frame::Request(r) && r@ == v && 0 < n <= old(self)@.len()
                    && final(self)@ == old(self)@.skip(n),
                Err(failure) => if starved(old(self)@) {
                    res is Incomplete && final(self)@ == old(self)@
                } else {
                    res matches Frame::Malformed(e) && e@ == failure && final(self)@
                        == Seq::<u8>::empty()
                },
            },
    {
        match deserialize(self.buffer.as_slice()) {
            Ok((request, used)) => {
                let rest = self.buffer.split_off(used);
                self.buffer = rest;
                assert(self@ =~= old(self)@.skip(used as int));
                Frame::Request(request)
            },
            Err(e) => {
                if is_incomplete(self.buffer.as_slice()) {
                    Frame::Incomplete
                } else {
                    self.buffer.clear();
                    Frame::Malformed(e)
                }
            },
        }
    }

    /// Answers the frame at the front of the buffer, if a whole one is
    /// there: the encoded reply to a request, or the encoded error for
    /// bytes that are no frame. `None` where more bytes are needed.
    pub fn poll(&mut self, db: &Db, config: &mut Config) -> (res: Option<Vec<u8>>)
        ensures
            match decode(old(self)@) {
                Ok((v, n)) => {
                    &&& 0 < n <= old(self)@.len()
                    &&& final(self)@ == old(self)@.skip(n)
                    &&& res matches Some(bytes) && exists|reply: RespType|
                        #[trigger] answered(v, old(config)@, final(config)@, reply) && bytes@
                            == encode(reply@)
                },
                Err(failure) => if starved(old(self)@) {
                    res is None && final(self)@ == old(self)@ && final(config)@ == old(config)@
                } else {
                    &&& final(self)@ == Seq::<u8>::empty()
                    &&& final(config)@ == old(config)@
                    &&& res matches Some(bytes) && bytes@ == error_frame(
                        "Failed to parse RESP "@ + failure_text(failure),
                    )
                },
            },
    {
        match self.next_frame() {
            Frame::Incomplete => None,
            Frame::Request(request) => Some(respond(request, db, config).serialize()),
            Frame::Malformed(e) => {
                let error = ServerError::RespParseError(e.message());
                let reply = error_reply(&error);
                Some(reply.serialize())
            },
        }
    }

    /// Handles one event: bytes that were received are taken into the
    /// buffer and every whole frame in it is answered, in order; any other
    /// event ends the connection, as does a read of no bytes.
    pub fn on_event(&mut self, event: Event, db: &Db, config: &mut Config) -> (res: Output)
        ensures
            match event {
                Event::Received(bytes) => if bytes@.len() > 0 {
                    &&& !res.close
                    &&& final(self)@ == leftover(old(self)@ + bytes@)
                    &&& decode(old(self)@ + bytes@) is Err && starved(old(self)@ + bytes@) ==> {
                        &&& res.replies@.len() == 0
                        &&& final(config)@ == old(config)@
                    }
                    &&& whole_frame(old(self)@ + bytes@) matches Some(v) ==> exists|
                        reply: RespType,
                    |
                        #[trigger] answered(v, old(config)@, final(config)@, reply)
                            && res.replies@ == encode(reply@)
                } else {
                    &&& res.close
                    &&& res.replies@.len() == 0
                    &&& final(self)@ == old(self)@
                    &&& final(config)@ == old(config)@
                },
                _ => {
                    &&& res.close
                    &&& res.replies@.len() == 0
                    &&& final(self)@ == old(self)@
                    &&& final(config)@ == old(config)@
                },
            },
    {
        let mut replies: Vec<u8> = Vec::new();
        let bytes = match event {
            Event::Received(bytes) => bytes,
            _ => {
                return Output { replies, close: true };
            },
        };
        if bytes.len() == 0 {
            return Output { replies, close: true };
        }
        self.receive(bytes.as_slice());
        let ghost first = self@;
        let ghost mut fresh = true;
        loop
            invariant_except_break
                fresh ==> replies@.len() == 0 && config@ == old(config)@ && self@ == first,
                !fresh ==> decode(first) is Ok && whole_frame(first) is None,
            invariant
                first == old(self)@ + bytes@,
                leftover(self@) == leftover(first),
            ensures
                self@ == leftover(first),
                decode(first) is Err && starved(first) ==> {
                    &&& replies@.len() == 0
                    &&& config@ == old(config)@
                },
                whole_frame(first) matches Some(v) ==> exists|reply: RespType|
                    #[trigger] answered(v, old(config)@, config@, reply) && replies@ == encode(
                        reply@,
                    ),
            decreases self@.len(),
        {
            let ghost before = self@;
            match self.poll(db, config) {
                None => {
                    break ;
                },
                Some(encoded) => {
                    assert(leftover(before) == leftover(self@));
                    append_bytes(&mut replies, encoded.as_slice());
                    if self.buffer.len() == 0 {
                        proof {
                            assert(decode(self@) is Err && starved(self@));
                            if fresh {
                                assert(replies@ =~= encoded@);
                            }
                        }
                        break ;
                    }
                    proof {
                        if fresh && decode(first) is Err {
                            assert(false);
                        }
                        fresh = false;
                    }
                },
            }
        }
        Output { replies, close: false }
    }
}

} // verus!
