//! The RESP value model and its canonical encoding.

use vstd::prelude::*;
use vstd::utf8::encode_utf8;
use crate::constants::{
    crlf,
    null_array,
    null_bulk_string,
    ARRAY_PREFIX,
    BULK_STRING_PREFIX,
    ERROR_PREFIX,
    INTEGER_PREFIX,
    SIMPLE_STRING_PREFIX,
};

verus! {

/// A RESP value as it travels on the wire.
#[derive(Debug, PartialEq)]
pub enum RespType {
    SimpleString(String),
    Error(String),
    Integer(i64),
    BulkString(Option<Vec<u8>>),
    Array(Option<Vec<RespType>>),
}

/// The mathematical value a `RespType` stands for.
pub enum RespValue {
    SimpleString(Seq<char>),
    Error(Seq<char>),
    Integer(int),
    BulkString(Option<Seq<u8>>),
    Array(Option<Seq<RespValue>>),
}

impl View for RespType {
    type V = RespValue;

    open spec fn view(&self) -> RespValue
        decreases self,
    {
        match self {
            RespType::SimpleString(s) => RespValue::SimpleString(s@),
            RespType::Error(s) => RespValue::Error(s@),
            RespType::Integer(i) => RespValue::Integer(*i as int),
            RespType::BulkString(None) => RespValue::BulkString(None),
            RespType::BulkString(Some(b)) => RespValue::BulkString(Some(b@)),
            RespType::Array(None) => RespValue::Array(None),
            RespType::Array(Some(a)) => RespValue::Array(Some(views_of(a@))),
        }
    }
}

/// The views of a sequence of values, element by element.
pub open spec fn views_of(items: Seq<RespType>) -> Seq<RespValue>
    decreases items,
{
    if items.len() == 0 {
        Seq::empty()
    } else {
        views_of(items.drop_last()).push(items.last()@)
    }
}

/// `views_of` keeps the length and maps each element to its view.
pub proof fn lemma_views_of(items: Seq<RespType>)
    ensures
        views_of(items).len() == items.len(),
        forall|i: int| 0 <= i < items.len() ==> (#[trigger] views_of(items)[i]) == items[i]@,
    decreases items.len(),
{
    reveal_with_fuel(views_of, 2);
    if items.len() > 0 {
        lemma_views_of(items.drop_last());
    }
}

/// Appending one element appends its view.
pub proof fn lemma_views_of_push(items: Seq<RespType>, item: RespType)
    ensures
        views_of(items.push(item)) == views_of(items).push(item@),
{
    assert(items.push(item).drop_last() == items);
}

/// The decimal digits of `n`, most significant first, without leading zeros.
pub open spec fn decimal_digits(n: nat) -> Seq<u8>
    decreases n,
{
    if n < 10 {
        seq![(48 + n) as u8]
    } else {
        decimal_digits(n / 10).push((48 + n % 10) as u8)
    }
}

/// The decimal text of a signed integer: a minus sign for negative numbers,
/// then the digits of the magnitude.
pub open spec fn decimal_int(i: int) -> Seq<u8> {
    if i < 0 {
        seq![45u8] + decimal_digits((-i) as nat)
    } else {
        decimal_digits(i as nat)
    }
}

/// The canonical encoding of a value.
pub open spec fn encode(v: RespValue) -> Seq<u8>
    decreases v,
{
    match v {
        RespValue::SimpleString(s) => seq![SIMPLE_STRING_PREFIX] + encode_utf8(s) + crlf(),
        RespValue::Error(s) => seq![ERROR_PREFIX] + encode_utf8(s) + crlf(),
        RespValue::Integer(i) => seq![INTEGER_PREFIX] + decimal_int(i) + crlf(),
        RespValue::BulkString(None) => null_bulk_string(),
        RespValue::BulkString(Some(b)) => seq![BULK_STRING_PREFIX] + decimal_digits(b.len())
            + crlf() + b + crlf(),
        RespValue::Array(None) => null_array(),
        RespValue::Array(Some(a)) => seq![ARRAY_PREFIX] + decimal_digits(a.len()) + crlf()
            + encode_all(a),
    }
}

/// The encodings of the elements of `items`, one after another.
pub open spec fn encode_all(items: Seq<RespValue>) -> Seq<u8>
    decreases items,
{
    if items.len() == 0 {
        Seq::empty()
    } else {
        encode_all(items.drop_last()) + encode(items.last())
    }
}

/// The magnitude of a 64-bit signed integer.
pub fn magnitude(i: i64) -> (m: u64)
    ensures
        m == if i < 0 { -(i as int) } else { i as int },
{
    if i < 0 {
        ((-(i + 1)) as u64) + 1
    } else {
        i as u64
    }
}

/// Appends the decimal digits of `n` to `out`.
pub fn push_decimal(out: &mut Vec<u8>, n: u64)
    ensures
        final(out)@ == old(out)@ + decimal_digits(n as nat),
    decreases n,
{
    if n >= 10 {
        push_decimal(out, n / 10);
    }
    out.push(48u8 + (n % 10) as u8);
}

/// The number of decimal digits of `n`.
pub fn decimal_len(n: u64) -> (len: usize)
    ensures
        len == decimal_digits(n as nat).len(),
        1 <= len <= 20,
{
    let mut len: usize = 1;
    let mut m: u64 = n;
    assert(m * pow10(0) <= n) by (nonlinear_arith)
        requires
            pow10(0) == 1,
            m == n,
    ;
    while m >= 10
        invariant
            1 <= len <= 20,
            decimal_digits(n as nat).len() == decimal_digits(m as nat).len() + len - 1,
            m * pow10((len - 1) as nat) <= n,
        decreases m,
    {
        proof {
            lemma_pow10_step(m as nat, (len - 1) as nat, n as nat);
        }
        m = m / 10;
        len = len + 1;
    }
    len
}

/// Ten to the power `k`.
pub open spec fn pow10(k: nat) -> nat
    decreases k,
{
    if k == 0 {
        1
    } else {
        10 * pow10((k - 1) as nat)
    }
}

proof fn lemma_pow10_step(m: nat, k: nat, n: nat)
    requires
        m >= 10,
        m * pow10(k) <= n,
        n <= u64::MAX,
    ensures
        (m / 10) * pow10(k + 1) <= n,
        k + 1 < 20,
{
    let p = pow10(k);
    assert(pow10(k + 1) == 10 * p);
    assert((m / 10) * (10 * p) <= m * p) by (nonlinear_arith)
        requires
            m >= 0,
            p >= 0,
    ;
    if k + 1 >= 20 {
        lemma_pow10_grows(19, k);
        assert(pow10(19) == 10000000000000000000nat) by {
            reveal_with_fuel(pow10, 20);
        }
        assert(m * p >= 10 * pow10(19)) by (nonlinear_arith)
            requires
                m >= 10,
                p >= pow10(19),
        ;
    }
}

proof fn lemma_pow10_grows(a: nat, b: nat)
    requires
        a <= b,
    ensures
        pow10(a) <= pow10(b),
    decreases b,
{
    if a < b {
        lemma_pow10_grows(a, (b - 1) as nat);
    }
}

/// Appends the bytes of `src` to `out`.
pub fn append_bytes(out: &mut Vec<u8>, src: &[u8])
    ensures
        final(out)@ == old(out)@ + src@,
{
    let mut i: usize = 0;
    while i < src.len()
        invariant
            i <= src.len(),
            out@ == old(out)@ + src@.take(i as int),
        decreases src.len() - i,
    {
        out.push(src[i]);
        i = i + 1;
        assert(src@.take(i as int) == src@.take(i - 1).push(src@[i - 1]));
    }
    assert(src@.take(i as int) == src@);
}

/// The encoding of a prefix of `items` is no longer than that of all of them.
pub proof fn lemma_encode_all_prefix_len(items: Seq<RespValue>, k: int)
    requires
        0 <= k <= items.len(),
    ensures
        encode_all(items.take(k)).len() <= encode_all(items).len(),
    decreases items.len() - k,
{
    if k < items.len() {
        lemma_encode_all_prefix_len(items, k + 1);
        assert(items.take(k + 1).drop_last() == items.take(k));
    } else {
        assert(items.take(k) == items);
    }
}

impl RespType {
    /// The canonical encoding of the value.
    pub fn serialize(&self) -> (res: Vec<u8>)
        ensures
            res@ == encode(self@),
        decreases self,
    {
        let mut res: Vec<u8> = Vec::new();
        match self {
            RespType::SimpleString(s) => {
                res.push(SIMPLE_STRING_PREFIX);
                append_bytes(&mut res, s.as_str().as_bytes());
                res.push(13u8);
                res.push(10u8);
                assert(res@ == encode(self@));
            },
            RespType::Error(e) => {
                res.push(ERROR_PREFIX);
                append_bytes(&mut res, e.as_str().as_bytes());
                res.push(13u8);
                res.push(10u8);
                assert(res@ == encode(self@));
            },
            RespType::Integer(i) => {
                res.push(INTEGER_PREFIX);
                if *i < 0 {
                    res.push(45u8);
                }
                push_decimal(&mut res, magnitude(*i));
                res.push(13u8);
                res.push(10u8);
                assert(res@ == encode(self@));
            },
            RespType::BulkString(None) => {
                res.push(BULK_STRING_PREFIX);
                res.push(45u8);
                res.push(49u8);
                res.push(13u8);
                res.push(10u8);
                assert(res@ == encode(self@));
            },
            RespType::BulkString(Some(b)) => {
                res.push(BULK_STRING_PREFIX);
                push_decimal(&mut res, b.len() as u64);
                res.push(13u8);
                res.push(10u8);
                append_bytes(&mut res, b.as_slice());
                res.push(13u8);
                res.push(10u8);
                assert(res@ == encode(self@));
            },
            RespType::Array(None) => {
                res.push(ARRAY_PREFIX);
                res.push(45u8);
                res.push(49u8);
                res.push(13u8);
                res.push(10u8);
                assert(res@ == encode(self@));
            },
            RespType::Array(Some(a)) => {
                res.push(ARRAY_PREFIX);
                push_decimal(&mut res, a.len() as u64);
                res.push(13u8);
                res.push(10u8);
                let ghost head = res@;
                let mut i: usize = 0;
                while i < a.len()
                    invariant
                        i <= a.len(),
                        self == RespType::Array(Some(*a)),
                        res@ == head + encode_all(views_of(a@.take(i as int))),
                    decreases a.len() - i,
                {
                    proof {
                        broadcast use vstd::std_specs::vec::axiom_vec_index_decreases;

                        let children = Some(*a);
                        assert(decreases_to!(*self => self->Array_0));
                        assert(decreases_to!(children => children->0));
                        assert(decreases_to!(a => a[i as int]));
                    }
                    let item = a[i].serialize();
                    append_bytes(&mut res, item.as_slice());
                    proof {
                        assert(a@.take(i + 1) == a@.take(i as int).push(a@[i as int]));
                        lemma_views_of_push(a@.take(i as int), a@[i as int]);
                        let vs = views_of(a@.take(i as int)).push(a@[i as int]@);
                        assert(vs.drop_last() == views_of(a@.take(i as int)));
                    }
                    i = i + 1;
                }
                proof {
                    assert(a@.take(i as int) == a@);
                    lemma_views_of(a@);
                }
                assert(res@ == encode(self@));
            },
        }
        res
    }

    /// The length of the canonical encoding, computed without building it.
    pub fn get_byte_length(&self) -> (len: usize)
        requires
            encode(self@).len() <= usize::MAX,
        ensures
            len == encode(self@).len(),
        decreases self,
    {
        match self {
            RespType::SimpleString(s) => s.as_str().len() + 3,
            RespType::Error(e) => e.as_str().len() + 3,
            RespType::Integer(i) => {
                let digits = decimal_len(magnitude(*i));
                if *i < 0 {
                    digits + 4
                } else {
                    digits + 3
                }
            },
            RespType::BulkString(None) => 5,
            RespType::BulkString(Some(b)) => b.len() + 5 + decimal_len(b.len() as u64),
            RespType::Array(None) => 5,
            RespType::Array(Some(a)) => {
                let mut res: usize = 3 + decimal_len(a.len() as u64);
                let ghost head = res;
                let mut i: usize = 0;
                proof {
                    lemma_views_of(a@);
                }
                while i < a.len()
                    invariant
                        i <= a.len(),
                        self == RespType::Array(Some(*a)),
                        views_of(a@).len() == a@.len(),
                        head + encode_all(views_of(a@)).len() <= usize::MAX,
                        res == head + encode_all(views_of(a@).take(i as int)).len(),
                    decreases a.len() - i,
                {
                    proof {
                        let children = Some(*a);
                        assert(decreases_to!(*self => self->Array_0));
                        assert(decreases_to!(children => children->0));
                        assert(decreases_to!(a => a[i as int]));
                        lemma_views_of(a@);
                        lemma_encode_all_prefix_len(views_of(a@), i + 1);
                        assert(views_of(a@).take(i + 1).drop_last() == views_of(a@).take(
                            i as int,
                        ));
                    }
                    res = res + a[i].get_byte_length();
                    i = i + 1;
                }
                proof {
                    assert(views_of(a@).take(i as int) == views_of(a@));
                }
                res
            },
        }
    }
}

} // verus!
