//! The options of SET: the words that name them, how a list of tokens is
//! read, and when it is refused.

use vstd::prelude::*;
use vstd::string::StringExecFns;
use vstd::utf8::encode_utf8;
use crate::deserialize::{all_digits, digits_part, has_sign, integer_of, is_digit, parse_i64};
use crate::errors::DataStoreError;
use crate::text::{fold, is_word};

verus! {

/// The words that SET understands among its options.
#[derive(Clone, Copy, Debug, PartialEq, Eq)]
pub enum Keyword {
    Ex,
    Px,
    ExAt,
    PxAt,
    Nx,
    Xx,
    KeepTtl,
    Get,
    Other,
}

/// The keyword that a token is, without regard to ASCII case.
pub open spec fn keyword_of(token: Seq<u8>) -> Keyword {
    let word = fold(token);
    if word == seq![69u8, 88u8] {  // EX
        Keyword::Ex
    } else if word == seq![80u8, 88u8] {  // PX
        Keyword::Px
    } else if word == seq![69u8, 88u8, 65u8, 84u8] {  // EXAT
        Keyword::ExAt
    } else if word == seq![80u8, 88u8, 65u8, 84u8] {  // PXAT
        Keyword::PxAt
    } else if word == seq![78u8, 88u8] {  // NX
        Keyword::Nx
    } else if word == seq![88u8, 88u8] {  // XX
        Keyword::Xx
    } else if word == seq![75u8, 69u8, 69u8, 80u8, 84u8, 84u8, 76u8] {  // KEEPTTL
        Keyword::KeepTtl
    } else if word == seq![71u8, 69u8, 84u8] {  // GET
        Keyword::Get
    } else {
        Keyword::Other
    }
}

/// Tells which keyword a token is.
pub fn classify(token: &[u8]) -> (res: Keyword)
    ensures
        res == keyword_of(token@),
{
    let ex: [u8; 2] = [69u8, 88u8];
    let px: [u8; 2] = [80u8, 88u8];
    let exat: [u8; 4] = [69u8, 88u8, 65u8, 84u8];
    let pxat: [u8; 4] = [80u8, 88u8, 65u8, 84u8];
    let nx: [u8; 2] = [78u8, 88u8];
    let xx: [u8; 2] = [88u8, 88u8];
    let keepttl: [u8; 7] = [75u8, 69u8, 69u8, 80u8, 84u8, 84u8, 76u8];
    let get: [u8; 3] = [71u8, 69u8, 84u8];
    proof {
        assert(ex@ =~= seq![69u8, 88u8]);
        assert(px@ =~= seq![80u8, 88u8]);
        assert(exat@ =~= seq![69u8, 88u8, 65u8, 84u8]);
        assert(pxat@ =~= seq![80u8, 88u8, 65u8, 84u8]);
        assert(nx@ =~= seq![78u8, 88u8]);
        assert(xx@ =~= seq![88u8, 88u8]);
        assert(keepttl@ =~= seq![75u8, 69u8, 69u8, 80u8, 84u8, 84u8, 76u8]);
        assert(get@ =~= seq![71u8, 69u8, 84u8]);
    }
    if is_word(token, ex.as_slice()) {
        Keyword::Ex
    } else if is_word(token, px.as_slice()) {
        Keyword::Px
    } else if is_word(token, exat.as_slice()) {
        Keyword::ExAt
    } else if is_word(token, pxat.as_slice()) {
        Keyword::PxAt
    } else if is_word(token, nx.as_slice()) {
        Keyword::Nx
    } else if is_word(token, xx.as_slice()) {
        Keyword::Xx
    } else if is_word(token, keepttl.as_slice()) {
        Keyword::KeepTtl
    } else if is_word(token, get.as_slice()) {
        Keyword::Get
    } else {
        Keyword::Other
    }
}

/// When the new entry expires.
#[derive(Clone, Copy, Debug, PartialEq, Eq)]
pub enum Expiry {
    /// It does not.
    Never,
    /// At this unix time in milliseconds.
    At(i64),
    /// When the entry that it replaces would have, if there is one.
    Keep,
}

/// On which keys SET writes.
#[derive(Clone, Copy, Debug, PartialEq, Eq)]
pub enum Condition {
    Always,
    /// Only where no live entry is there (NX).
    IfAbsent,
    /// Only where a live entry is there (XX).
    IfPresent,
}

/// The options of one SET.
#[derive(Clone, Copy, Debug, PartialEq, Eq)]
pub struct SetOptions {
    pub expiry: Expiry,
    pub condition: Condition,
    pub get: bool,
}

/// Why a list of options is refused.
pub enum OptionFault {
    /// Two expiry options, or NX together with XX.
    Syntax,
    /// An expiry option is the last token.
    MissingTime,
    /// The time is no integer, is negative where a duration is asked, or
    /// gives an instant beyond 64 bits.
    InvalidTime,
}

pub open spec fn no_options() -> SetOptions {
    SetOptions { expiry: Expiry::Never, condition: Condition::Always, get: false }
}

/// The text of a fault.
pub open spec fn fault_text(fault: OptionFault) -> Seq<char> {
    match fault {
        OptionFault::Syntax => "syntax error"@,
        OptionFault::MissingTime => "No expire time provided"@,
        OptionFault::InvalidTime => "invalid expire time"@,
    }
}

/// The instant in unix milliseconds that an expiry option with the
/// argument `arg` names at time `now`: EX and PX count seconds and
/// milliseconds from `now`, EXAT and PXAT give the instant itself in
/// seconds and milliseconds.
pub open spec fn expiry_instant(kind: Keyword, arg: Seq<u8>, now: int) -> Option<i64> {
    match integer_of(arg) {
        None => None,
        Some(n) => {
            let t: int = match kind {
                Keyword::Ex => now + n * 1000,
                Keyword::Px => now + n,
                Keyword::ExAt => n * 1000,
                _ => n as int,
            };
            if (kind is Ex || kind is Px) && n < 0 {
                None
            } else if i64::MIN <= t <= i64::MAX {
                Some(t as i64)
            } else {
                None
            }
        },
    }
}

/// The options that the tokens from position `i` on add to `acc`.
/// A token that is no keyword is passed over.
pub open spec fn parse_options_from(
    tokens: Seq<Seq<u8>>,
    i: int,
    acc: SetOptions,
    now: int,
) -> Result<SetOptions, OptionFault>
    decreases tokens.len() - i,
{
    if i < 0 || i >= tokens.len() {
        Ok(acc)
    } else {
        match keyword_of(tokens[i]) {
            Keyword::Nx => if acc.condition is IfPresent {
                Err(OptionFault::Syntax)
            } else {
                parse_options_from(
                    tokens,
                    i + 1,
                    SetOptions { condition: Condition::IfAbsent, ..acc },
                    now,
                )
            },
            Keyword::Xx => if acc.condition is IfAbsent {
                Err(OptionFault::Syntax)
            } else {
                parse_options_from(
                    tokens,
                    i + 1,
                    SetOptions { condition: Condition::IfPresent, ..acc },
                    now,
                )
            },
            Keyword::Get => parse_options_from(tokens, i + 1, SetOptions { get: true, ..acc }, now),
            Keyword::Other => parse_options_from(tokens, i + 1, acc, now),
            Keyword::KeepTtl => if !(acc.expiry is Never) {
                Err(OptionFault::Syntax)
            } else {
                parse_options_from(tokens, i + 1, SetOptions { expiry: Expiry::Keep, ..acc }, now)
            },
            kind => if !(acc.expiry is Never) {
                Err(OptionFault::Syntax)
            } else if i + 1 >= tokens.len() {
                Err(OptionFault::MissingTime)
            } else {
                match expiry_instant(kind, tokens[i + 1], now) {
                    None => Err(OptionFault::InvalidTime),
                    Some(t) => parse_options_from(
                        tokens,
                        i + 2,
                        SetOptions { expiry: Expiry::At(t), ..acc },
                        now,
                    ),
                }
            },
        }
    }
}

/// The bytes of each option.
pub open spec fn token_bytes(options: Seq<String>) -> Seq<Seq<u8>> {
    Seq::new(options.len(), |i: int| encode_utf8(options[i]@))
}

/// The options that a list of tokens stands for at time `now`.
pub open spec fn parse_options(options: Seq<String>, now: int) -> Result<SetOptions, OptionFault> {
    parse_options_from(token_bytes(options), 0, no_options(), now)
}

/// Computes the instant that an expiry option names.
pub fn expiry_time(kind: &Keyword, arg: &[u8], now: i64) -> (res: Option<i64>)
    requires
        kind is Ex || kind is Px || kind is ExAt || kind is PxAt,
    ensures
        res == expiry_instant(*kind, arg@, now as int),
{
    let n = match parse_i64(arg) {
        None => {
            return None;
        },
        Some(n) => n,
    };
    let t: i128 = match kind {
        Keyword::Ex => {
            if n < 0 {
                return None;
            }
            now as i128 + (n as i128) * 1000
        },
        Keyword::Px => {
            if n < 0 {
                return None;
            }
            now as i128 + n as i128
        },
        Keyword::ExAt => (n as i128) * 1000,
        _ => n as i128,
    };
    if t < i64::MIN as i128 || t > i64::MAX as i128 {
        None
    } else {
        Some(t as i64)
    }
}

/// An `InvalidOptions` error with the text of `fault`.
fn invalid_options(fault: OptionFault) -> (res: DataStoreError)
    ensures
        res matches DataStoreError::InvalidOptions(s) && s@ == fault_text(fault),
{
    match fault {
        OptionFault::Syntax => DataStoreError::InvalidOptions(String::from_str("syntax error")),
        OptionFault::MissingTime => DataStoreError::InvalidOptions(
            String::from_str("No expire time provided"),
        ),
        OptionFault::InvalidTime => DataStoreError::InvalidOptions(
            String::from_str("invalid expire time"),
        ),
    }
}

/// Reads the options of a SET at time `now`.
pub fn parse_set_options(options: &Vec<String>, now: i64) -> (res: Result<
    SetOptions,
    DataStoreError,
>)
    ensures
        match parse_options(options@, now as int) {
            Ok(o) => res == Ok::<SetOptions, DataStoreError>(o),
            Err(fault) => res matches Err(DataStoreError::InvalidOptions(s)) && s@ == fault_text(
                fault,
            ),
        },
{
    let mut acc = SetOptions { expiry: Expiry::Never, condition: Condition::Always, get: false };
    let ghost tokens = token_bytes(options@);
    let mut i: usize = 0;
    while i < options.len()
        invariant
            i <= options.len(),
            tokens == token_bytes(options@),
            parse_options(options@, now as int) == parse_options_from(
                tokens,
                i as int,
                acc,
                now as int,
            ),
        decreases options.len() - i,
    {
        let token = options[i].as_str().as_bytes();
        assert(token@ == tokens[i as int]);
        let kind = classify(token);
        match kind {
            Keyword::Nx => {
                if let Condition::IfPresent = acc.condition {
                    return Err(invalid_options(OptionFault::Syntax));
                }
                acc.condition = Condition::IfAbsent;
                i = i + 1;
            },
            Keyword::Xx => {
                if let Condition::IfAbsent = acc.condition {
                    return Err(invalid_options(OptionFault::Syntax));
                }
                acc.condition = Condition::IfPresent;
                i = i + 1;
            },
            Keyword::Get => {
                acc.get = true;
                i = i + 1;
            },
            Keyword::Other => {
                i = i + 1;
            },
            Keyword::KeepTtl => {
                match acc.expiry {
                    Expiry::Never => {},
                    _ => {
                        return Err(invalid_options(OptionFault::Syntax));
                    },
                }
                acc.expiry = Expiry::Keep;
                i = i + 1;
            },
            _ => {
                match acc.expiry {
                    Expiry::Never => {},
                    _ => {
                        return Err(invalid_options(OptionFault::Syntax));
                    },
                }
                if options.len() - i < 2 {
                    return Err(invalid_options(OptionFault::MissingTime));
                }
                let arg = options[i + 1].as_str().as_bytes();
                assert(arg@ == tokens[i + 1]);
                match expiry_time(&kind, arg, now) {
                    None => {
                        return Err(invalid_options(OptionFault::InvalidTime));
                    },
                    Some(t) => {
                        acc.expiry = Expiry::At(t);
                        i = i + 2;
                    },
                }
            },
        }
    }
    Ok(acc)
}

/// Whether `kind` is among the tokens from position `i` on.
pub open spec fn has_keyword_from(tokens: Seq<Seq<u8>>, kind: Keyword, i: int) -> bool {
    exists|j: int| i <= j < tokens.len() && keyword_of(#[trigger] tokens[j]) == kind
}

/// A token that is an integer is neither NX nor XX.
proof fn lemma_integer_is_no_condition(token: Seq<u8>)
    requires
        integer_of(token) is Some,
    ensures
        !(keyword_of(token) is Nx),
        !(keyword_of(token) is Xx),
{
    if keyword_of(token) is Nx || keyword_of(token) is Xx {
        let word = fold(token);
        assert(word.len() == 2);
        assert(word[0] == 78u8 || word[0] == 88u8);
        assert(!has_sign(token));
        assert(all_digits(digits_part(token)));
        assert(is_digit(token[0]));
    }
}

proof fn lemma_nx_xx_from(tokens: Seq<Seq<u8>>, i: int, acc: SetOptions, now: int)
    requires
        0 <= i,
        acc.condition is IfAbsent || has_keyword_from(tokens, Keyword::Nx, i),
        acc.condition is IfPresent || has_keyword_from(tokens, Keyword::Xx, i),
    ensures
        parse_options_from(tokens, i, acc, now) is Err,
    decreases tokens.len() - i,
{
    if i < tokens.len() {
        let kind = keyword_of(tokens[i]);
        let step: int = if (kind is Ex || kind is Px || kind is ExAt || kind is PxAt) {
            2
        } else {
            1
        };
        let next = match kind {
            Keyword::Nx => SetOptions { condition: Condition::IfAbsent, ..acc },
            Keyword::Xx => SetOptions { condition: Condition::IfPresent, ..acc },
            _ => acc,
        };
        if step == 2 && i + 1 < tokens.len() && expiry_instant(kind, tokens[i + 1], now) is Some {
            lemma_integer_is_no_condition(tokens[i + 1]);
        }
        if has_keyword_from(tokens, Keyword::Nx, i) && !(kind is Nx) {
            let j = choose|j: int|
                i <= j < tokens.len() && keyword_of(#[trigger] tokens[j]) == Keyword::Nx;
            assert(has_keyword_from(tokens, Keyword::Nx, i + 1));
            if step == 2 && i + 1 < tokens.len() && expiry_instant(kind, tokens[i + 1], now)
                is Some {
                assert(j >= i + 2);
                assert(has_keyword_from(tokens, Keyword::Nx, i + 2));
            }
        }
        if has_keyword_from(tokens, Keyword::Xx, i) && !(kind is Xx) {
            let j = choose|j: int|
                i <= j < tokens.len() && keyword_of(#[trigger] tokens[j]) == Keyword::Xx;
            assert(has_keyword_from(tokens, Keyword::Xx, i + 1));
            if step == 2 && i + 1 < tokens.len() && expiry_instant(kind, tokens[i + 1], now)
                is Some {
                assert(j >= i + 2);
                assert(has_keyword_from(tokens, Keyword::Xx, i + 2));
            }
        }
        if parse_options_from(tokens, i, acc, now) is Ok {
            match kind {
                Keyword::Nx => {
                    lemma_nx_xx_from(tokens, i + 1, next, now);
                },
                Keyword::Xx => {
                    lemma_nx_xx_from(tokens, i + 1, next, now);
                },
                Keyword::Get => {
                    lemma_nx_xx_from(tokens, i + 1, SetOptions { get: true, ..acc }, now);
                },
                Keyword::Other => {
                    lemma_nx_xx_from(tokens, i + 1, acc, now);
                },
                Keyword::KeepTtl => {
                    lemma_nx_xx_from(
                        tokens,
                        i + 1,
                        SetOptions { expiry: Expiry::Keep, ..acc },
                        now,
                    );
                },
                _ => {
                    let t = expiry_instant(kind, tokens[i + 1], now)->0;
                    lemma_nx_xx_from(
                        tokens,
                        i + 2,
                        SetOptions { expiry: Expiry::At(t), ..acc },
                        now,
                    );
                },
            }
        }
    }
}

/// A SET whose options hold both NX and XX is refused, whatever else
/// they hold.
pub proof fn lemma_nx_xx_exclusive(options: Seq<String>, now: int)
    requires
        has_keyword_from(token_bytes(options), Keyword::Nx, 0),
        has_keyword_from(token_bytes(options), Keyword::Xx, 0),
    ensures
        parse_options(options, now) is Err,
{
    lemma_nx_xx_from(token_bytes(options), 0, no_options(), now);
}

} // verus!
