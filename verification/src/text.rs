//! Comparing text byte by byte, with and without regard to ASCII case.

use vstd::prelude::*;
use vstd::utf8::encode_utf8_decode_utf8;

verus! {

/// The upper-case form of an ASCII letter; any other byte unchanged.
pub open spec fn fold_byte(b: u8) -> u8 {
    if 97 <= b <= 122 {
        (b - 32) as u8
    } else {
        b
    }
}

/// `bytes` with its ASCII letters in upper case.
pub open spec fn fold(bytes: Seq<u8>) -> Seq<u8> {
    Seq::new(bytes.len(), |i: int| fold_byte(bytes[i]))
}

/// Whether two byte slices hold the same bytes.
pub fn bytes_eq(a: &[u8], b: &[u8]) -> (res: bool)
    ensures
        res == (a@ == b@),
{
    if a.len() != b.len() {
        return false;
    }
    let mut i: usize = 0;
    while i < a.len()
        invariant
            i <= a.len(),
            a@.len() == b@.len(),
            forall|k: int| 0 <= k < i ==> a@[k] == b@[k],
        decreases a.len() - i,
    {
        if a[i] != b[i] {
            return false;
        }
        i = i + 1;
    }
    assert(a@ =~= b@);
    true
}

/// Whether `token`, with its ASCII letters in upper case, is `word`.
pub fn is_word(token: &[u8], word: &[u8]) -> (res: bool)
    ensures
        res == (fold(token@) == word@),
{
    if token.len() != word.len() {
        return false;
    }
    let mut i: usize = 0;
    while i < token.len()
        invariant
            i <= token.len(),
            token@.len() == word@.len(),
            forall|k: int| 0 <= k < i ==> fold(token@)[k] == word@[k],
        decreases token.len() - i,
    {
        let b = token[i];
        let upper = if 97u8 <= b && b <= 122u8 {
            b - 32u8
        } else {
            b
        };
        if upper != word[i] {
            assert(fold(token@)[i as int] != word@[i as int]);
            return false;
        }
        i = i + 1;
    }
    assert(fold(token@) =~= word@);
    true
}

/// Whether two strings hold the same characters.
pub fn str_eq(a: &str, b: &str) -> (res: bool)
    ensures
        res == (a@ == b@),
{
    proof {
        encode_utf8_decode_utf8(a@);
        encode_utf8_decode_utf8(b@);
    }
    bytes_eq(a.as_bytes(), b.as_bytes())
}

} // verus!
