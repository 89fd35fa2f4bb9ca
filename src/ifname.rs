use vstd::prelude::*;
use vstd::utf8::{decode_utf8, valid_utf8};

use crate::error::Error;

verus! {

/// The text that `String::from_utf16` decodes from valid UTF-16 `w`.
pub uninterp spec fn utf16_text_of(w: Seq<u16>) -> Seq<char>;

/// `w` is valid UTF-16: each unit lies outside D800-DFFF, or is a high
/// surrogate directly followed by a low one.
pub open spec fn valid_utf16(w: Seq<u16>) -> bool
    decreases w.len(),
{
    if w.len() == 0 {
        true
    } else if w[0] < 0xD800 || w[0] > 0xDFFF {
        valid_utf16(w.drop_first())
    } else if w[0] <= 0xDBFF && w.len() >= 2 && 0xDC00 <= w[1] <= 0xDFFF {
        valid_utf16(w.subrange(2, w.len() as int))
    } else {
        false
    }
}

/// Relies on `String::from_utf8`: succeeds exactly on valid UTF-8, and then
/// holds its decoding.
#[verifier::external_body]
pub(crate) fn utf8_strict(b: &[u8]) -> (r: Option<String>)
    ensures
        r is Some <==> valid_utf8(b@),
        r matches Some(s) ==> s@ == decode_utf8(b@),
{
    String::from_utf8(b.to_vec()).ok()
}

/// Relies on `String::from_utf16`: succeeds exactly on valid UTF-16, and
/// then holds its decoding.
#[verifier::external_body]
pub(crate) fn utf16_strict(w: &[u16]) -> (r: Option<String>)
    ensures
        r is Some <==> valid_utf16(w@),
        r matches Some(s) ==> s@ == utf16_text_of(w@),
{
    String::from_utf16(w).ok()
}

pub open spec fn ends_with_nul(b: Seq<u8>) -> bool {
    b.len() > 0 && b.last() == 0
}

/// A nul byte stands somewhere before the last byte of `b`.
pub open spec fn has_inner_nul(b: Seq<u8>) -> bool {
    exists|i: int| 0 <= i < b.len() - 1 && b[i] == 0
}

/// The bytes of a name payload without its trailing nul, if it has one.
pub open spec fn ifname_body(b: Seq<u8>) -> Seq<u8> {
    if ends_with_nul(b) {
        b.drop_last()
    } else {
        b
    }
}

/// The text a name payload stands for, when it is one: a payload that ends
/// in nul must hold no other nul byte, and the bytes before the trailing nul
/// must be valid UTF-8.
pub open spec fn spec_parse_ifname(b: Seq<u8>) -> Option<Seq<char>> {
    if ends_with_nul(b) && has_inner_nul(b) {
        None
    } else if valid_utf8(ifname_body(b)) {
        Some(decode_utf8(ifname_body(b)))
    } else {
        None
    }
}

/// Parses an interface name payload into text. One trailing nul byte is
/// stripped; a payload that ends in nul must hold no other nul byte, and the
/// rest must be valid UTF-8. Otherwise the name is rejected.
pub fn parse_ifname(bytes: &[u8]) -> (r: Result<String, Error>)
    ensures
        match spec_parse_ifname(bytes@) {
            Some(t) => r matches Ok(s) && s@ == t,
            None => r matches Err(Error::InvalidInterfaceName(_)),
        },
{
    let n = bytes.len();
    if n == 0 || bytes[n - 1] != 0 {
        return ifa_name(bytes);
    }
    let mut i: usize = 0;
    while i < n - 1
        invariant
            n == bytes@.len(),
            n > 0,
            bytes@[n - 1] == 0,
            i <= n - 1,
            forall|j: int| 0 <= j < i ==> bytes@[j] != 0,
        decreases n - 1 - i,
    {
        if bytes[i] == 0 {
            assert(has_inner_nul(bytes@)) by {
                assert(bytes@[i as int] == 0);
            }
            return Err(
                Error::InvalidInterfaceName(
                    String::from_str("interface name holds a nul byte before its end"),
                ),
            );
        }
        i = i + 1;
    }
    let body = &bytes[0..n - 1];
    assert(body@ =~= bytes@.drop_last());
    ifa_name(body)
}

/// Decodes an interface name given as the bytes before its nul terminator;
/// fails on bytes that are not UTF-8.
pub fn ifa_name(bytes: &[u8]) -> (r: Result<String, Error>)
    ensures
        valid_utf8(bytes@) ==> (r matches Ok(s) && s@ == decode_utf8(bytes@)),
        !valid_utf8(bytes@) ==> (r matches Err(Error::InvalidInterfaceName(_))),
{
    match utf8_strict(bytes) {
        Some(s) => Ok(s),
        None => Err(
            Error::InvalidInterfaceName(
                String::from_str("the interface name is not a valid UTF-8 string"),
            ),
        ),
    }
}

/// Decodes an adapter's display name given as the UTF-16 units before its
/// nul terminator; fails on units that are not valid UTF-16.
pub fn wide_name(units: &[u16]) -> (r: Result<String, Error>)
    ensures
        valid_utf16(units@) ==> (r matches Ok(s) && s@ == utf16_text_of(units@)),
        !valid_utf16(units@) ==> (r matches Err(Error::InvalidInterfaceName(_))),
{
    match utf16_strict(units) {
        Some(s) => Ok(s),
        None => Err(
            Error::InvalidInterfaceName(
                String::from_str("the adapter name is not a valid UTF-16 string"),
            ),
        ),
    }
}

} // verus!
