//! Percent-decoding of key segments arriving from the transport, and the
//! UTF-8 validity check that decides whether a decoded segment is a
//! well-formed key part.

use vstd::prelude::*;

use crate::group_id::{is_hex_digit, hex_value};

verus! {

/// ASCII percent sign.
pub const PERCENT: u8 = 37;

/// Percent-decoding of a byte string: each "%XY" with X and Y hexadecimal
/// digits (either case) becomes the byte with value XY; every other byte,
/// a '%' not followed by two hexadecimal digits included, passes through
/// unchanged. '+' is preserved literally.
pub open spec fn percent_decoded(s: Seq<u8>) -> Seq<u8>
    decreases s.len(),
{
    if s.len() == 0 {
        Seq::empty()
    } else if s[0] == PERCENT && s.len() >= 3 && is_hex_digit(s[1]) && is_hex_digit(s[2]) {
        seq![(hex_value(s[1]) * 16 + hex_value(s[2])) as u8] + percent_decoded(s.skip(3))
    } else {
        seq![s[0]] + percent_decoded(s.skip(1))
    }
}

/// Relies on urlencoding::decode_binary: it replaces each "%XY" with two
/// hexadecimal digits by the byte XY and passes every other byte through
/// unchanged, which is exactly `percent_decoded`.
#[verifier::external_body]
pub(crate) fn percent_decode(data: &[u8]) -> (r: Vec<u8>)
    ensures
        r@ == percent_decoded(data@),
{
    urlencoding::decode_binary(data).into_owned()
}

/// Relies on core::str::from_utf8, which succeeds exactly on valid UTF-8
/// input; vstd states the same validity predicate as the precondition of
/// str::from_utf8_unchecked.
#[verifier::external_body]
pub(crate) fn is_valid_utf8(data: &[u8]) -> (r: bool)
    ensures
        r == vstd::utf8::valid_utf8(data@),
{
    core::str::from_utf8(data).is_ok()
}

/// A byte string without '%' decodes to itself.
pub proof fn lemma_percent_decoded_plain(s: Seq<u8>)
    requires
        forall|i: int| 0 <= i < s.len() ==> s[i] != PERCENT,
    ensures
        percent_decoded(s) == s,
    decreases s.len(),
{
    if s.len() > 0 {
        assert(s[0] != PERCENT);
        assert forall|i: int| 0 <= i < s.skip(1).len() implies s.skip(1)[i] != PERCENT by {
            assert(s.skip(1)[i] == s[i + 1]);
        }
        lemma_percent_decoded_plain(s.skip(1));
        assert(percent_decoded(s) =~= s);
    } else {
        assert(percent_decoded(s) =~= s);
    }
}

} // verus!
