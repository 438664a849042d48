//! Transfer-header values for a fetched object: each optional metadata
//! field yields its header value only when present (an absent field sets
//! no header, never an empty one), the cache expiry is formatted as
//! "max-age=" followed by the decimal milliseconds, and the entity tag
//! is always attached.

use vstd::prelude::*;

use crate::store::{Metadata, MetaModel, opt_bytes_view};

verus! {

/// Decimal ASCII rendering of a 64-bit value, most significant digit
/// first, no leading zeroes (zero renders as "0").
pub open spec fn dec_digits(v: u64) -> Seq<u8>
    decreases v,
{
    if v < 10 {
        seq![(48 + v) as u8]
    } else {
        dec_digits(v / 10).push((48 + v % 10) as u8)
    }
}

/// The cache-expiry header value: "max-age=" then the decimal
/// milliseconds.
pub open spec fn max_age_bytes(millis: u64) -> Seq<u8> {
    seq![109u8, 97, 120, 45, 97, 103, 101, 61] + dec_digits(millis)
}

/// The header values to send with a fetched object: one value per
/// present metadata field, and the entity tag.
pub struct TransferHeaders {
    pub content_type: Option<Vec<u8>>,
    pub content_language: Option<Vec<u8>>,
    pub content_disposition: Option<Vec<u8>>,
    pub content_encoding: Option<Vec<u8>>,
    pub cache_control: Option<Vec<u8>>,
    pub cache_expiry: Option<Vec<u8>>,
    pub etag: Vec<u8>,
}

/// Decimal ASCII rendering of a 64-bit value.
pub fn render_decimal(v: u64) -> (r: Vec<u8>)
    ensures
        r@ == dec_digits(v),
    decreases v,
{
    if v < 10 {
        let mut out: Vec<u8> = Vec::new();
        out.push(48 + (v as u8));
        assert(out@ =~= dec_digits(v));
        out
    } else {
        let mut out = render_decimal(v / 10);
        out.push(48 + ((v % 10) as u8));
        assert(out@ =~= dec_digits(v));
        out
    }
}

/// The cache-expiry header value for a given expiry in milliseconds.
pub fn render_max_age(millis: u64) -> (r: Vec<u8>)
    ensures
        r@ == max_age_bytes(millis),
{
    let mut out: Vec<u8> = Vec::new();
    out.push(109);
    out.push(97);
    out.push(120);
    out.push(45);
    out.push(97);
    out.push(103);
    out.push(101);
    out.push(61);
    let digits = render_decimal(millis);
    crate::keys::push_bytes(&mut out, digits.as_slice());
    assert(out@ =~= max_age_bytes(millis));
    out
}

/// Compute the transfer-header values for an object's stored metadata
/// and entity tag: a value is produced exactly for the fields that are
/// present, passed through verbatim, with the cache expiry formatted as
/// "max-age=" plus decimal milliseconds.
pub fn transfer_headers(meta: &Metadata, etag: Vec<u8>) -> (r: TransferHeaders)
    ensures
        opt_bytes_view(r.content_type) == meta@.content_type,
        opt_bytes_view(r.content_language) == meta@.content_language,
        opt_bytes_view(r.content_disposition) == meta@.content_disposition,
        opt_bytes_view(r.content_encoding) == meta@.content_encoding,
        opt_bytes_view(r.cache_control) == meta@.cache_control,
        opt_bytes_view(r.cache_expiry) == (match meta@.cache_expiry_millis {
            Some(ms) => Some(max_age_bytes(ms)),
            None => None,
        }),
        r.etag@ == etag@,
{
    let m = meta.dup();
    let cache_expiry = match m.cache_expiry_millis {
        Some(ms) => Some(render_max_age(ms)),
        None => None,
    };
    TransferHeaders {
        content_type: m.content_type,
        content_language: m.content_language,
        content_disposition: m.content_disposition,
        content_encoding: m.content_encoding,
        cache_control: m.cache_control,
        cache_expiry,
        etag,
    }
}

} // verus!
