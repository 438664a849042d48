//! Entity tags for fetched objects: an opaque content-derived validator,
//! computed as the FNV-1a 64-bit digest of the payload and rendered as 16
//! lower-case hexadecimal digits.

use vstd::prelude::*;

use crate::group_id::hex_char;

verus! {

/// FNV-1a 64-bit offset basis.
pub const FNV_OFFSET: u64 = 0xcbf29ce484222325;

/// FNV-1a 64-bit prime.
pub const FNV_PRIME: u64 = 0x100000001b3;

/// One FNV-1a step: fold one byte into the state.
pub open spec fn fnv1a_step(h: u64, b: u8) -> u64 {
    vstd::wrapping::u64_specs::wrapping_mul(h ^ (b as u64), FNV_PRIME)
}

/// FNV-1a state after folding in every byte of `data`, starting from `h`.
pub open spec fn fnv1a_from(h: u64, data: Seq<u8>) -> u64
    decreases data.len(),
{
    if data.len() == 0 {
        h
    } else {
        fnv1a_from(fnv1a_step(h, data[0]), data.skip(1))
    }
}

/// FNV-1a 64-bit digest of a byte string.
pub open spec fn fnv1a64(data: Seq<u8>) -> u64 {
    fnv1a_from(FNV_OFFSET, data)
}

/// Hexadecimal rendering of a 64-bit value, most significant nibble first.
pub open spec fn u64_hex(v: u64) -> Seq<u8> {
    Seq::new(16, |i: int| hex_char((((v >> ((15 - i) * 4)) & 0xf) as u8)))
}

/// The entity tag of a payload.
pub open spec fn etag_bytes(data: Seq<u8>) -> Seq<u8> {
    u64_hex(fnv1a64(data))
}

/// Compute the entity tag of a payload.
#[verifier::loop_isolation(false)]
pub fn compute_etag(data: &[u8]) -> (r: Vec<u8>)
    ensures
        r@ == etag_bytes(data@),
{
    let mut h: u64 = FNV_OFFSET;
    let mut i: usize = 0;
    proof {
        assert(data@.skip(0) =~= data@);
    }
    while i < data.len()
        invariant
            i <= data@.len(),
            fnv1a_from(h, data@.skip(i as int)) == fnv1a64(data@),
        decreases data@.len() - i,
    {
        proof {
            assert(data@.skip(i as int)[0] == data@[i as int]);
            assert(data@.skip(i as int).skip(1) =~= data@.skip(i + 1));
        }
        h = (h ^ (data[i] as u64)).wrapping_mul(FNV_PRIME);
        i = i + 1;
    }
    proof {
        assert(data@.skip(data@.len() as int) =~= Seq::<u8>::empty());
    }
    let mut out: Vec<u8> = Vec::new();
    let mut j: usize = 0;
    while j < 16
        invariant
            j <= 16,
            fnv1a64(data@) == h,
            out@ == u64_hex(h).subrange(0, j as int),
        decreases 16 - j,
    {
        let shift: u64 = ((15 - j) as u64) * 4;
        let nib: u64 = (h >> shift) & 0xf;
        assert(nib < 16) by (bit_vector)
            requires
                nib == (h >> shift) & 0xf,
        ;
        let c: u8 = if nib < 10 {
            48 + (nib as u8)
        } else {
            97 + ((nib as u8) - 10)
        };
        assert(c == hex_char(((h >> ((15 - j as int) * 4)) & 0xf) as u8));
        out.push(c);
        assert(out@ =~= u64_hex(h).subrange(0, j + 1));
        j = j + 1;
    }
    assert(out@ =~= u64_hex(h));
    out
}

} // verus!
