//! Share-group identifiers: 128-bit random tokens with a canonical
//! hyphenated hexadecimal rendering, used as object-key prefixes.

use vstd::prelude::*;

verus! {

/// Byte is an ASCII hexadecimal digit (either case).
pub open spec fn is_hex_digit(b: u8) -> bool {
    (48 <= b && b <= 57) || (97 <= b && b <= 102) || (65 <= b && b <= 70)
}

/// Numeric value of an ASCII hexadecimal digit.
pub open spec fn hex_value(b: u8) -> u8 {
    if 48 <= b && b <= 57 {
        (b - 48) as u8
    } else if 97 <= b && b <= 102 {
        ((b - 97) + 10) as u8
    } else {
        ((b - 65) + 10) as u8
    }
}

/// Lower-case ASCII digit for a nibble value.
pub open spec fn hex_char(n: u8) -> u8 {
    if n < 10 {
        (48 + n) as u8
    } else {
        (97 + (n - 10)) as u8
    }
}

/// Positions of the four hyphens in the canonical 36-character rendering.
pub open spec fn is_hyphen_position(i: int) -> bool {
    i == 8 || i == 13 || i == 18 || i == 23
}

/// For a non-hyphen position in the rendering, the index of the nibble
/// (half-byte) of the identifier that is printed there.
pub open spec fn nibble_index(i: int) -> int {
    if i < 8 {
        i
    } else if i < 13 {
        i - 1
    } else if i < 18 {
        i - 2
    } else if i < 23 {
        i - 3
    } else {
        i - 4
    }
}

/// Position in the rendering at which nibble `k` of the identifier stands.
pub open spec fn position_of_nibble(k: int) -> int {
    if k < 8 {
        k
    } else if k < 12 {
        k + 1
    } else if k < 16 {
        k + 2
    } else if k < 20 {
        k + 3
    } else {
        k + 4
    }
}

/// Nibble `k` of a 16-byte identifier: high half first, then low half.
pub open spec fn nibble_of(bytes: Seq<u8>, k: int) -> u8 {
    if k % 2 == 0 {
        ((bytes[k / 2] as int) / 16) as u8
    } else {
        ((bytes[k / 2] as int) % 16) as u8
    }
}

/// Canonical textual rendering of a 16-byte identifier: 32 lower-case
/// hexadecimal digits with hyphens after the 8th, 12th, 16th and 20th.
pub open spec fn canonical_render(bytes: Seq<u8>) -> Seq<u8> {
    Seq::new(
        36,
        |i: int|
            if is_hyphen_position(i) {
                45
            } else {
                hex_char(nibble_of(bytes, nibble_index(i)))
            },
    )
}

/// A well-formed token: 36 bytes, hyphens exactly at the canonical
/// positions, hexadecimal digits (either case) everywhere else.
pub open spec fn is_canonical_token(s: Seq<u8>) -> bool {
    &&& s.len() == 36
    &&& s[8] == 45 && s[13] == 45 && s[18] == 45 && s[23] == 45
    &&& forall|i: int| 0 <= i < 36 && !is_hyphen_position(i) ==> is_hex_digit(#[trigger] s[i])
}

/// The 16 identifier bytes denoted by a well-formed token.
pub open spec fn token_bytes(s: Seq<u8>) -> Seq<u8> {
    Seq::new(
        16,
        |j: int|
            (hex_value(s[position_of_nibble(2 * j)]) * 16 + hex_value(
                s[position_of_nibble(2 * j + 1)],
            )) as u8,
    )
}

/// The input was not a well-formed group identifier token.
#[derive(Clone, Copy, PartialEq, Eq, Structural, Debug)]
pub struct InvalidIdentifier;

/// An opaque share-group identifier holding 16 raw bytes.
pub struct GroupId {
    bytes: Vec<u8>,
}

impl View for GroupId {
    type V = Seq<u8>;

    closed spec fn view(&self) -> Seq<u8> {
        self.bytes@
    }
}

impl GroupId {
    /// A well-formed identifier holds exactly 16 bytes.
    pub open spec fn wf(&self) -> bool {
        self@.len() == 16
    }

    /// Relies on uuid::Uuid::new_v4 to draw 16 bytes of cryptographic
    /// randomness (with the version and variant bits fixed); nothing is
    /// assumed of the value beyond its length.
    #[verifier::external_body]
    fn fresh_bytes() -> (r: Vec<u8>)
        ensures
            r@.len() == 16,
    {
        uuid::Uuid::new_v4().as_bytes().to_vec()
    }

    /// Build an identifier from 16 given bytes.
    pub fn from_bytes(bytes: Vec<u8>) -> (g: GroupId)
        requires
            bytes@.len() == 16,
        ensures
            g.wf(),
            g@ == bytes@,
    {
        GroupId { bytes }
    }

    /// Canonical 36-byte textual rendering of this identifier.
    pub fn render(&self) -> (r: Vec<u8>)
        requires
            self.wf(),
        ensures
            r@ == canonical_render(self@),
    {
        let mut out: Vec<u8> = Vec::new();
        let mut i: usize = 0;
        while i < 36
            invariant
                self.wf(),
                i <= 36,
                out@ == canonical_render(self@).subrange(0, i as int),
            decreases 36 - i,
        {
            if i == 8 || i == 13 || i == 18 || i == 23 {
                out.push(45);
            } else {
                let k: usize = if i < 8 {
                    i
                } else if i < 13 {
                    i - 1
                } else if i < 18 {
                    i - 2
                } else if i < 23 {
                    i - 3
                } else {
                    i - 4
                };
                assert(k as int == nibble_index(i as int));
                let b: u8 = self.bytes[k / 2];
                let nib: u8 = if k % 2 == 0 {
                    b / 16
                } else {
                    b % 16
                };
                let c: u8 = if nib < 10 {
                    48 + nib
                } else {
                    97 + (nib - 10)
                };
                out.push(c);
            }
            assert(out@ =~= canonical_render(self@).subrange(0, i + 1));
            i = i + 1;
        }
        assert(out@ =~= canonical_render(self@));
        out
    }

    /// Parse a token: succeeds exactly on well-formed tokens and returns
    /// the identifier whose bytes the token denotes.
    pub fn parse(s: &[u8]) -> (r: Result<GroupId, InvalidIdentifier>)
        ensures
            r is Ok <==> is_canonical_token(s@),
            r matches Ok(g) ==> g.wf() && g@ == token_bytes(s@),
    {
        if s.len() != 36 {
            return Err(InvalidIdentifier);
        }
        let mut i: usize = 0;
        while i < 36
            invariant
                s@.len() == 36,
                i <= 36,
                forall|j: int|
                    0 <= j < i && !is_hyphen_position(j) ==> is_hex_digit(#[trigger] s@[j]),
                i > 8 ==> s@[8] == 45,
                i > 13 ==> s@[13] == 45,
                i > 18 ==> s@[18] == 45,
                i > 23 ==> s@[23] == 45,
            decreases 36 - i,
        {
            let c: u8 = s[i];
            if i == 8 || i == 13 || i == 18 || i == 23 {
                if c != 45 {
                    return Err(InvalidIdentifier);
                }
            } else {
                let hex = (48 <= c && c <= 57) || (97 <= c && c <= 102) || (65 <= c
                    && c <= 70);
                if !hex {
                    return Err(InvalidIdentifier);
                }
            }
            i = i + 1;
        }
        let mut bytes: Vec<u8> = Vec::new();
        let mut j: usize = 0;
        while j < 16
            invariant
                is_canonical_token(s@),
                s@.len() == 36,
                j <= 16,
                bytes@ == token_bytes(s@).subrange(0, j as int),
            decreases 16 - j,
        {
            let p_hi: usize = Self::nibble_position(2 * j);
            let p_lo: usize = Self::nibble_position(2 * j + 1);
            let hi: u8 = Self::hex_value_exec(s[p_hi]);
            let lo: u8 = Self::hex_value_exec(s[p_lo]);
            bytes.push(hi * 16 + lo);
            assert(bytes@ =~= token_bytes(s@).subrange(0, j + 1));
            j = j + 1;
        }
        assert(bytes@ =~= token_bytes(s@));
        Ok(GroupId { bytes })
    }

    /// Rendering position of nibble `k`.
    fn nibble_position(k: usize) -> (p: usize)
        requires
            k < 32,
        ensures
            p == position_of_nibble(k as int),
            p < 36,
            !is_hyphen_position(p as int),
    {
        if k < 8 {
            k
        } else if k < 12 {
            k + 1
        } else if k < 16 {
            k + 2
        } else if k < 20 {
            k + 3
        } else {
            k + 4
        }
    }

    /// Numeric value of a hexadecimal digit.
    fn hex_value_exec(c: u8) -> (n: u8)
        requires
            is_hex_digit(c),
        ensures
            n == hex_value(c),
            n < 16,
    {
        if 48 <= c && c <= 57 {
            c - 48
        } else if 97 <= c && c <= 102 {
            (c - 97) + 10
        } else {
            (c - 65) + 10
        }
    }
}

/// Produce a fresh identifier for a new share group. Uniqueness against
/// previously issued identifiers is probabilistic (128 random bits); no
/// registry is consulted, so nothing beyond well-formedness is promised.
pub fn new_group_id() -> (g: GroupId)
    ensures
        g.wf(),
{
    GroupId { bytes: GroupId::fresh_bytes() }
}

/// Rendering then parsing an identifier gives back the same bytes: the
/// canonical rendering of any 16-byte identifier is itself a well-formed
/// token, and the token denotes exactly the bytes rendered.
pub proof fn lemma_render_parse_roundtrip(bytes: Seq<u8>)
    requires
        bytes.len() == 16,
    ensures
        is_canonical_token(canonical_render(bytes)),
        token_bytes(canonical_render(bytes)) =~= bytes,
{
    let s = canonical_render(bytes);
    assert forall|i: int| 0 <= i < 36 && !is_hyphen_position(i) implies is_hex_digit(
        #[trigger] s[i],
    ) by {
        assert(nibble_of(bytes, nibble_index(i)) < 16);
    }
    assert forall|j: int| 0 <= j < 16 implies token_bytes(s)[j] == bytes[j] by {
        let k_hi = 2 * j;
        let k_lo = 2 * j + 1;
        let p_hi = position_of_nibble(k_hi);
        let p_lo = position_of_nibble(k_lo);
        assert(nibble_index(p_hi) == k_hi);
        assert(nibble_index(p_lo) == k_lo);
        let b = bytes[j];
        let hi = nibble_of(bytes, k_hi);
        let lo = nibble_of(bytes, k_lo);
        assert(hi < 16 && lo < 16);
        assert(hex_value(hex_char(hi)) == hi);
        assert(hex_value(hex_char(lo)) == lo);
        vstd::arithmetic::div_mod::lemma_fundamental_div_mod(b as int, 16);
    }
}

} // verus!
