//! Object-key construction and inspection: a stored object's key is the
//! canonical rendering of its group identifier, a slash, and the verbatim
//! file name.

use vstd::prelude::*;

verus! {

/// ASCII slash, the separator between group prefix and file name.
pub const KEY_SEPARATOR: u8 = 47;

/// `key` begins with `prefix`.
pub open spec fn has_prefix(key: Seq<u8>, prefix: Seq<u8>) -> bool {
    key.len() >= prefix.len() && key.subrange(0, prefix.len() as int) == prefix
}

/// The key under which a file of a group is stored: prefix then name.
pub open spec fn joined_key(prefix: Seq<u8>, name: Seq<u8>) -> Seq<u8> {
    prefix + name
}

/// The listing prefix of a group: its canonical rendering plus a slash.
pub open spec fn group_prefix(rendered: Seq<u8>) -> Seq<u8> {
    rendered.push(KEY_SEPARATOR)
}

/// The file-name suffix of a key under a prefix.
pub open spec fn key_suffix(key: Seq<u8>, prefix: Seq<u8>) -> Seq<u8> {
    key.subrange(prefix.len() as int, key.len() as int)
}

/// Byte-wise equality of two slices.
pub fn bytes_eq(a: &[u8], b: &[u8]) -> (r: bool)
    ensures
        r == (a@ == b@),
{
    if a.len() != b.len() {
        assert(a@ != b@);
        return false;
    }
    let mut i: usize = 0;
    while i < a.len()
        invariant
            a@.len() == b@.len(),
            i <= a@.len(),
            forall|j: int| 0 <= j < i ==> a@[j] == b@[j],
        decreases a@.len() - i,
    {
        if a[i] != b[i] {
            return false;
        }
        i = i + 1;
    }
    assert(a@ =~= b@);
    true
}

/// Byte-wise prefix test.
pub fn starts_with(key: &[u8], prefix: &[u8]) -> (r: bool)
    ensures
        r == has_prefix(key@, prefix@),
{
    if key.len() < prefix.len() {
        return false;
    }
    let mut i: usize = 0;
    while i < prefix.len()
        invariant
            key@.len() >= prefix@.len(),
            i <= prefix@.len(),
            forall|j: int| 0 <= j < i ==> key@[j] == prefix@[j],
        decreases prefix@.len() - i,
    {
        if key[i] != prefix[i] {
            assert(key@.subrange(0, prefix@.len() as int)[i as int] != prefix@[i as int]);
            return false;
        }
        i = i + 1;
    }
    assert(key@.subrange(0, prefix@.len() as int) =~= prefix@);
    true
}

/// Append every byte of `extra` to `out`.
pub fn push_bytes(out: &mut Vec<u8>, extra: &[u8])
    ensures
        final(out)@ == old(out)@ + extra@,
{
    let ghost pre = out@;
    let mut i: usize = 0;
    while i < extra.len()
        invariant
            out@ == pre + extra@.subrange(0, i as int),
            i <= extra@.len(),
        decreases extra@.len() - i,
    {
        out.push(extra[i]);
        assert(out@ =~= pre + extra@.subrange(0, i + 1));
        i = i + 1;
    }
    assert(out@ =~= pre + extra@);
}

/// Fresh copy of a byte slice.
pub fn copy_bytes(src: &[u8]) -> (r: Vec<u8>)
    ensures
        r@ == src@,
{
    let mut out: Vec<u8> = Vec::new();
    push_bytes(&mut out, src);
    assert(out@ =~= src@);
    out
}

/// Build the group listing prefix from a rendered identifier.
pub fn make_group_prefix(rendered: &[u8]) -> (r: Vec<u8>)
    ensures
        r@ == group_prefix(rendered@),
{
    let mut out: Vec<u8> = Vec::new();
    push_bytes(&mut out, rendered);
    out.push(KEY_SEPARATOR);
    assert(out@ =~= group_prefix(rendered@));
    out
}

/// Build the full object key for a file of a group.
pub fn make_key(prefix: &[u8], name: &[u8]) -> (r: Vec<u8>)
    ensures
        r@ == joined_key(prefix@, name@),
{
    let mut out: Vec<u8> = Vec::new();
    push_bytes(&mut out, prefix);
    push_bytes(&mut out, name);
    assert(out@ =~= joined_key(prefix@, name@));
    out
}

/// A joined key begins with the prefix it was joined from, and its suffix
/// under that prefix is exactly the name.
pub proof fn lemma_join_suffix(prefix: Seq<u8>, name: Seq<u8>)
    ensures
        has_prefix(joined_key(prefix, name), prefix),
        key_suffix(joined_key(prefix, name), prefix) =~= name,
{
    assert(joined_key(prefix, name).subrange(0, prefix.len() as int) =~= prefix);
}

} // verus!
