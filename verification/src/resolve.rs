//! Resolution and download: list the members of a share group by its
//! identifier, and fetch one object by its transport-supplied key
//! segments with exact transfer metadata and an entity tag.

use vstd::prelude::*;

use crate::etag::{compute_etag, etag_bytes};
use crate::group_id::{GroupId, canonical_render};
use crate::keys::{group_prefix, has_prefix, joined_key};
use crate::percent::{is_valid_utf8, percent_decode, percent_decoded};
use crate::store::{
    Store,
    Metadata,
    ObjectSummary,
    SummaryModel,
    ObjModel,
    contains_key,
    stored_at,
    keys_unique,
    listing,
    summary_of,
    selected,
};
use vstd::utf8::valid_utf8;

verus! {

/// Why a fetch failed.
#[derive(Clone, Copy, PartialEq, Eq, Structural, Debug)]
pub enum FetchError {
    /// A percent-decoded key segment was not valid UTF-8: a client error,
    /// not a store error.
    MalformedKey,
    /// No object is stored under the requested key.
    NotFound,
}

/// A fetched object: its full payload, the transfer metadata stored with
/// it (absent fields stay absent), its upload timestamp, and an entity
/// tag derived from the payload for cache validation.
pub struct FetchedObject {
    pub data: Vec<u8>,
    pub meta: Metadata,
    pub etag: Vec<u8>,
    pub uploaded_at: u64,
}

/// Both percent-decoded key segments are valid UTF-8.
pub open spec fn segments_valid(id_segment: Seq<u8>, name_segment: Seq<u8>) -> bool {
    valid_utf8(percent_decoded(id_segment)) && valid_utf8(percent_decoded(name_segment))
}

/// The store key that a pair of transport segments addresses: each
/// segment percent-decoded, then recombined around a slash.
pub open spec fn requested_key(id_segment: Seq<u8>, name_segment: Seq<u8>) -> Seq<u8> {
    joined_key(group_prefix(percent_decoded(id_segment)), percent_decoded(name_segment))
}

/// List the members of a share group: every stored object whose key has
/// the group's prefix, in store order. A group with no members yields an
/// empty sequence, not an error; this is indistinguishable from a group
/// that never existed or has fully expired.
pub fn list_group(store: &Store, id: &GroupId) -> (r: Vec<ObjectSummary>)
    requires
        id.wf(),
    ensures
        r@.map_values(|s: ObjectSummary| s@) == listing(
            store@.objects,
            Some(group_prefix(canonical_render(id@))),
        ),
{
    let rendered = id.render();
    let prefix = crate::keys::make_group_prefix(rendered.as_slice());
    store.list(Some(prefix.as_slice()))
}

/// Fetch one object addressed by its two transport segments. The
/// segments are percent-decoded here (the transport already decoded the
/// path once; this second decode is preserved for compatibility with
/// previously issued links). A decode failure is `MalformedKey`; a miss
/// on the recombined key is `NotFound`; on a hit the payload, the stored
/// metadata and the upload timestamp are returned exactly, with the
/// payload's entity tag.
pub fn fetch_object(store: &Store, id_segment: &[u8], name_segment: &[u8]) -> (r: Result<
    FetchedObject,
    FetchError,
>)
    requires
        store.wf(),
    ensures
        match r {
            Ok(o) => segments_valid(id_segment@, name_segment@) && contains_key(
                store@.objects,
                requested_key(id_segment@, name_segment@),
            ) && o.data@ == stored_at(
                store@.objects,
                requested_key(id_segment@, name_segment@),
            ).data && o.meta@ == stored_at(
                store@.objects,
                requested_key(id_segment@, name_segment@),
            ).meta && o.uploaded_at == stored_at(
                store@.objects,
                requested_key(id_segment@, name_segment@),
            ).uploaded_at && o.etag@ == etag_bytes(o.data@),
            Err(FetchError::MalformedKey) => !segments_valid(id_segment@, name_segment@),
            Err(FetchError::NotFound) => segments_valid(id_segment@, name_segment@)
                && !contains_key(store@.objects, requested_key(id_segment@, name_segment@)),
        },
{
    let dec_id = percent_decode(id_segment);
    let dec_name = percent_decode(name_segment);
    if !is_valid_utf8(dec_id.as_slice()) {
        return Err(FetchError::MalformedKey);
    }
    if !is_valid_utf8(dec_name.as_slice()) {
        return Err(FetchError::MalformedKey);
    }
    let prefix = crate::keys::make_group_prefix(dec_id.as_slice());
    let key = crate::keys::make_key(prefix.as_slice(), dec_name.as_slice());
    match store.get(key.as_slice()) {
        None => Err(FetchError::NotFound),
        Some(o) => Ok(
            FetchedObject {
                data: crate::keys::copy_bytes(o.data.as_slice()),
                meta: o.meta.dup(),
                etag: compute_etag(o.data.as_slice()),
                uploaded_at: o.uploaded_at,
            },
        ),
    }
}

/// The path of a share page link: "/share/" then the rendered identifier.
pub open spec fn share_path(rendered: Seq<u8>) -> Seq<u8> {
    seq![47u8, 115, 104, 97, 114, 101, 47] + rendered
}

/// The path of a download link: "/obj/" then the object's key.
pub open spec fn object_path(key: Seq<u8>) -> Seq<u8> {
    seq![47u8, 111, 98, 106, 47] + key
}

/// Build the share page path for a group identifier.
pub fn share_link(id: &GroupId) -> (r: Vec<u8>)
    requires
        id.wf(),
    ensures
        r@ == share_path(canonical_render(id@)),
{
    let mut out: Vec<u8> = Vec::new();
    out.push(47);
    out.push(115);
    out.push(104);
    out.push(97);
    out.push(114);
    out.push(101);
    out.push(47);
    let rendered = id.render();
    crate::keys::push_bytes(&mut out, rendered.as_slice());
    assert(out@ =~= share_path(canonical_render(id@)));
    out
}

/// Build the download path for each listed object, in listing order.
#[verifier::loop_isolation(false)]
pub fn object_links(entries: &Vec<ObjectSummary>) -> (r: Vec<Vec<u8>>)
    ensures
        r@.len() == entries@.len(),
        forall|i: int| 0 <= i < r@.len() ==> #[trigger] r@[i]@ == object_path(entries@[i]@.key),
{
    let mut out: Vec<Vec<u8>> = Vec::new();
    let mut i: usize = 0;
    while i < entries.len()
        invariant
            i <= entries@.len(),
            out@.len() == i,
            forall|j: int| 0 <= j < i ==> #[trigger] out@[j]@ == object_path(entries@[j]@.key),
        decreases entries@.len() - i,
    {
        let e = &entries[i];
        let mut link: Vec<u8> = Vec::new();
        link.push(47);
        link.push(111);
        link.push(98);
        link.push(106);
        link.push(47);
        crate::keys::push_bytes(&mut link, e.key.as_slice());
        assert(link@ =~= object_path(entries@[i as int]@.key));
        out.push(link);
        i = i + 1;
    }
    out
}

/// A listing under `None` lists every object, in order.
pub proof fn lemma_listing_all(objs: Seq<ObjModel>)
    ensures
        listing(objs, None) == objs.map_values(|o: ObjModel| summary_of(o)),
    decreases objs.len(),
{
    if objs.len() > 0 {
        lemma_listing_all(objs.drop_last());
        assert(listing(objs, None) =~= objs.map_values(|o: ObjModel| summary_of(o)));
    } else {
        assert(listing(objs, None) =~= objs.map_values(|o: ObjModel| summary_of(o)));
    }
}

/// A key occurs in a listing.
pub open spec fn listing_has_key(l: Seq<SummaryModel>, key: Seq<u8>) -> bool {
    exists|i: int| 0 <= i < l.len() && l[i].key == key
}

/// A prefix listing holds a key exactly when an object with that key is
/// stored and the key has the prefix.
pub proof fn lemma_listing_membership(objs: Seq<ObjModel>, prefix: Seq<u8>, key: Seq<u8>)
    ensures
        listing_has_key(listing(objs, Some(prefix)), key) <==> (contains_key(objs, key)
            && has_prefix(key, prefix)),
    decreases objs.len(),
{
    if objs.len() == 0 {
    } else {
        let last = objs.last();
        let rest_objs = objs.drop_last();
        lemma_listing_membership(rest_objs, prefix, key);
        let l = listing(objs, Some(prefix));
        let rest = listing(rest_objs, Some(prefix));
        assert(contains_key(objs, key) <==> (contains_key(rest_objs, key) || last.key == key)) by {
            if contains_key(objs, key) {
                let i = choose|i: int| 0 <= i < objs.len() && objs[i].key == key;
                if i < objs.len() - 1 {
                    assert(rest_objs[i] == objs[i]);
                    assert(contains_key(rest_objs, key));
                } else {
                    assert(last.key == key);
                }
            }
            if contains_key(rest_objs, key) {
                let i = choose|i: int| 0 <= i < rest_objs.len() && rest_objs[i].key == key;
                assert(objs[i] == rest_objs[i]);
                assert(contains_key(objs, key));
            }
            if last.key == key {
                assert(objs[objs.len() - 1].key == key);
                assert(contains_key(objs, key));
            }
        }
        if selected(last, Some(prefix)) {
            assert(l == rest.push(summary_of(last)));
            assert(listing_has_key(l, key) <==> (listing_has_key(rest, key) || last.key == key))
                by {
                if listing_has_key(l, key) {
                    let i = choose|i: int| 0 <= i < l.len() && l[i].key == key;
                    if i < rest.len() {
                        assert(rest[i] == l[i]);
                        assert(listing_has_key(rest, key));
                    } else {
                        assert(l[i] == summary_of(last));
                    }
                }
                if listing_has_key(rest, key) {
                    let i = choose|i: int| 0 <= i < rest.len() && rest[i].key == key;
                    assert(l[i] == rest[i]);
                    assert(listing_has_key(l, key));
                }
                if last.key == key {
                    assert(l[l.len() - 1] == summary_of(last));
                    assert(listing_has_key(l, key));
                }
            }
        } else {
            assert(l == rest);
        }
    }
}

/// When no stored key has the group's prefix, the group's listing is
/// empty: an absent or fully expired group lists as empty, not as an
/// error.
pub proof fn lemma_listing_empty(objs: Seq<ObjModel>, prefix: Seq<u8>)
    requires
        forall|i: int| 0 <= i < objs.len() ==> !has_prefix(#[trigger] objs[i].key, prefix),
    ensures
        listing(objs, Some(prefix)) == Seq::<SummaryModel>::empty(),
    decreases objs.len(),
{
    if objs.len() > 0 {
        assert(!has_prefix(objs.last().key, prefix));
        assert forall|i: int| 0 <= i < objs.drop_last().len() implies !has_prefix(
            #[trigger] objs.drop_last()[i].key,
            prefix,
        ) by {
            assert(objs.drop_last()[i] == objs[i]);
        }
        lemma_listing_empty(objs.drop_last(), prefix);
    }
}

} // verus!
