//! Model of the backing object store: a flat namespace of keyed objects
//! with byte payloads, transfer metadata and an upload timestamp. The
//! store is the single source of truth; it supports keyed writes and
//! reads, prefix listing and keyed deletion. Keys marked as failing model
//! adapter-side write/delete failures.

use vstd::prelude::*;

use crate::keys::has_prefix;

verus! {

/// Model of the optional transfer metadata of a stored object. A missing
/// field means "do not set the corresponding transfer header".
pub struct MetaModel {
    pub content_type: Option<Seq<u8>>,
    pub content_language: Option<Seq<u8>>,
    pub content_disposition: Option<Seq<u8>>,
    pub content_encoding: Option<Seq<u8>>,
    pub cache_control: Option<Seq<u8>>,
    pub cache_expiry_millis: Option<u64>,
}

/// Optional transfer metadata supplied at upload time, each field
/// independently optional.
pub struct Metadata {
    pub content_type: Option<Vec<u8>>,
    pub content_language: Option<Vec<u8>>,
    pub content_disposition: Option<Vec<u8>>,
    pub content_encoding: Option<Vec<u8>>,
    pub cache_control: Option<Vec<u8>>,
    pub cache_expiry_millis: Option<u64>,
}

/// View of an optional byte field.
pub open spec fn opt_bytes_view(o: Option<Vec<u8>>) -> Option<Seq<u8>> {
    match o {
        Some(v) => Some(v@),
        None => None,
    }
}

impl View for Metadata {
    type V = MetaModel;

    open spec fn view(&self) -> MetaModel {
        MetaModel {
            content_type: opt_bytes_view(self.content_type),
            content_language: opt_bytes_view(self.content_language),
            content_disposition: opt_bytes_view(self.content_disposition),
            content_encoding: opt_bytes_view(self.content_encoding),
            cache_control: opt_bytes_view(self.cache_control),
            cache_expiry_millis: self.cache_expiry_millis,
        }
    }
}

/// Copy of an optional byte field.
fn dup_opt_bytes(o: &Option<Vec<u8>>) -> (r: Option<Vec<u8>>)
    ensures
        opt_bytes_view(r) == opt_bytes_view(*o),
{
    match o {
        Some(v) => Some(crate::keys::copy_bytes(v.as_slice())),
        None => None,
    }
}

impl Metadata {
    /// Metadata with every field absent.
    pub fn none() -> (m: Metadata)
        ensures
            m@ == (MetaModel {
                content_type: None,
                content_language: None,
                content_disposition: None,
                content_encoding: None,
                cache_control: None,
                cache_expiry_millis: None,
            }),
    {
        Metadata {
            content_type: None,
            content_language: None,
            content_disposition: None,
            content_encoding: None,
            cache_control: None,
            cache_expiry_millis: None,
        }
    }

    /// Copy of this metadata with the same fields.
    pub fn dup(&self) -> (m: Metadata)
        ensures
            m@ == self@,
    {
        Metadata {
            content_type: dup_opt_bytes(&self.content_type),
            content_language: dup_opt_bytes(&self.content_language),
            content_disposition: dup_opt_bytes(&self.content_disposition),
            content_encoding: dup_opt_bytes(&self.content_encoding),
            cache_control: dup_opt_bytes(&self.cache_control),
            cache_expiry_millis: self.cache_expiry_millis,
        }
    }
}

/// Model of one stored object.
pub struct ObjModel {
    pub key: Seq<u8>,
    pub data: Seq<u8>,
    pub meta: MetaModel,
    pub uploaded_at: u64,
}

/// One stored object: full key, byte payload, transfer metadata, and the
/// upload timestamp assigned by the store at write time (milliseconds).
pub struct StoredObject {
    pub key: Vec<u8>,
    pub data: Vec<u8>,
    pub meta: Metadata,
    pub uploaded_at: u64,
}

impl View for StoredObject {
    type V = ObjModel;

    open spec fn view(&self) -> ObjModel {
        ObjModel { key: self.key@, data: self.data@, meta: self.meta@, uploaded_at: self.uploaded_at }
    }
}

/// Model of a listing entry.
pub struct SummaryModel {
    pub key: Seq<u8>,
    pub uploaded_at: u64,
}

/// A listing entry: the object's key and its upload timestamp.
pub struct ObjectSummary {
    pub key: Vec<u8>,
    pub uploaded_at: u64,
}

impl View for ObjectSummary {
    type V = SummaryModel;

    open spec fn view(&self) -> SummaryModel {
        SummaryModel { key: self.key@, uploaded_at: self.uploaded_at }
    }
}

/// An adapter call failed; carries the key of the failed operation.
#[derive(Debug)]
pub struct StoreError {
    pub key: Vec<u8>,
}

impl View for StoreError {
    type V = Seq<u8>;

    open spec fn view(&self) -> Seq<u8> {
        self.key@
    }
}

/// Model of the whole store: objects in store order, and the keys whose
/// write/delete operations fail.
pub struct StoreModel {
    pub objects: Seq<ObjModel>,
    pub failing: Seq<Seq<u8>>,
}

/// No two stored objects share a key.
pub open spec fn keys_unique(objs: Seq<ObjModel>) -> bool {
    forall|i: int, j: int| 0 <= i < j < objs.len() ==> objs[i].key != objs[j].key
}

/// Some stored object has this key.
pub open spec fn contains_key(objs: Seq<ObjModel>, key: Seq<u8>) -> bool {
    exists|i: int| 0 <= i < objs.len() && objs[i].key == key
}

/// Index of the object with this key (unique when `keys_unique` holds).
pub open spec fn index_of_key(objs: Seq<ObjModel>, key: Seq<u8>) -> int {
    choose|i: int| 0 <= i < objs.len() && objs[i].key == key
}

/// The object stored under this key.
pub open spec fn stored_at(objs: Seq<ObjModel>, key: Seq<u8>) -> ObjModel {
    objs[index_of_key(objs, key)]
}

/// The store contents after deleting the object with this key, if any.
pub open spec fn remove_key(objs: Seq<ObjModel>, key: Seq<u8>) -> Seq<ObjModel>
    decreases objs.len(),
{
    if objs.len() == 0 {
        Seq::empty()
    } else if objs[0].key == key {
        objs.drop_first()
    } else {
        seq![objs[0]] + remove_key(objs.drop_first(), key)
    }
}

/// The store contents after a successful write: any object under the same
/// key is replaced, last write wins.
pub open spec fn put_result(objs: Seq<ObjModel>, obj: ObjModel) -> Seq<ObjModel> {
    remove_key(objs, obj.key).push(obj)
}

/// Listing entry of an object.
pub open spec fn summary_of(o: ObjModel) -> SummaryModel {
    SummaryModel { key: o.key, uploaded_at: o.uploaded_at }
}

/// Whether an object is selected by an optional listing prefix.
pub open spec fn selected(o: ObjModel, prefix: Option<Seq<u8>>) -> bool {
    match prefix {
        None => true,
        Some(p) => has_prefix(o.key, p),
    }
}

/// The listing of the store under an optional prefix, in store order.
pub open spec fn listing(objs: Seq<ObjModel>, prefix: Option<Seq<u8>>) -> Seq<SummaryModel>
    decreases objs.len(),
{
    if objs.len() == 0 {
        Seq::empty()
    } else {
        let rest = listing(objs.drop_last(), prefix);
        if selected(objs.last(), prefix) {
            rest.push(summary_of(objs.last()))
        } else {
            rest
        }
    }
}

/// A key is among the failing keys.
pub open spec fn failing_contains(failing: Seq<Seq<u8>>, key: Seq<u8>) -> bool {
    exists|i: int| 0 <= i < failing.len() && failing[i] == key
}

/// The in-memory store.
pub struct Store {
    objects: Vec<StoredObject>,
    failing_keys: Vec<Vec<u8>>,
}

impl View for Store {
    type V = StoreModel;

    closed spec fn view(&self) -> StoreModel {
        StoreModel {
            objects: self.objects@.map_values(|o: StoredObject| o@),
            failing: self.failing_keys@.map_values(|k: Vec<u8>| k@),
        }
    }
}

impl Store {
    /// Store invariant: keys are unique.
    pub open spec fn wf(&self) -> bool {
        keys_unique(self@.objects)
    }

    /// An empty store.
    pub fn new() -> (s: Store)
        ensures
            s.wf(),
            s@.objects == Seq::<ObjModel>::empty(),
            s@.failing == Seq::<Seq<u8>>::empty(),
    {
        let s = Store { objects: Vec::new(), failing_keys: Vec::new() };
        proof {
            assert(s@.objects =~= Seq::<ObjModel>::empty());
            assert(s@.failing =~= Seq::<Seq<u8>>::empty());
        }
        s
    }

    /// Model an adapter-side failure: every later write or delete of this
    /// key fails until the store is rebuilt.
    pub fn inject_fault(&mut self, key: Vec<u8>)
        requires
            old(self).wf(),
        ensures
            final(self).wf(),
            final(self)@.objects == old(self)@.objects,
            final(self)@.failing == old(self)@.failing.push(key@),
    {
        let ghost pre = self@;
        self.failing_keys.push(key);
        proof {
            assert(self@.objects =~= pre.objects);
            assert(self@.failing =~= pre.failing.push(self.failing_keys@.last()@));
        }
    }

    /// Whether operations on this key fail.
    pub fn is_failing(&self, key: &[u8]) -> (r: bool)
        ensures
            r == failing_contains(self@.failing, key@),
    {
        let mut i: usize = 0;
        while i < self.failing_keys.len()
            invariant
                i <= self.failing_keys@.len(),
                forall|j: int| 0 <= j < i ==> self@.failing[j] != key@,
                self@.failing.len() == self.failing_keys@.len(),
            decreases self.failing_keys@.len() - i,
        {
            let k = &self.failing_keys[i];
            if crate::keys::bytes_eq(k.as_slice(), key) {
                assert(self@.failing[i as int] == key@);
                return true;
            }
            i = i + 1;
        }
        false
    }

    /// Read the object under an exact key, if present.
    pub fn get(&self, key: &[u8]) -> (r: Option<&StoredObject>)
        requires
            self.wf(),
        ensures
            match r {
                None => !contains_key(self@.objects, key@),
                Some(o) => contains_key(self@.objects, key@) && o@ == stored_at(
                    self@.objects,
                    key@,
                ),
            },
    {
        let mut i: usize = 0;
        while i < self.objects.len()
            invariant
                self.wf(),
                i <= self.objects@.len(),
                forall|j: int| 0 <= j < i ==> self@.objects[j].key != key@,
                self@.objects.len() == self.objects@.len(),
            decreases self.objects@.len() - i,
        {
            let o = &self.objects[i];
            if crate::keys::bytes_eq(o.key.as_slice(), key) {
                proof {
                    let objs = self@.objects;
                    assert(objs[i as int].key == key@);
                    assert(contains_key(objs, key@));
                    let idx = index_of_key(objs, key@);
                    assert(0 <= idx < objs.len() && objs[idx].key == key@);
                    assert(idx == i as int);
                }
                return Some(o);
            }
            i = i + 1;
        }
        None
    }

    /// List the keys and upload timestamps of the objects selected by the
    /// optional prefix, in store order. An empty result is not an error.
    #[verifier::loop_isolation(false)]
    pub fn list(&self, prefix: Option<&[u8]>) -> (r: Vec<ObjectSummary>)
        ensures
            r@.map_values(|s: ObjectSummary| s@) == listing(self@.objects, opt_slice_view(prefix)),
    {
        let ghost p = opt_slice_view(prefix);
        let mut out: Vec<ObjectSummary> = Vec::new();
        let mut i: usize = 0;
        while i < self.objects.len()
            invariant
                i <= self.objects@.len(),
                self@.objects.len() == self.objects@.len(),
                out@.map_values(|s: ObjectSummary| s@) == listing(
                    self@.objects.subrange(0, i as int),
                    p,
                ),
            decreases self.objects@.len() - i,
        {
            let o = &self.objects[i];
            let take = match prefix {
                None => true,
                Some(pref) => crate::keys::starts_with(o.key.as_slice(), pref),
            };
            proof {
                assert(take == selected(self@.objects[i as int], p));
            }
            if take {
                out.push(
                    ObjectSummary {
                        key: crate::keys::copy_bytes(o.key.as_slice()),
                        uploaded_at: o.uploaded_at,
                    },
                );
            }
            proof {
                let objs = self@.objects;
                assert(objs.subrange(0, i + 1).drop_last() =~= objs.subrange(0, i as int));
                assert(objs.subrange(0, i + 1).last() == objs[i as int]);
                assert(out@.map_values(|s: ObjectSummary| s@) =~= listing(
                    objs.subrange(0, i + 1),
                    p,
                ));
            }
            i = i + 1;
        }
        proof {
            assert(self@.objects.subrange(0, self@.objects.len() as int) =~= self@.objects);
        }
        out
    }

    /// Write an object under a key: replaces any object already stored
    /// under the same key (last write wins), appends otherwise. Fails
    /// exactly on failing keys, leaving the store unchanged.
    pub fn put(&mut self, key: Vec<u8>, data: Vec<u8>, meta: Metadata, now: u64) -> (r: Result<
        (),
        StoreError,
    >)
        requires
            old(self).wf(),
        ensures
            final(self).wf(),
            final(self)@.failing == old(self)@.failing,
            failing_contains(old(self)@.failing, key@) ==> r is Err && final(self)@ == old(self)@,
            !failing_contains(old(self)@.failing, key@) ==> r is Ok && final(self)@.objects == put_result(
                old(self)@.objects,
                ObjModel { key: key@, data: data@, meta: meta@, uploaded_at: now },
            ),
            r matches Err(e) ==> e@ == key@,
    {
        if self.is_failing(key.as_slice()) {
            return Err(StoreError { key });
        }
        self.delete_present(key.as_slice());
        let ghost removed = self@.objects;
        self.objects.push(StoredObject { key, data, meta, uploaded_at: now });
        proof {
            let objs = self@.objects;
            assert(objs =~= removed.push(objs.last()));
            lemma_remove_key_unique(old(self)@.objects, objs.last().key);
        }
        Ok(())
    }

    /// Delete the object under a key if present; succeeds also when the
    /// key is absent. Fails exactly on failing keys, leaving the store
    /// unchanged.
    pub fn delete(&mut self, key: &[u8]) -> (r: Result<(), StoreError>)
        requires
            old(self).wf(),
        ensures
            final(self).wf(),
            final(self)@.failing == old(self)@.failing,
            failing_contains(old(self)@.failing, key@) ==> r is Err && final(self)@ == old(self)@,
            !failing_contains(old(self)@.failing, key@) ==> r is Ok && final(self)@.objects == remove_key(
                old(self)@.objects,
                key@,
            ),
            r matches Err(e) ==> e@ == key@,
    {
        if self.is_failing(key) {
            return Err(StoreError { key: crate::keys::copy_bytes(key) });
        }
        self.delete_present(key);
        proof {
            lemma_remove_key_unique(old(self)@.objects, key@);
        }
        Ok(())
    }

    /// Remove the object with this key from the vector, if any.
    #[verifier::loop_isolation(false)]
    fn delete_present(&mut self, key: &[u8])
        requires
            old(self).wf(),
        ensures
            final(self).wf(),
            final(self)@.objects == remove_key(old(self)@.objects, key@),
            final(self)@.failing == old(self)@.failing,
    {
        let ghost pre = self@;
        let mut i: usize = 0;
        while i < self.objects.len()
            invariant
                self@ == pre,
                self.wf(),
                i <= self.objects@.len(),
                forall|j: int| 0 <= j < i ==> self@.objects[j].key != key@,
                self@.objects.len() == self.objects@.len(),
            decreases self.objects@.len() - i,
        {
            let o = &self.objects[i];
            if crate::keys::bytes_eq(o.key.as_slice(), key) {
                self.objects.remove(i);
                proof {
                    lemma_remove_key_at(pre.objects, key@, i as int);
                    assert(self@.objects =~= pre.objects.remove(i as int));
                    lemma_remove_key_unique(pre.objects, key@);
                    assert(self@.failing =~= pre.failing);
                }
                return ;
            }
            i = i + 1;
        }
        proof {
            lemma_remove_key_absent(pre.objects, key@);
            assert(self@.objects =~= remove_key(pre.objects, key@));
        }
    }
}

/// View of an optional byte-slice prefix.
pub open spec fn opt_slice_view(prefix: Option<&[u8]>) -> Option<Seq<u8>> {
    match prefix {
        Some(p) => Some(p@),
        None => None,
    }
}

/// When no object has the key, removal changes nothing.
pub proof fn lemma_remove_key_absent(objs: Seq<ObjModel>, key: Seq<u8>)
    requires
        !contains_key(objs, key),
    ensures
        remove_key(objs, key) == objs,
    decreases objs.len(),
{
    if objs.len() > 0 {
        assert(objs[0].key != key);
        assert(!contains_key(objs.drop_first(), key)) by {
            assert forall|i: int| 0 <= i < objs.drop_first().len() implies objs.drop_first()[i].key
                != key by {
                assert(objs.drop_first()[i] == objs[i + 1]);
            }
        }
        lemma_remove_key_absent(objs.drop_first(), key);
        assert(remove_key(objs, key) =~= objs);
    } else {
        assert(remove_key(objs, key) =~= objs);
    }
}

/// Removing the key found first at index `i` removes exactly that entry.
pub proof fn lemma_remove_key_at(objs: Seq<ObjModel>, key: Seq<u8>, i: int)
    requires
        0 <= i < objs.len(),
        objs[i].key == key,
        forall|j: int| 0 <= j < i ==> objs[j].key != key,
    ensures
        remove_key(objs, key) == objs.remove(i),
    decreases i,
{
    if i == 0 {
        assert(remove_key(objs, key) =~= objs.remove(0));
    } else {
        let rest = objs.drop_first();
        assert(rest[i - 1].key == key);
        assert forall|j: int| 0 <= j < i - 1 implies rest[j].key != key by {
            assert(rest[j] == objs[j + 1]);
        }
        lemma_remove_key_at(rest, key, i - 1);
        assert(remove_key(objs, key) =~= objs.remove(i));
    }
}

/// With unique keys, removal keeps uniqueness, removes the key, and
/// leaves every other key's object in place.
pub proof fn lemma_remove_key_unique(objs: Seq<ObjModel>, key: Seq<u8>)
    requires
        keys_unique(objs),
    ensures
        keys_unique(remove_key(objs, key)),
        !contains_key(remove_key(objs, key), key),
        forall|k: Seq<u8>|
            k != key ==> #[trigger] contains_key(remove_key(objs, key), k) == contains_key(objs, k),
        forall|k: Seq<u8>|
            k != key && contains_key(objs, k) ==> #[trigger] stored_at(remove_key(objs, key), k)
                == stored_at(objs, k),
        contains_key(objs, key) ==> remove_key(objs, key).len() == objs.len() - 1,
        !contains_key(objs, key) ==> remove_key(objs, key) == objs,
{
    if contains_key(objs, key) {
        let i = index_of_key(objs, key);
        assert(0 <= i < objs.len() && objs[i].key == key);
        assert forall|j: int| 0 <= j < i implies objs[j].key != key by {}
        lemma_remove_key_at(objs, key, i);
        let res = objs.remove(i);
        assert forall|a: int, b: int| 0 <= a < b < res.len() implies res[a].key != res[b].key by {
            assert(res[a] == if a < i {
                objs[a]
            } else {
                objs[a + 1]
            });
            assert(res[b] == if b < i {
                objs[b]
            } else {
                objs[b + 1]
            });
        }
        assert forall|j: int| 0 <= j < res.len() implies res[j].key != key by {
            assert(res[j] == if j < i {
                objs[j]
            } else {
                objs[j + 1]
            });
        }
        assert forall|k: Seq<u8>| k != key implies #[trigger] contains_key(res, k) == contains_key(
            objs,
            k,
        ) by {
            if contains_key(res, k) {
                let a = choose|a: int| 0 <= a < res.len() && res[a].key == k;
                assert(res[a] == if a < i {
                    objs[a]
                } else {
                    objs[a + 1]
                });
                assert(contains_key(objs, k));
            }
            if contains_key(objs, k) {
                let a = choose|a: int| 0 <= a < objs.len() && objs[a].key == k;
                assert(a != i);
                if a < i {
                    assert(res[a] == objs[a]);
                } else {
                    assert(res[a - 1] == objs[a]);
                }
                assert(contains_key(res, k));
            }
        }
        assert forall|k: Seq<u8>|
            k != key && contains_key(objs, k) implies #[trigger] stored_at(res, k) == stored_at(
            objs,
            k,
        ) by {
            let a = index_of_key(objs, k);
            assert(0 <= a < objs.len() && objs[a].key == k);
            assert(a != i);
            let b = index_of_key(res, k);
            assert(contains_key(res, k));
            assert(0 <= b < res.len() && res[b].key == k);
            assert(res[b] == if b < i {
                objs[b]
            } else {
                objs[b + 1]
            });
        }
    } else {
        lemma_remove_key_absent(objs, key);
    }
}

} // verus!
