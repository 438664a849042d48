//! Expiration sweeper: on each external trigger, list every object in
//! the store (no prefix filter), and delete each one whose age exceeds
//! the retention window. Deletions are independent per object: one
//! failed delete is recorded and does not stop the run.

use vstd::prelude::*;

use crate::resolve::lemma_listing_all;
use crate::store::{
    Store,
    StoreError,
    ObjModel,
    contains_key,
    keys_unique,
    remove_key,
    failing_contains,
    summary_of,
    ObjectSummary,
};

verus! {

/// Default retention window: 24 hours, in milliseconds.
pub const DEFAULT_RETENTION_MILLIS: u64 = 86400000;

/// An object is expired when its age `now - uploaded_at` strictly
/// exceeds the retention window; an age exactly equal to the window is
/// not yet expired, and an object stamped at or after `now` has age zero.
pub open spec fn is_expired(uploaded_at: u64, now: u64, retention: u64) -> bool {
    uploaded_at < now && now - uploaded_at > retention
}

/// An object survives a sweep when it is not expired, or its delete
/// fails.
pub open spec fn keep_obj(o: ObjModel, now: u64, retention: u64, failing: Seq<Seq<u8>>) -> bool {
    !is_expired(o.uploaded_at, now, retention) || failing_contains(failing, o.key)
}

/// Store contents after a sweep: the surviving objects, in store order.
pub open spec fn swept(objs: Seq<ObjModel>, now: u64, retention: u64, failing: Seq<Seq<u8>>) -> Seq<
    ObjModel,
>
    decreases objs.len(),
{
    if objs.len() == 0 {
        Seq::empty()
    } else {
        let rest = swept(objs.drop_last(), now, retention, failing);
        if keep_obj(objs.last(), now, retention, failing) {
            rest.push(objs.last())
        } else {
            rest
        }
    }
}

/// How many objects a sweep deletes.
pub open spec fn swept_deleted(
    objs: Seq<ObjModel>,
    now: u64,
    retention: u64,
    failing: Seq<Seq<u8>>,
) -> int
    decreases objs.len(),
{
    if objs.len() == 0 {
        0
    } else {
        swept_deleted(objs.drop_last(), now, retention, failing) + (if keep_obj(
            objs.last(),
            now,
            retention,
            failing,
        ) {
            0int
        } else {
            1int
        })
    }
}

/// The keys of the expired objects whose delete fails, in store order.
pub open spec fn swept_failed(
    objs: Seq<ObjModel>,
    now: u64,
    retention: u64,
    failing: Seq<Seq<u8>>,
) -> Seq<Seq<u8>>
    decreases objs.len(),
{
    if objs.len() == 0 {
        Seq::empty()
    } else {
        let rest = swept_failed(objs.drop_last(), now, retention, failing);
        if is_expired(objs.last().uploaded_at, now, retention) && failing_contains(
            failing,
            objs.last().key,
        ) {
            rest.push(objs.last().key)
        } else {
            rest
        }
    }
}

/// Report of one sweep run: objects scanned, objects deleted, and the
/// keys whose delete failed, with their causes.
pub struct SweepReport {
    pub scanned: usize,
    pub deleted: usize,
    pub failures: Vec<StoreError>,
}

/// Whether an object's age exceeds the retention window.
pub fn is_expired_at(uploaded_at: u64, now: u64, retention: u64) -> (r: bool)
    ensures
        r == is_expired(uploaded_at, now, retention),
{
    uploaded_at < now && now - uploaded_at > retention
}

/// Removing a key that occurs only in the second part of a concatenation
/// removes it there.
proof fn lemma_remove_key_append(a: Seq<ObjModel>, b: Seq<ObjModel>, key: Seq<u8>)
    requires
        !contains_key(a, key),
    ensures
        remove_key(a + b, key) == a + remove_key(b, key),
    decreases a.len(),
{
    if a.len() == 0 {
        assert(a + b =~= b);
        assert(a + remove_key(b, key) =~= remove_key(b, key));
    } else {
        assert(a[0].key != key);
        assert((a + b)[0] == a[0]);
        assert((a + b).drop_first() =~= a.drop_first() + b);
        assert(!contains_key(a.drop_first(), key)) by {
            assert forall|i: int| 0 <= i < a.drop_first().len() implies a.drop_first()[i].key
                != key by {
                assert(a.drop_first()[i] == a[i + 1]);
            }
        }
        lemma_remove_key_append(a.drop_first(), b, key);
        assert(remove_key(a + b, key) =~= a + remove_key(b, key));
    }
}

/// Every survivor of a sweep is a stored object that the sweep keeps,
/// and every kept object survives.
pub proof fn lemma_swept_elements(
    objs: Seq<ObjModel>,
    now: u64,
    retention: u64,
    failing: Seq<Seq<u8>>,
)
    ensures
        forall|j: int|
            0 <= j < swept(objs, now, retention, failing).len() ==> objs.contains(
                #[trigger] swept(objs, now, retention, failing)[j],
            ) && keep_obj(swept(objs, now, retention, failing)[j], now, retention, failing),
        forall|i: int|
            0 <= i < objs.len() && keep_obj(#[trigger] objs[i], now, retention, failing) ==> swept(
                objs,
                now,
                retention,
                failing,
            ).contains(objs[i]),
    decreases objs.len(),
{
    if objs.len() > 0 {
        let rest_objs = objs.drop_last();
        lemma_swept_elements(rest_objs, now, retention, failing);
        let s = swept(objs, now, retention, failing);
        let rest = swept(rest_objs, now, retention, failing);
        assert forall|j: int| 0 <= j < s.len() implies objs.contains(#[trigger] s[j]) && keep_obj(
            s[j],
            now,
            retention,
            failing,
        ) by {
            if j < rest.len() {
                assert(s[j] == rest[j]);
                assert(rest_objs.contains(rest[j]));
                let i = choose|i: int| 0 <= i < rest_objs.len() && rest_objs[i] == rest[j];
                assert(objs[i] == rest_objs[i]);
                assert(objs.contains(s[j]));
            } else {
                assert(s[j] == objs.last());
                assert(objs[objs.len() - 1] == objs.last());
                assert(objs.contains(s[j]));
            }
        }
        assert forall|i: int|
            0 <= i < objs.len() && keep_obj(#[trigger] objs[i], now, retention, failing) implies s
            .contains(objs[i]) by {
            if i < objs.len() - 1 {
                assert(rest_objs[i] == objs[i]);
                assert(rest.contains(objs[i]));
                let j = choose|j: int| 0 <= j < rest.len() && rest[j] == objs[i];
                assert(s[j] == rest[j]);
                assert(s.contains(objs[i]));
            } else {
                assert(objs[i] == objs.last());
                assert(s[s.len() - 1] == objs.last());
                assert(s.contains(objs[i]));
            }
        }
    }
}

/// Retention law of the sweep: an object whose age is within the
/// retention window survives a sweep unchanged; an expired object whose
/// delete does not fail is gone afterwards.
pub proof fn lemma_sweep_retention(
    objs: Seq<ObjModel>,
    now: u64,
    retention: u64,
    failing: Seq<Seq<u8>>,
)
    requires
        keys_unique(objs),
    ensures
        forall|i: int|
            0 <= i < objs.len() && !is_expired(objs[i].uploaded_at, now, retention) ==> swept(
                objs,
                now,
                retention,
                failing,
            ).contains(#[trigger] objs[i]),
        forall|i: int|
            0 <= i < objs.len() && is_expired(objs[i].uploaded_at, now, retention)
                && !failing_contains(failing, objs[i].key) ==> !contains_key(
                swept(objs, now, retention, failing),
                #[trigger] objs[i].key,
            ),
{
    lemma_swept_elements(objs, now, retention, failing);
    let s = swept(objs, now, retention, failing);
    assert forall|i: int|
        0 <= i < objs.len() && is_expired(objs[i].uploaded_at, now, retention)
            && !failing_contains(failing, objs[i].key) implies !contains_key(
        s,
        #[trigger] objs[i].key,
    ) by {
        if contains_key(s, objs[i].key) {
            let j = choose|j: int| 0 <= j < s.len() && s[j].key == objs[i].key;
            assert(objs.contains(s[j]) && keep_obj(s[j], now, retention, failing));
            let i2 = choose|i2: int| 0 <= i2 < objs.len() && objs[i2] == s[j];
            assert(objs[i2].key == objs[i].key);
            assert(i2 == i);
            assert(!keep_obj(objs[i], now, retention, failing));
        }
    }
}

/// Sweep the whole store: list every object, and delete each expired
/// one. A failed delete is recorded in the report and does not stop the
/// run; surviving objects are untouched. The report counts every object
/// scanned and every object deleted.
#[verifier::loop_isolation(false)]
pub fn sweep(store: &mut Store, now: u64, retention: u64) -> (r: SweepReport)
    requires
        old(store).wf(),
    ensures
        final(store).wf(),
        final(store)@.failing == old(store)@.failing,
        final(store)@.objects == swept(old(store)@.objects, now, retention, old(store)@.failing),
        r.scanned == old(store)@.objects.len(),
        r.deleted == swept_deleted(old(store)@.objects, now, retention, old(store)@.failing),
        r.failures@.map_values(|e: StoreError| e@) == swept_failed(
            old(store)@.objects,
            now,
            retention,
            old(store)@.failing,
        ),
{
    let ghost objs = old(store)@.objects;
    let ghost failing = old(store)@.failing;
    let summaries = store.list(None);
    proof {
        lemma_listing_all(objs);
        assert(summaries@.map_values(|s: ObjectSummary| s@) == objs.map_values(
            |o: ObjModel| summary_of(o),
        ));
        assert(summaries@.len() == objs.len());
    }
    let n = summaries.len();
    let mut deleted: usize = 0;
    let mut failures: Vec<StoreError> = Vec::new();
    let mut i: usize = 0;
    proof {
        assert(objs.subrange(0, 0) =~= Seq::<ObjModel>::empty());
        assert(objs.subrange(0, n as int) =~= objs);
        assert(store@.objects =~= swept(objs.subrange(0, 0), now, retention, failing) + objs.subrange(
            0,
            n as int,
        ));
    }
    while i < n
        invariant
            store.wf(),
            i <= n,
            deleted <= i,
            store@.failing == failing,
            store@.objects == swept(objs.subrange(0, i as int), now, retention, failing)
                + objs.subrange(i as int, n as int),
            deleted == swept_deleted(objs.subrange(0, i as int), now, retention, failing),
            failures@.map_values(|e: StoreError| e@) == swept_failed(
                objs.subrange(0, i as int),
                now,
                retention,
                failing,
            ),
        decreases n - i,
    {
        let s = &summaries[i];
        let ghost cur = objs[i as int];
        let ghost pre = objs.subrange(0, i as int);
        proof {
            assert(summaries@.map_values(|s: ObjectSummary| s@)[i as int] == summary_of(
                objs[i as int],
            ));
            assert(objs.map_values(|o: ObjModel| summary_of(o))[i as int] == summary_of(
                objs[i as int],
            ));
            assert(s.key@ == cur.key);
            assert(s.uploaded_at == cur.uploaded_at);
        }
        let ghost kept = swept(pre, now, retention, failing);
        proof {
            assert(objs.subrange(0, i + 1).drop_last() =~= pre);
            assert(objs.subrange(0, i + 1).last() == cur);
            assert(objs.subrange(i as int, n as int)[0] == cur);
            assert(objs.subrange(i as int, n as int).drop_first() =~= objs.subrange(
                i + 1,
                n as int,
            ));
        }
        if is_expired_at(s.uploaded_at, now, retention) {
            match store.delete(s.key.as_slice()) {
                Ok(()) => {
                    proof {
                        assert(!failing_contains(failing, cur.key));
                        assert(!keep_obj(cur, now, retention, failing));
                        assert(!contains_key(kept, cur.key)) by {
                            if contains_key(kept, cur.key) {
                                let j = choose|j: int|
                                    0 <= j < kept.len() && kept[j].key == cur.key;
                                lemma_swept_elements(pre, now, retention, failing);
                                assert(pre.contains(kept[j]));
                                let i2 = choose|i2: int|
                                    0 <= i2 < pre.len() && pre[i2] == kept[j];
                                assert(pre[i2] == objs[i2]);
                                assert(objs[i2].key == objs[i as int].key);
                            }
                        }
                        lemma_remove_key_append(
                            kept,
                            objs.subrange(i as int, n as int),
                            cur.key,
                        );
                        assert(remove_key(objs.subrange(i as int, n as int), cur.key)
                            =~= objs.subrange(i + 1, n as int));
                        assert(swept_deleted(objs.subrange(0, i + 1), now, retention, failing)
                            == swept_deleted(pre, now, retention, failing) + 1);
                        assert(swept(objs.subrange(0, i + 1), now, retention, failing) =~= kept);
                        assert(store@.objects =~= swept(objs.subrange(0, i + 1), now, retention, failing)
                            + objs.subrange(i + 1, n as int));
                    }
                    deleted = deleted + 1;
                },
                Err(e) => {
                    proof {
                        assert(failing_contains(failing, cur.key));
                        assert(keep_obj(cur, now, retention, failing));
                        assert(swept(objs.subrange(0, i + 1), now, retention, failing) =~= kept.push(
                            cur,
                        ));
                        assert(store@.objects =~= swept(objs.subrange(0, i + 1), now, retention, failing)
                            + objs.subrange(i + 1, n as int));
                    }
                    failures.push(e);
                    proof {
                        assert(failures@.map_values(|e2: StoreError| e2@) =~= swept_failed(
                            objs.subrange(0, i + 1),
                            now,
                            retention,
                            failing,
                        ));
                    }
                },
            }
        } else {
            proof {
                assert(keep_obj(cur, now, retention, failing));
                assert(swept(objs.subrange(0, i + 1), now, retention, failing) =~= kept.push(cur));
                assert(store@.objects =~= swept(objs.subrange(0, i + 1), now, retention, failing)
                    + objs.subrange(i + 1, n as int));
            }
        }
        proof {
            if keep_obj(cur, now, retention, failing) {
                assert(swept_deleted(objs.subrange(0, i + 1), now, retention, failing)
                    == swept_deleted(pre, now, retention, failing));
            }
            if !(is_expired(cur.uploaded_at, now, retention) && failing_contains(
                failing,
                cur.key,
            )) {
                assert(swept_failed(objs.subrange(0, i + 1), now, retention, failing)
                    =~= swept_failed(pre, now, retention, failing));
            }
        }
        i = i + 1;
    }
    proof {
        assert(objs.subrange(0, n as int) =~= objs);
        assert(objs.subrange(n as int, n as int) =~= Seq::<ObjModel>::empty());
        assert(store@.objects =~= swept(objs, now, retention, failing));
    }
    SweepReport { scanned: n, deleted, failures }
}

} // verus!
