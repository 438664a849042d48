//! Upload coordination: a non-empty batch of named files is written under
//! one fresh group identifier, one independent keyed write per file, with
//! no atomicity across the batch. The coordinator aborts on the first
//! failed write and never rolls back earlier writes.

use vstd::prelude::*;

use crate::group_id::{GroupId, canonical_render, new_group_id};
use crate::keys::{group_prefix, has_prefix, joined_key};
use crate::store::{
    Store,
    StoreError,
    Metadata,
    MetaModel,
    ObjModel,
    put_result,
    failing_contains,
    contains_key,
    stored_at,
    index_of_key,
    remove_key,
    keys_unique,
    listing,
};

verus! {

/// Model of one file of an upload batch.
pub struct FileModel {
    pub name: Seq<u8>,
    pub data: Seq<u8>,
    pub meta: MetaModel,
}

/// One file of an upload batch: verbatim name, byte payload (fully
/// buffered), and optional transfer metadata.
pub struct UploadFile {
    pub name: Vec<u8>,
    pub data: Vec<u8>,
    pub meta: Metadata,
}

impl View for UploadFile {
    type V = FileModel;

    open spec fn view(&self) -> FileModel {
        FileModel { name: self.name@, data: self.data@, meta: self.meta@ }
    }
}

/// Why an upload batch failed.
#[derive(Debug)]
pub enum UploadError {
    /// No files were supplied.
    Empty,
    /// A write to the store failed; earlier files of the batch stay
    /// persisted, later ones were never attempted.
    StoreWrite(StoreError),
}

/// Models of a batch of upload files.
pub open spec fn files_model(files: Seq<UploadFile>) -> Seq<FileModel> {
    files.map_values(|f: UploadFile| f@)
}

/// The stored object that one file of a batch becomes.
pub open spec fn file_object(prefix: Seq<u8>, f: FileModel, now: u64) -> ObjModel {
    ObjModel { key: joined_key(prefix, f.name), data: f.data, meta: f.meta, uploaded_at: now }
}

/// Store contents after writing each file of the batch in order under the
/// group prefix; a later file with the same name overwrites an earlier
/// one (last write wins).
pub open spec fn after_puts(
    objs: Seq<ObjModel>,
    prefix: Seq<u8>,
    files: Seq<FileModel>,
    now: u64,
) -> Seq<ObjModel>
    decreases files.len(),
{
    if files.len() == 0 {
        objs
    } else {
        after_puts(put_result(objs, file_object(prefix, files[0], now)), prefix, files.drop_first(), now)
    }
}

/// Writing one more file is one more put.
pub proof fn lemma_after_puts_snoc(
    objs: Seq<ObjModel>,
    prefix: Seq<u8>,
    files: Seq<FileModel>,
    f: FileModel,
    now: u64,
)
    ensures
        after_puts(objs, prefix, files.push(f), now) == put_result(
            after_puts(objs, prefix, files, now),
            file_object(prefix, f, now),
        ),
    decreases files.len(),
{
    let ext = files.push(f);
    assert(ext.len() > 0);
    assert(after_puts(objs, prefix, ext, now) == after_puts(
        put_result(objs, file_object(prefix, ext[0], now)),
        prefix,
        ext.drop_first(),
        now,
    ));
    if files.len() == 0 {
        assert(ext[0] == f);
        assert(ext.drop_first() =~= Seq::<FileModel>::empty());
        assert(after_puts(put_result(objs, file_object(prefix, f, now)), prefix, ext.drop_first(), now)
            == put_result(objs, file_object(prefix, f, now)));
        assert(after_puts(objs, prefix, files, now) == objs);
    } else {
        assert(ext[0] == files[0]);
        assert(ext.drop_first() =~= files.drop_first().push(f));
        lemma_after_puts_snoc(
            put_result(objs, file_object(prefix, files[0], now)),
            prefix,
            files.drop_first(),
            f,
            now,
        );
        assert(after_puts(objs, prefix, files, now) == after_puts(
            put_result(objs, file_object(prefix, files[0], now)),
            prefix,
            files.drop_first(),
            now,
        ));
    }
}

/// Write a non-empty batch of files under the given identifier: one keyed
/// write per file, in order, aborting on the first failure with earlier
/// writes left intact and later files never attempted. Succeeds exactly
/// when the batch is non-empty and no file's key is a failing key.
pub fn upload_batch_with_id(
    store: &mut Store,
    gid: &GroupId,
    files: Vec<UploadFile>,
    now: u64,
) -> (r: Result<(), UploadError>)
    requires
        old(store).wf(),
        gid.wf(),
    ensures
        final(store).wf(),
        final(store)@.failing == old(store)@.failing,
        files@.len() == 0 ==> (r matches Err(UploadError::Empty) && final(store)@ == old(store)@),
        r matches Err(UploadError::Empty) ==> files@.len() == 0,
        (files@.len() > 0 && (forall|i: int|
            0 <= i < files@.len() ==> !failing_contains(
                old(store)@.failing,
                joined_key(group_prefix(canonical_render(gid@)), files@[i]@.name),
            ))) <==> r is Ok,
        r is Ok ==> final(store)@.objects == after_puts(
            old(store)@.objects,
            group_prefix(canonical_render(gid@)),
            files_model(files@),
            now,
        ),
        r matches Err(UploadError::StoreWrite(e)) ==> (exists|i: int|
            0 <= i < files@.len() && #[trigger] failing_contains(
                old(store)@.failing,
                joined_key(group_prefix(canonical_render(gid@)), files@[i]@.name),
            ) && e@ == joined_key(group_prefix(canonical_render(gid@)), files@[i]@.name)
                && final(store)@.objects == after_puts(
                old(store)@.objects,
                group_prefix(canonical_render(gid@)),
                files_model(files@).subrange(0, i),
                now,
            )),
{
    let ghost fs = files_model(files@);
    let ghost prefix_s = group_prefix(canonical_render(gid@));
    if files.len() == 0 {
        return Err(UploadError::Empty);
    }
    let rendered = gid.render();
    let prefix = crate::keys::make_group_prefix(rendered.as_slice());
    let mut i: usize = 0;
    #[verifier::loop_isolation(false)]
    while i < files.len()
        invariant
            store.wf(),
            i <= files@.len(),
            store@.objects == after_puts(old(store)@.objects, prefix_s, fs.subrange(0, i as int), now),
            store@.failing == old(store)@.failing,
            forall|j: int|
                0 <= j < i ==> !failing_contains(
                    old(store)@.failing,
                    joined_key(prefix_s, fs[j].name),
                ),
        decreases files@.len() - i,
    {
        let f = &files[i];
        let key = crate::keys::make_key(prefix.as_slice(), f.name.as_slice());
        let data = crate::keys::copy_bytes(f.data.as_slice());
        let meta = f.meta.dup();
        match store.put(key, data, meta, now) {
            Ok(()) => {
                proof {
                    assert(fs.subrange(0, i + 1) =~= fs.subrange(0, i as int).push(fs[i as int]));
                    lemma_after_puts_snoc(
                        old(store)@.objects,
                        prefix_s,
                        fs.subrange(0, i as int),
                        fs[i as int],
                        now,
                    );
                }
                i = i + 1;
            },
            Err(e) => {
                proof {
                    assert(failing_contains(old(store)@.failing, joined_key(prefix_s, fs[i as int].name)));
                }
                return Err(UploadError::StoreWrite(e));
            },
        }
    }
    proof {
        assert(fs.subrange(0, files@.len() as int) =~= fs);
        assert forall|j: int| 0 <= j < files@.len() implies !failing_contains(
            old(store)@.failing,
            joined_key(group_prefix(canonical_render(gid@)), files@[j]@.name),
        ) by {
            assert(fs[j] == files@[j]@);
            assert(!failing_contains(old(store)@.failing, joined_key(prefix_s, fs[j].name)));
        }
    }
    Ok(())
}

/// Accept a batch of named file payloads: generate one fresh group
/// identifier for the whole batch and write each file under it. On
/// success the group is immediately resolvable; there is no separate
/// commit step. An empty batch is rejected without any store write.
pub fn upload_batch(store: &mut Store, files: Vec<UploadFile>, now: u64) -> (r: Result<
    GroupId,
    UploadError,
>)
    requires
        old(store).wf(),
    ensures
        final(store).wf(),
        final(store)@.failing == old(store)@.failing,
        files@.len() == 0 ==> (r matches Err(UploadError::Empty) && final(store)@ == old(store)@),
        r matches Err(UploadError::Empty) ==> files@.len() == 0,
        r matches Ok(g) ==> g.wf() && files@.len() > 0 && final(store)@.objects == after_puts(
            old(store)@.objects,
            group_prefix(canonical_render(g@)),
            files_model(files@),
            now,
        ),
        r matches Err(UploadError::StoreWrite(e)) ==> (exists|p: Seq<u8>, i: int|
            0 <= i < files@.len() && #[trigger] failing_contains(
                old(store)@.failing,
                joined_key(p, files@[i]@.name),
            ) && e@ == joined_key(p, files@[i]@.name) && final(store)@.objects == after_puts(
                old(store)@.objects,
                p,
                files_model(files@).subrange(0, i),
                now,
            )),
{
    let gid = new_group_id();
    match upload_batch_with_id(store, &gid, files, now) {
        Ok(()) => Ok(gid),
        Err(e) => Err(e),
    }
}

/// A successful write keeps keys unique, stores the written object under
/// its key, and leaves every other key's object in place.
pub proof fn lemma_put_result_unique(objs: Seq<ObjModel>, obj: ObjModel)
    requires
        keys_unique(objs),
    ensures
        keys_unique(put_result(objs, obj)),
        contains_key(put_result(objs, obj), obj.key),
        stored_at(put_result(objs, obj), obj.key) == obj,
        forall|k: Seq<u8>|
            k != obj.key ==> #[trigger] contains_key(put_result(objs, obj), k) == contains_key(
                objs,
                k,
            ),
        forall|k: Seq<u8>|
            k != obj.key && contains_key(objs, k) ==> #[trigger] stored_at(put_result(objs, obj), k)
                == stored_at(objs, k),
{
    crate::store::lemma_remove_key_unique(objs, obj.key);
    let rem = remove_key(objs, obj.key);
    let put = put_result(objs, obj);
    assert(put == rem.push(obj));
    assert forall|a: int, b: int| 0 <= a < b < put.len() implies put[a].key != put[b].key by {
        if b < rem.len() {
            assert(put[a] == rem[a] && put[b] == rem[b]);
        } else {
            assert(put[b] == obj);
            assert(put[a] == rem[a]);
            assert(!contains_key(rem, obj.key));
            if put[a].key == obj.key {
                assert(contains_key(rem, obj.key));
            }
        }
    }
    assert(put[put.len() - 1] == obj);
    assert(contains_key(put, obj.key));
    assert(stored_at(put, obj.key) == obj) by {
        let idx = index_of_key(put, obj.key);
        assert(0 <= idx < put.len() && put[idx].key == obj.key);
        if idx < rem.len() {
            assert(put[idx] == rem[idx]);
            assert(contains_key(rem, obj.key));
        }
    }
    assert forall|k: Seq<u8>| k != obj.key implies #[trigger] contains_key(put, k) == contains_key(
        objs,
        k,
    ) by {
        if contains_key(put, k) {
            let i = choose|i: int| 0 <= i < put.len() && put[i].key == k;
            assert(i < rem.len());
            assert(put[i] == rem[i]);
            assert(contains_key(rem, k));
        }
        if contains_key(objs, k) {
            assert(contains_key(rem, k));
            let i = choose|i: int| 0 <= i < rem.len() && rem[i].key == k;
            assert(put[i] == rem[i]);
            assert(contains_key(put, k));
        }
    }
    assert forall|k: Seq<u8>| k != obj.key && contains_key(objs, k) implies #[trigger] stored_at(
        put,
        k,
    ) == stored_at(objs, k) by {
        assert(contains_key(rem, k));
        let i = index_of_key(rem, k);
        assert(0 <= i < rem.len() && rem[i].key == k);
        assert(put[i] == rem[i]);
        assert(contains_key(put, k));
        let j = index_of_key(put, k);
        assert(0 <= j < put.len() && put[j].key == k);
        assert(j < rem.len());
        assert(put[j] == rem[j]);
        assert(keys_unique(rem));
        assert(i == j);
        assert(stored_at(rem, k) == stored_at(objs, k));
    }
}

/// A key was written by some file of a batch.
pub open spec fn batch_writes_key(prefix: Seq<u8>, files: Seq<FileModel>, k: Seq<u8>) -> bool {
    exists|i: int| 0 <= i < files.len() && k == joined_key(prefix, files[i].name)
}

/// A file's name does not recur later in the batch, so its write is the
/// last one to its key.
pub open spec fn last_write_of_name(files: Seq<FileModel>, i: int) -> bool {
    forall|j: int| i < j < files.len() ==> files[j].name != files[i].name
}

/// What a batch of writes does to the store: it holds exactly the old
/// keys and the batch's keys; an untouched key's object is unchanged;
/// and the object under each written key is the last file of the batch
/// with that name, stamped at the write time.
pub proof fn lemma_after_puts_characterization(
    objs: Seq<ObjModel>,
    prefix: Seq<u8>,
    files: Seq<FileModel>,
    now: u64,
)
    requires
        keys_unique(objs),
    ensures
        keys_unique(after_puts(objs, prefix, files, now)),
        forall|k: Seq<u8>|
            #[trigger] contains_key(after_puts(objs, prefix, files, now), k) == (contains_key(
                objs,
                k,
            ) || batch_writes_key(prefix, files, k)),
        forall|k: Seq<u8>|
            !batch_writes_key(prefix, files, k) && contains_key(objs, k)
                ==> #[trigger] stored_at(after_puts(objs, prefix, files, now), k) == stored_at(
                objs,
                k,
            ),
        forall|i: int|
            0 <= i < files.len() && #[trigger] last_write_of_name(files, i) ==> stored_at(
                after_puts(objs, prefix, files, now),
                joined_key(prefix, files[i].name),
            ) == file_object(prefix, files[i], now),
    decreases files.len(),
{
    let after = after_puts(objs, prefix, files, now);
    if files.len() == 0 {
        assert(forall|k: Seq<u8>| !(#[trigger] batch_writes_key(prefix, files, k)));
    } else {
        let obj0 = file_object(prefix, files[0], now);
        let objs1 = put_result(objs, obj0);
        let files1 = files.drop_first();
        lemma_put_result_unique(objs, obj0);
        lemma_after_puts_characterization(objs1, prefix, files1, now);
        assert(after == after_puts(objs1, prefix, files1, now));
        assert forall|k: Seq<u8>| #[trigger] contains_key(after, k) == (contains_key(objs, k)
            || batch_writes_key(prefix, files, k)) by {
            assert(contains_key(after, k) == (contains_key(objs1, k) || batch_writes_key(
                prefix,
                files1,
                k,
            )));
            assert(batch_writes_key(prefix, files, k) == (k == obj0.key || batch_writes_key(
                prefix,
                files1,
                k,
            ))) by {
                if batch_writes_key(prefix, files, k) {
                    let i = choose|i: int|
                        0 <= i < files.len() && k == joined_key(prefix, files[i].name);
                    if i > 0 {
                        assert(files1[i - 1] == files[i]);
                        assert(batch_writes_key(prefix, files1, k));
                    }
                }
                if batch_writes_key(prefix, files1, k) {
                    let i = choose|i: int|
                        0 <= i < files1.len() && k == joined_key(prefix, files1[i].name);
                    assert(files[i + 1] == files1[i]);
                    assert(batch_writes_key(prefix, files, k));
                }
                if k == obj0.key {
                    assert(k == joined_key(prefix, files[0].name));
                    assert(batch_writes_key(prefix, files, k));
                }
            }
            if k == obj0.key {
                assert(contains_key(objs1, k));
            } else {
                assert(contains_key(objs1, k) == contains_key(objs, k));
            }
        }
        assert forall|k: Seq<u8>|
            !batch_writes_key(prefix, files, k) && contains_key(objs, k) implies #[trigger] stored_at(
            after,
            k,
        ) == stored_at(objs, k) by {
            assert(!batch_writes_key(prefix, files1, k)) by {
                if batch_writes_key(prefix, files1, k) {
                    let i = choose|i: int|
                        0 <= i < files1.len() && k == joined_key(prefix, files1[i].name);
                    assert(files[i + 1] == files1[i]);
                    assert(batch_writes_key(prefix, files, k));
                }
            }
            assert(k != obj0.key) by {
                if k == obj0.key {
                    assert(k == joined_key(prefix, files[0].name));
                    assert(batch_writes_key(prefix, files, k));
                }
            }
            assert(contains_key(objs1, k));
            assert(stored_at(after, k) == stored_at(objs1, k));
            assert(stored_at(objs1, k) == stored_at(objs, k));
        }
        assert forall|i: int|
            0 <= i < files.len() && #[trigger] last_write_of_name(files, i) implies stored_at(
            after,
            joined_key(prefix, files[i].name),
        ) == file_object(prefix, files[i], now) by {
            if i == 0 {
                assert(!batch_writes_key(prefix, files1, obj0.key)) by {
                    if batch_writes_key(prefix, files1, obj0.key) {
                        let j = choose|j: int|
                            0 <= j < files1.len() && obj0.key == joined_key(
                                prefix,
                                files1[j].name,
                            );
                        assert(files1[j] == files[j + 1]);
                        crate::keys::lemma_join_suffix(prefix, files[0].name);
                        crate::keys::lemma_join_suffix(prefix, files[j + 1].name);
                        assert(files[j + 1].name == files[0].name);
                        assert(!last_write_of_name(files, 0));
                    }
                }
                assert(contains_key(objs1, obj0.key));
                assert(stored_at(after, obj0.key) == stored_at(objs1, obj0.key));
                assert(stored_at(objs1, obj0.key) == obj0);
            } else {
                assert(files1[i - 1] == files[i]);
                assert(last_write_of_name(files1, i - 1)) by {
                    assert forall|j: int| i - 1 < j < files1.len() implies #[trigger] files1[j].name
                        != files1[i - 1].name by {
                        assert(files1[j] == files[j + 1]);
                    }
                }
                assert(stored_at(after, joined_key(prefix, files1[i - 1].name)) == file_object(
                    prefix,
                    files1[i - 1],
                    now,
                ));
            }
        }
    }
}

/// Round-trip law of upload and listing: after a batch of files lands
/// under a group identifier that no stored key had before, the group's
/// listing holds exactly the batch's keys — each uploaded file name, as
/// the suffix of a listed key, no more and no less — and the object
/// under each name's key is the last file of the batch with that name,
/// its payload and metadata unchanged and its timestamp the write time.
pub proof fn lemma_upload_then_list(
    objs: Seq<ObjModel>,
    prefix: Seq<u8>,
    files: Seq<FileModel>,
    now: u64,
)
    requires
        keys_unique(objs),
        forall|i: int| 0 <= i < objs.len() ==> !has_prefix(#[trigger] objs[i].key, prefix),
    ensures
        forall|k: Seq<u8>|
            #[trigger] crate::resolve::listing_has_key(
                listing(after_puts(objs, prefix, files, now), Some(prefix)),
                k,
            ) <==> batch_writes_key(prefix, files, k),
        forall|i: int|
            0 <= i < files.len() && #[trigger] last_write_of_name(files, i) ==> stored_at(
                after_puts(objs, prefix, files, now),
                joined_key(prefix, files[i].name),
            ) == file_object(prefix, files[i], now),
{
    let after = after_puts(objs, prefix, files, now);
    lemma_after_puts_characterization(objs, prefix, files, now);
    assert forall|k: Seq<u8>| #[trigger] crate::resolve::listing_has_key(
        listing(after, Some(prefix)),
        k,
    ) <==> batch_writes_key(prefix, files, k) by {
        crate::resolve::lemma_listing_membership(after, prefix, k);
        if batch_writes_key(prefix, files, k) {
            let i = choose|i: int| 0 <= i < files.len() && k == joined_key(prefix, files[i].name);
            crate::keys::lemma_join_suffix(prefix, files[i].name);
            assert(has_prefix(k, prefix));
            assert(contains_key(after, k));
        }
        if crate::resolve::listing_has_key(listing(after, Some(prefix)), k) {
            assert(contains_key(after, k) && has_prefix(k, prefix));
            if !batch_writes_key(prefix, files, k) {
                assert(contains_key(objs, k));
                let i = choose|i: int| 0 <= i < objs.len() && objs[i].key == k;
                assert(!has_prefix(objs[i].key, prefix));
            }
        }
    }
}

} // verus!