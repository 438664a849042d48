use easyshare::group_id::GroupId;
use easyshare::resolve::{fetch_object, list_group, object_links, share_link, FetchError};
use easyshare::store::{Metadata, Store};
use easyshare::upload::{upload_batch, upload_batch_with_id, UploadError, UploadFile};

fn plain_file(name: &[u8], data: &[u8]) -> UploadFile {
    UploadFile { name: name.to_vec(), data: data.to_vec(), meta: Metadata::none() }
}

fn suffixes(store: &Store, id: &GroupId) -> Vec<Vec<u8>> {
    let prefix_len = id.render().len() + 1;
    let mut names: Vec<Vec<u8>> = list_group(store, id)
        .into_iter()
        .map(|s| s.key[prefix_len..].to_vec())
        .collect();
    names.sort();
    names
}

#[test]
fn round_trip_upload_list_fetch() {
    let mut store = Store::new();
    let files = vec![plain_file(b"a.txt", b"alpha"), plain_file(b"b.txt", b"beta")];
    let id = upload_batch(&mut store, files, 1_000).expect("non-empty batch must succeed");

    let names = suffixes(&store, &id);
    assert_eq!(names, vec![b"a.txt".to_vec(), b"b.txt".to_vec()]);

    let fetched = fetch_object(&store, &id.render(), b"a.txt").expect("uploaded file is present");
    assert_eq!(fetched.data, b"alpha".to_vec());
    assert_eq!(fetched.uploaded_at, 1_000);
}

#[test]
fn empty_batch_is_rejected_without_writes() {
    let mut store = Store::new();
    let r = upload_batch(&mut store, Vec::new(), 5);
    assert!(matches!(r, Err(UploadError::Empty)));
    assert_eq!(store.list(None).len(), 0);
}

#[test]
fn unknown_group_lists_empty() {
    let store = Store::new();
    let id = easyshare::group_id::new_group_id();
    let listing = list_group(&store, &id);
    assert!(listing.is_empty());
}

#[test]
fn fetch_missing_key_is_not_found() {
    let mut store = Store::new();
    let id = upload_batch(&mut store, vec![plain_file(b"a.txt", b"alpha")], 0)
        .expect("upload succeeds");
    let r = fetch_object(&store, &id.render(), b"missing.txt");
    assert!(matches!(r, Err(FetchError::NotFound)));
}

#[test]
fn metadata_round_trips_and_absent_fields_stay_absent() {
    let mut store = Store::new();
    let meta = Metadata {
        content_type: Some(b"image/png".to_vec()),
        content_language: None,
        content_disposition: Some(b"attachment; filename=\"cat.png\"".to_vec()),
        content_encoding: None,
        cache_control: None,
        cache_expiry_millis: Some(60_000),
    };
    let file = UploadFile { name: b"cat.png".to_vec(), data: b"pngbytes".to_vec(), meta };
    let id = upload_batch(&mut store, vec![file], 7).expect("upload succeeds");

    let fetched = fetch_object(&store, &id.render(), b"cat.png").expect("present");
    assert_eq!(fetched.meta.content_type, Some(b"image/png".to_vec()));
    assert_eq!(fetched.meta.content_language, None);
    assert_eq!(
        fetched.meta.content_disposition,
        Some(b"attachment; filename=\"cat.png\"".to_vec())
    );
    assert_eq!(fetched.meta.content_encoding, None);
    assert_eq!(fetched.meta.cache_control, None);
    assert_eq!(fetched.meta.cache_expiry_millis, Some(60_000));
}

#[test]
fn fetch_decodes_percent_encoded_segments() {
    let mut store = Store::new();
    let id = upload_batch(&mut store, vec![plain_file(b"my file.txt", b"spaced")], 0)
        .expect("upload succeeds");
    let fetched =
        fetch_object(&store, &id.render(), b"my%20file.txt").expect("encoded name resolves");
    assert_eq!(fetched.data, b"spaced".to_vec());
}

#[test]
fn fetch_double_decode_matches_issued_links() {
    let mut store = Store::new();
    let id = upload_batch(&mut store, vec![plain_file(b"a%20b.txt", b"literal")], 0)
        .expect("upload succeeds");
    let fetched =
        fetch_object(&store, &id.render(), b"a%2520b.txt").expect("doubly encoded name resolves");
    assert_eq!(fetched.data, b"literal".to_vec());
}

#[test]
fn fetch_rejects_segment_decoding_to_invalid_utf8() {
    let mut store = Store::new();
    let id = upload_batch(&mut store, vec![plain_file(b"a.txt", b"alpha")], 0)
        .expect("upload succeeds");
    let r = fetch_object(&store, &id.render(), b"%FF");
    assert!(matches!(r, Err(FetchError::MalformedKey)));
}

#[test]
fn duplicate_names_last_write_wins() {
    let mut store = Store::new();
    let files = vec![plain_file(b"a.txt", b"first"), plain_file(b"a.txt", b"second")];
    let id = upload_batch(&mut store, files, 0).expect("upload succeeds");

    assert_eq!(suffixes(&store, &id), vec![b"a.txt".to_vec()]);
    let fetched = fetch_object(&store, &id.render(), b"a.txt").expect("present");
    assert_eq!(fetched.data, b"second".to_vec());
}

#[test]
fn partial_upload_keeps_earlier_files_and_stops() {
    let mut store = Store::new();
    let gid = GroupId::from_bytes((0u8..16).collect());
    let mut failing_key = gid.render();
    failing_key.push(b'/');
    failing_key.extend_from_slice(b"two.txt");
    store.inject_fault(failing_key.clone());

    let files = vec![
        plain_file(b"one.txt", b"1"),
        plain_file(b"two.txt", b"2"),
        plain_file(b"three.txt", b"3"),
    ];
    let r = upload_batch_with_id(&mut store, &gid, files, 0);
    match r {
        Err(UploadError::StoreWrite(e)) => assert_eq!(e.key, failing_key),
        _ => panic!("expected a store-write failure"),
    }

    assert_eq!(suffixes(&store, &gid), vec![b"one.txt".to_vec()]);
    assert!(fetch_object(&store, &gid.render(), b"one.txt").is_ok());
    assert!(matches!(
        fetch_object(&store, &gid.render(), b"three.txt"),
        Err(FetchError::NotFound)
    ));
}

#[test]
fn groups_do_not_interfere() {
    let mut store = Store::new();
    let id_a = upload_batch(&mut store, vec![plain_file(b"a.txt", b"a")], 0).expect("first");
    let id_b = upload_batch(&mut store, vec![plain_file(b"b.txt", b"b")], 0).expect("second");

    assert_eq!(suffixes(&store, &id_a), vec![b"a.txt".to_vec()]);
    assert_eq!(suffixes(&store, &id_b), vec![b"b.txt".to_vec()]);
}

#[test]
fn share_and_object_links_have_expected_shape() {
    let mut store = Store::new();
    let gid = GroupId::from_bytes((0u8..16).collect());
    upload_batch_with_id(&mut store, &gid, vec![plain_file(b"a.txt", b"x")], 0)
        .expect("upload succeeds");

    assert_eq!(
        share_link(&gid),
        b"/share/00010203-0405-0607-0809-0a0b0c0d0e0f".to_vec()
    );
    let links = object_links(&list_group(&store, &gid));
    assert_eq!(links.len(), 1);
    assert_eq!(
        links[0],
        b"/obj/00010203-0405-0607-0809-0a0b0c0d0e0f/a.txt".to_vec()
    );
}
