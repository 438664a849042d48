use easyshare::resolve::{fetch_object, FetchError};
use easyshare::store::{Metadata, Store};
use easyshare::sweep::{sweep, DEFAULT_RETENTION_MILLIS};
use easyshare::upload::{upload_batch, UploadFile};

const HOUR: u64 = 60 * 60 * 1000;

fn plain_file(name: &[u8], data: &[u8]) -> UploadFile {
    UploadFile { name: name.to_vec(), data: data.to_vec(), meta: Metadata::none() }
}

#[test]
fn sweep_of_empty_store_scans_nothing() {
    let mut store = Store::new();
    let report = sweep(&mut store, 123, DEFAULT_RETENTION_MILLIS);
    assert_eq!(report.scanned, 0);
    assert_eq!(report.deleted, 0);
    assert!(report.failures.is_empty());
}

#[test]
fn age_equal_to_retention_is_not_expired() {
    let mut store = Store::new();
    upload_batch(&mut store, vec![plain_file(b"a.txt", b"x")], 1_000).expect("upload");

    let report = sweep(&mut store, 1_000 + 500, 500);
    assert_eq!(report.scanned, 1);
    assert_eq!(report.deleted, 0);
    assert_eq!(store.list(None).len(), 1);

    let report = sweep(&mut store, 1_000 + 501, 500);
    assert_eq!(report.deleted, 1);
    assert_eq!(store.list(None).len(), 0);
}

#[test]
fn upload_then_sweep_before_and_after_retention() {
    let mut store = Store::new();
    let t = 10 * HOUR;
    let payload = vec![7u8; 500 * 1024];
    let id = upload_batch(
        &mut store,
        vec![UploadFile { name: b"cat.png".to_vec(), data: payload.clone(), meta: Metadata::none() }],
        t,
    )
    .expect("upload");

    let report = sweep(&mut store, t + 23 * HOUR, 24 * HOUR);
    assert_eq!(report.scanned, 1);
    assert_eq!(report.deleted, 0);
    let fetched = fetch_object(&store, &id.render(), b"cat.png").expect("survives");
    assert_eq!(fetched.data, payload);

    let report = sweep(&mut store, t + 25 * HOUR, 24 * HOUR);
    assert_eq!(report.deleted, 1);
    assert!(matches!(
        fetch_object(&store, &id.render(), b"cat.png"),
        Err(FetchError::NotFound)
    ));
}

#[test]
fn mixed_ages_only_expired_objects_go() {
    let mut store = Store::new();
    upload_batch(&mut store, vec![plain_file(b"old.txt", b"o")], 0).expect("old");
    let id_new = upload_batch(&mut store, vec![plain_file(b"new.txt", b"n")], 30 * HOUR)
        .expect("new");

    let report = sweep(&mut store, 31 * HOUR, 24 * HOUR);
    assert_eq!(report.scanned, 2);
    assert_eq!(report.deleted, 1);
    assert!(report.failures.is_empty());

    let listing = store.list(None);
    assert_eq!(listing.len(), 1);
    assert!(fetch_object(&store, &id_new.render(), b"new.txt").is_ok());
}

#[test]
fn failed_delete_is_recorded_and_does_not_stop_the_run() {
    let mut store = Store::new();
    let id_a = upload_batch(&mut store, vec![plain_file(b"a.txt", b"a")], 0).expect("a");
    upload_batch(&mut store, vec![plain_file(b"b.txt", b"b")], 0).expect("b");

    let mut stuck_key = id_a.render();
    stuck_key.push(b'/');
    stuck_key.extend_from_slice(b"a.txt");
    store.inject_fault(stuck_key.clone());

    let report = sweep(&mut store, 30 * HOUR, 24 * HOUR);
    assert_eq!(report.scanned, 2);
    assert_eq!(report.deleted, 1);
    assert_eq!(report.failures.len(), 1);
    assert_eq!(report.failures[0].key, stuck_key);

    let listing = store.list(None);
    assert_eq!(listing.len(), 1);
    assert_eq!(listing[0].key, stuck_key);
}

#[test]
fn future_timestamp_has_age_zero() {
    let mut store = Store::new();
    upload_batch(&mut store, vec![plain_file(b"late.txt", b"l")], 50 * HOUR).expect("upload");
    let report = sweep(&mut store, HOUR, HOUR / 2);
    assert_eq!(report.deleted, 0);
    assert_eq!(store.list(None).len(), 1);
}
