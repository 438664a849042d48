use easyshare::etag::compute_etag;
use easyshare::headers::{render_decimal, render_max_age, transfer_headers};
use easyshare::resolve::fetch_object;
use easyshare::store::{Metadata, Store};
use easyshare::upload::{upload_batch, UploadFile};

#[test]
fn decimal_rendering_exact_values() {
    assert_eq!(render_decimal(0), b"0".to_vec());
    assert_eq!(render_decimal(7), b"7".to_vec());
    assert_eq!(render_decimal(86_400_000), b"86400000".to_vec());
    assert_eq!(render_decimal(u64::MAX), b"18446744073709551615".to_vec());
}

#[test]
fn max_age_formatting() {
    assert_eq!(render_max_age(1_000), b"max-age=1000".to_vec());
}

#[test]
fn transfer_headers_follow_presence() {
    let meta = Metadata {
        content_type: Some(b"text/plain".to_vec()),
        content_language: None,
        content_disposition: None,
        content_encoding: Some(b"gzip".to_vec()),
        cache_control: None,
        cache_expiry_millis: Some(86_400_000),
    };
    let h = transfer_headers(&meta, b"tag".to_vec());
    assert_eq!(h.content_type, Some(b"text/plain".to_vec()));
    assert_eq!(h.content_language, None);
    assert_eq!(h.content_disposition, None);
    assert_eq!(h.content_encoding, Some(b"gzip".to_vec()));
    assert_eq!(h.cache_control, None);
    assert_eq!(h.cache_expiry, Some(b"max-age=86400000".to_vec()));
    assert_eq!(h.etag, b"tag".to_vec());
}

#[test]
fn transfer_headers_absent_metadata_sets_nothing() {
    let h = transfer_headers(&Metadata::none(), b"t".to_vec());
    assert_eq!(h.content_type, None);
    assert_eq!(h.content_language, None);
    assert_eq!(h.content_disposition, None);
    assert_eq!(h.content_encoding, None);
    assert_eq!(h.cache_control, None);
    assert_eq!(h.cache_expiry, None);
}

#[test]
fn etag_exact_values() {
    assert_eq!(compute_etag(b""), b"cbf29ce484222325".to_vec());
    assert_eq!(compute_etag(b"a"), b"af63dc4c8601ec8c".to_vec());
    assert_eq!(compute_etag(b"hello"), b"a430d84680aabd0b".to_vec());
}

#[test]
fn fetched_object_carries_content_etag() {
    let mut store = Store::new();
    let id = upload_batch(
        &mut store,
        vec![UploadFile { name: b"h.txt".to_vec(), data: b"hello".to_vec(), meta: Metadata::none() }],
        0,
    )
    .expect("upload");
    let fetched = fetch_object(&store, &id.render(), b"h.txt").expect("present");
    assert_eq!(fetched.etag, b"a430d84680aabd0b".to_vec());
}

#[test]
fn fetch_preserves_plus_and_malformed_escapes() {
    let mut store = Store::new();
    let files = vec![
        UploadFile { name: b"a+b".to_vec(), data: b"plus".to_vec(), meta: Metadata::none() },
        UploadFile { name: b"%zz".to_vec(), data: b"nothex".to_vec(), meta: Metadata::none() },
        UploadFile { name: b"%4".to_vec(), data: b"short".to_vec(), meta: Metadata::none() },
    ];
    let id = upload_batch(&mut store, files, 0).expect("upload");
    let r = id.render();
    assert_eq!(fetch_object(&store, &r, b"a+b").expect("plus kept").data, b"plus".to_vec());
    assert_eq!(fetch_object(&store, &r, b"%zz").expect("bad escape kept").data, b"nothex".to_vec());
    assert_eq!(fetch_object(&store, &r, b"%4").expect("short escape kept").data, b"short".to_vec());
}

#[test]
fn fetch_decodes_multi_byte_utf8_names() {
    let mut store = Store::new();
    let name = "caf\u{e9}.txt".as_bytes().to_vec();
    let id = upload_batch(
        &mut store,
        vec![UploadFile { name, data: b"accent".to_vec(), meta: Metadata::none() }],
        0,
    )
    .expect("upload");
    let fetched = fetch_object(&store, &id.render(), b"caf%C3%A9.txt").expect("decoded name");
    assert_eq!(fetched.data, b"accent".to_vec());
}
