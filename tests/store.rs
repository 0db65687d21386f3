use blob_relay::integrity::compute_tag;
use blob_relay::store::{
    BlobError, BlobStore, IntegrityMode, Upload, DEFAULT_RETENTION_SECS, DEFAULT_SIZE_LIMIT,
};

const DAY: u64 = 24 * 60 * 60;
const NOW: u64 = 1_700_000_000;

fn open_store() -> BlobStore {
    BlobStore::new(DEFAULT_SIZE_LIMIT, IntegrityMode::Off)
}

#[test]
fn test_upload_file() {
    let mut store = open_store();
    let handle = store.put(b"correct payload", NOW, None, None).expect("upload succeeds");
    let id = uuid::Uuid::from_u128(handle);
    assert_eq!(id.get_version_num(), 4);
    assert_eq!(id.get_variant(), uuid::Variant::RFC4122);
    assert_eq!(store.get(handle, None, None).unwrap(), b"correct payload".to_vec());

    let too_large = vec![0u8; 20_000_000];
    assert_eq!(store.put(&too_large, NOW, None, None), Err(BlobError::PayloadTooLarge));
    assert_eq!(store.len(), 1);
}

#[test]
fn test_get_file() {
    let mut store = open_store();
    let handle = store.put(b"this too shall pass!", NOW, None, None).unwrap();
    let got = store.get(handle, None, None);
    assert!(got.is_ok(), "Should succeed");
    assert_eq!(got.unwrap(), b"this too shall pass!".to_vec());
}

#[test]
fn put_then_get_returns_the_payload() {
    let mut store = open_store();
    let payloads: Vec<Vec<u8>> = vec![vec![], vec![0], b"abc".to_vec(), vec![7u8; 4096]];
    let mut handles = Vec::new();
    for p in &payloads {
        handles.push(store.put(p, NOW, None, None).unwrap());
    }
    for (h, p) in handles.iter().zip(payloads.iter()) {
        assert_eq!(store.get(*h, None, None).unwrap(), *p);
    }
}

#[test]
fn payload_at_the_limit_is_accepted_one_more_byte_is_not() {
    let mut store = BlobStore::new(10, IntegrityMode::Off);
    assert!(store.put(&[1u8; 10], NOW, None, None).is_ok());
    assert_eq!(store.put(&[1u8; 11], NOW, None, None), Err(BlobError::PayloadTooLarge));
    assert_eq!(store.len(), 1);
}

#[test]
fn chunked_upload_aborts_past_the_limit_and_stores_nothing() {
    let mut store = BlobStore::new(5, IntegrityMode::Off);
    let mut upload = store.begin_upload();
    assert_eq!(upload.feed(b"abc"), Ok(()));
    assert_eq!(upload.feed(b"def"), Err(BlobError::PayloadTooLarge));
    assert_eq!(upload.feed(b""), Err(BlobError::PayloadTooLarge));
    assert_eq!(
        store.finish_upload(upload, 42, NOW, None, None),
        Err(BlobError::PayloadTooLarge)
    );
    assert_eq!(store.len(), 0);
    assert_eq!(store.get(42, None, None), Err(BlobError::NotFound));
}

#[test]
fn chunked_upload_within_the_limit_is_stored_whole() {
    let mut store = BlobStore::new(6, IntegrityMode::Off);
    let mut upload = Upload::new(6);
    assert_eq!(upload.feed(b"abc"), Ok(()));
    assert_eq!(upload.feed(b"def"), Ok(()));
    assert_eq!(store.finish_upload(upload, 9, NOW, None, None), Ok(9));
    assert_eq!(store.get(9, None, None).unwrap(), b"abcdef".to_vec());
}

#[test]
fn unknown_handle_is_not_found() {
    let store = open_store();
    assert_eq!(store.get(1, None, None), Err(BlobError::NotFound));
}

#[test]
fn handle_in_use_is_refused() {
    let mut store = open_store();
    assert_eq!(store.put_with_handle(5, b"first", NOW, None, None), Ok(5));
    assert_eq!(store.put_with_handle(5, b"second", NOW, None, None), Err(BlobError::StorageIO));
    assert_eq!(store.get(5, None, None).unwrap(), b"first".to_vec());
}

#[test]
fn shared_secret_gates_upload_and_download() {
    let secret = b"relay secret".to_vec();
    let mut store = BlobStore::new(DEFAULT_SIZE_LIMIT, IntegrityMode::SharedSecret(secret.clone()));
    let payload = b"signed bundle";
    let tag = hex::encode(compute_tag(payload, &secret));
    let wrong = hex::encode(compute_tag(b"other bundle", &secret));

    assert_eq!(store.put_with_handle(1, payload, NOW, None, None), Err(BlobError::MissingCredential));
    assert_eq!(
        store.put_with_handle(1, payload, NOW, Some("not hex"), None),
        Err(BlobError::MalformedCredential)
    );
    assert_eq!(
        store.put_with_handle(1, payload, NOW, Some(&wrong), None),
        Err(BlobError::IntegrityMismatch)
    );
    assert_eq!(store.len(), 0);
    assert_eq!(store.put_with_handle(1, payload, NOW, Some(&tag), None), Ok(1));

    assert_eq!(store.get(1, None, None), Err(BlobError::MissingCredential));
    assert_eq!(store.get(1, Some(&wrong), None), Err(BlobError::IntegrityMismatch));
    assert_eq!(store.get(1, Some(&tag.to_uppercase()), None).unwrap(), payload.to_vec());
}

#[test]
fn per_request_key_needs_a_hex_key() {
    let mut store = BlobStore::new(DEFAULT_SIZE_LIMIT, IntegrityMode::PerRequestKey);
    let key = [0xabu8, 0xcd, 0xef];
    let key_hex = hex::encode(key);
    let payload = b"bundle";
    let tag = hex::encode(compute_tag(payload, &key));

    assert_eq!(
        store.put_with_handle(3, payload, NOW, Some(&tag), None),
        Err(BlobError::MissingCredential)
    );
    assert_eq!(
        store.put_with_handle(3, payload, NOW, Some(&tag), Some("xyz")),
        Err(BlobError::MalformedCredential)
    );
    assert_eq!(
        store.put_with_handle(3, payload, NOW, Some(&tag), Some("abcd")),
        Err(BlobError::IntegrityMismatch)
    );
    assert_eq!(store.put_with_handle(3, payload, NOW, Some(&tag), Some(&key_hex)), Ok(3));
    assert_eq!(store.get(3, Some(&tag), Some(&key_hex)).unwrap(), payload.to_vec());
}

#[test]
fn sweep_evicts_by_age() {
    let mut store = open_store();
    let old = store.put(b"eight days", NOW - 8 * DAY, None, None).unwrap();
    let young = store.put(b"two days", NOW - 2 * DAY, None, None).unwrap();
    let edge = store.put(b"exactly seven", NOW - 7 * DAY, None, None).unwrap();
    let future = store.put(b"from the future", NOW + DAY, None, None).unwrap();

    assert_eq!(store.sweep(NOW, DEFAULT_RETENTION_SECS), 2);
    assert_eq!(store.get(old, None, None), Err(BlobError::NotFound));
    assert_eq!(store.get(edge, None, None), Err(BlobError::NotFound));
    assert_eq!(store.get(young, None, None).unwrap(), b"two days".to_vec());
    assert_eq!(store.get(future, None, None).unwrap(), b"from the future".to_vec());
    assert_eq!(store.sweep(NOW, DEFAULT_RETENTION_SECS), 0);
}

#[test]
fn upload_fetch_then_evict_scenario() {
    let mut store = open_store();
    let h = store.put(b"hello there", NOW, None, None).unwrap();
    assert_eq!(store.get(h, None, None).unwrap(), b"hello there".to_vec());
    assert_eq!(store.sweep(NOW + 9 * DAY, DEFAULT_RETENTION_SECS), 1);
    assert_eq!(store.get(h, None, None), Err(BlobError::NotFound));
}

#[test]
fn commit_mints_a_fresh_handle() {
    let mut store = open_store();
    let mut upload = store.begin_upload();
    upload.feed(b"part one, ").unwrap();
    upload.feed(b"part two").unwrap();
    let h = store.commit(upload, NOW, None, None).unwrap();
    let again = store.put(b"other", NOW, None, None).unwrap();
    assert_ne!(h, again);
    assert_eq!(store.get(h, None, None).unwrap(), b"part one, part two".to_vec());
}
