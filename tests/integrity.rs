use blob_relay::integrity::{compute_tag, constant_time_eq, verify_tag, TagMismatch};

#[test]
fn hmac_sha256_known_vector() {
    let tag = compute_tag(b"what do ya want for nothing?", b"Jefe");
    assert_eq!(
        hex::encode(tag),
        "5bdcc146bf60754e6a042426089575c75a003f089d2739839dec58b964ec3843"
    );
}

#[test]
fn computed_tag_verifies() {
    for (bytes, key) in [(&b""[..], &b""[..]), (b"payload", b"k"), (b"x", &[0u8; 100][..])] {
        let tag = compute_tag(bytes, key);
        assert_eq!(verify_tag(bytes, key, &tag), Ok(()));
    }
}

#[test]
fn tampered_bytes_or_key_fail() {
    let tag = compute_tag(b"payload", b"key");
    assert_eq!(verify_tag(b"payloae", b"key", &tag), Err(TagMismatch));
    assert_eq!(verify_tag(b"payload", b"kez", &tag), Err(TagMismatch));
    assert_eq!(verify_tag(b"payload", b"key", &tag[..31]), Err(TagMismatch));
    assert_eq!(verify_tag(b"payload", b"key", b""), Err(TagMismatch));
}

#[test]
fn constant_time_eq_compares_bytes() {
    assert!(constant_time_eq(b"", b""));
    assert!(constant_time_eq(b"abc", b"abc"));
    assert!(!constant_time_eq(b"abc", b"abd"));
    assert!(!constant_time_eq(b"abc", b"ab"));
    assert!(!constant_time_eq(&[0x80], &[0x00]));
}

#[test]
fn keys_equal_up_to_trailing_zeros_share_tags() {
    // HMAC pads a short key with zero bytes, so such a change of key goes unseen.
    let tag = compute_tag(b"payload", b"k");
    assert_eq!(verify_tag(b"payload", b"k\0", &tag), Ok(()));
}
