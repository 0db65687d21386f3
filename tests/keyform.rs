use blob_relay::keyform::{decode_key_form, parse_handle, split_key_form, KeyFormError};

const HANDLE: &str = "67e55044-10b1-426f-9247-bb680e5fe0c8";

#[test]
fn key_form_decodes_handle_and_key() {
    let (h, k) = decode_key_form(&format!("{HANDLE}:00ff10")).unwrap();
    assert_eq!(h, 0x67e55044_10b1_426f_9247_bb680e5fe0c8);
    assert_eq!(k, vec![0x00, 0xff, 0x10]);
}

#[test]
fn key_form_errors() {
    assert_eq!(decode_key_form(HANDLE), Err(KeyFormError::MissingKey));
    assert_eq!(decode_key_form(""), Err(KeyFormError::MissingKey));
    assert_eq!(decode_key_form("not-a-handle:00"), Err(KeyFormError::MalformedHandle));
    assert_eq!(decode_key_form(&format!("{HANDLE}:0g")), Err(KeyFormError::MalformedKey));
    assert_eq!(decode_key_form(&format!("{HANDLE}:abc")), Err(KeyFormError::MalformedKey));
}

#[test]
fn key_form_ignores_what_follows_a_second_colon() {
    assert_eq!(split_key_form("a:b:c"), Some(("a", "b")));
    assert_eq!(split_key_form("a:"), Some(("a", "")));
    assert_eq!(split_key_form(":x"), Some(("", "x")));
    let (_, k) = decode_key_form(&format!("{HANDLE}:0a:rest")).unwrap();
    assert_eq!(k, vec![0x0a]);
}

#[test]
fn handles_parse_from_uuid_text() {
    assert_eq!(parse_handle(HANDLE), Some(0x67e55044_10b1_426f_9247_bb680e5fe0c8));
    assert_eq!(parse_handle("67e5504410b1426f9247bb680e5fe0c8"), Some(0x67e55044_10b1_426f_9247_bb680e5fe0c8));
    assert_eq!(parse_handle("../etc/passwd"), None);
}
