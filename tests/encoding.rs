use blob_relay::encoding::{decimal, title_from_name};

#[test]
fn decimal_numerals() {
    assert_eq!(decimal(0), "0");
    assert_eq!(decimal(7), "7");
    assert_eq!(decimal(10), "10");
    assert_eq!(decimal(1234567890), "1234567890");
    assert_eq!(decimal(u64::MAX), "18446744073709551615");
}

#[test]
fn titles_from_snake_case() {
    assert_eq!(title_from_name("msg_stream_connect"), "Msg Stream Connect");
    assert_eq!(title_from_name("MSG_stream"), "Msg Stream");
    assert_eq!(title_from_name(""), "");
    assert_eq!(title_from_name("a__b_"), "A  B ");
    assert_eq!(title_from_name("sync2_start"), "Sync2 Start");
}
