use base64::Engine;
use blob_relay::archive::EventRecord;
use blob_relay::card::{card_for, render_event_card};

fn pretty_b64(payload: &[u8]) -> String {
    let value: serde_json::Value = serde_json::from_slice(payload).unwrap();
    base64::engine::general_purpose::STANDARD.encode(serde_json::to_vec_pretty(&value).unwrap())
}

fn event(kind: &str, details: &[u8], icon: Option<&str>) -> EventRecord {
    EventRecord {
        kind: kind.to_string(),
        details: details.to_vec(),
        icon: icon.map(|i| i.to_string()),
        group_id: None,
        created_at_ns: 0,
    }
}

#[test]
fn epoch_change_shows_new_epoch_changed_from_previous() {
    let payload = br#"{"prev_epoch":6,"new_epoch":7}"#;
    let card = card_for("epoch_change", None, payload);
    assert_eq!(card.icon, "🔁");
    assert_eq!(card.title, "Epoch Changed");
    assert_eq!(card.rows.len(), 1);
    let row = &card.rows[0];
    assert_eq!(row.label, "Epoch");
    assert_eq!(row.value, "7");
    assert_eq!(row.changed_from.as_deref(), Some("6"));
    assert_eq!(row.extra.as_deref(), Some(pretty_b64(payload).as_str()));
}

#[test]
fn common_intent_shows_no_row() {
    let card = card_for("queue_intent", Some("⏳"), br#"{"intent":"send_message"}"#);
    assert_eq!(card.icon, "⏳");
    assert_eq!(card.title, "Intent Queued");
    assert!(card.rows.is_empty());
}

#[test]
fn other_intent_shows_one_row() {
    let card = card_for("queue_intent", None, br#"{"intent":"update_admin_list"}"#);
    assert_eq!(card.rows.len(), 1);
    assert_eq!(card.rows[0].label, "Intent");
    assert_eq!(card.rows[0].value, "update_admin_list");
    assert!(card.rows[0].changed_from.is_none());
    assert!(card.rows[0].extra.is_none());
}

#[test]
fn corrupted_payload_of_known_kind_falls_back() {
    let not_json = b"\x00\x01garbage";
    let card = card_for("epoch_change", None, not_json);
    assert_eq!(card.title, "Epoch Changed");
    assert_eq!(card.rows.len(), 1);
    assert_eq!(card.rows[0].icon, "🔍");
    assert_eq!(card.rows[0].label, "Details");
    assert_eq!(card.rows[0].value, "9 bytes");
    let raw = base64::engine::general_purpose::STANDARD.encode(not_json);
    assert_eq!(card.rows[0].extra.as_deref(), Some(raw.as_str()));

    let wrong_schema = br#"{"prev_epoch":"six","new_epoch":7}"#;
    let card = card_for("epoch_change", None, wrong_schema);
    assert_eq!(card.rows.len(), 1);
    assert_eq!(card.rows[0].label, "Details");
    assert_eq!(card.rows[0].extra.as_deref(), Some(pretty_b64(wrong_schema).as_str()));

    let card = card_for("queue_intent", None, br#"{"intent":3}"#);
    assert_eq!(card.rows.len(), 1);
    assert_eq!(card.rows[0].label, "Details");
}

#[test]
fn unknown_kind_gets_a_derived_title_and_generic_row() {
    let payload = br#"{"a":1}"#;
    let card = card_for("msg_stream_connect", Some("📡"), payload);
    assert_eq!(card.icon, "📡");
    assert_eq!(card.title, "Msg Stream Connect");
    assert_eq!(card.rows.len(), 1);
    assert_eq!(card.rows[0].value, "7 bytes");
    assert_eq!(card.rows[0].extra.as_deref(), Some(pretty_b64(payload).as_str()));
    let card = card_for("msg_stream_connect", None, payload);
    assert_eq!(card.icon, "");
}

#[test]
fn card_text_of_an_event() {
    let text = render_event_card(&event("queue_intent", br#"{"intent":"send_message"}"#, None));
    assert_eq!(text, "<div class=\"card\"><h4>📥 Intent Queued</h4><p class=\"subhead\"></p><ul></ul></div>");

    let text = render_event_card(&event("queue_intent", br#"{"intent":"sync"}"#, Some("*")));
    assert_eq!(
        text,
        "<div class=\"card\"><h4>* Intent Queued</h4><p class=\"subhead\"></p><ul><li>📥 Intent: sync</li></ul></div>"
    );

    let payload = br#"{"prev_epoch":1,"new_epoch":2}"#;
    let text = render_event_card(&event("epoch_change", payload, None));
    let expected = format!(
        "<div class=\"card\"><h4>🔁 Epoch Changed</h4><p class=\"subhead\"></p><ul><li>🔁 Epoch: 2 (from 1)<pre class=\"extra\">{}</pre></li></ul></div>",
        pretty_b64(payload)
    );
    assert_eq!(text, expected);
}

#[test]
fn rendering_is_deterministic() {
    let e = event("epoch_change", br#"{"prev_epoch":3}"#, None);
    assert_eq!(render_event_card(&e), render_event_card(&e));
}

#[test]
fn subhead_comes_from_the_empty_key() {
    let card = card_for("queue_intent", None, br#"{"":"group 7","intent":"sync"}"#);
    assert_eq!(card.subhead, "group 7");
    let card = card_for("queue_intent", None, br#"{"":5,"intent":"sync"}"#);
    assert_eq!(card.subhead, "");
    let card = card_for("msg_stream_connect", None, b"not json");
    assert_eq!(card.subhead, "");
    let text = render_event_card(&event("msg_stream_connect", br#"{"":"hi"}"#, Some("x")));
    assert!(text.starts_with("<div class=\"card\"><h4>x Msg Stream Connect</h4><p class=\"subhead\">hi</p><ul>"));
}

#[test]
fn base64_attachment_padding() {
    // One, two and three bytes of payload that is not JSON.
    for (raw, b64) in [(&b"\xff"[..], "/w=="), (b"\xff\xfe", "//4="), (b"\xfb\xff\xbf", "+/+/")] {
        let card = card_for("unknown_kind", None, raw);
        assert_eq!(card.rows[0].extra.as_deref(), Some(b64));
    }
}
