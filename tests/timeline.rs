use blob_relay::archive::{ArchiveElement, EventRecord, GroupRecord, SourceItem};
use blob_relay::card::render_event_card;
use blob_relay::timeline::{build_timeline, lane_for_group, millis_from_nanos, Timeline};

fn ev(kind: &str, group: Option<Vec<u8>>, ns: i64) -> EventRecord {
    EventRecord {
        kind: kind.to_string(),
        details: br#"{"intent":"sync"}"#.to_vec(),
        icon: None,
        group_id: group,
        created_at_ns: ns,
    }
}

fn group(id: Vec<u8>, name: Option<&str>) -> SourceItem {
    SourceItem::Element(ArchiveElement::Group(GroupRecord { id, name: name.map(|n| n.to_string()) }))
}

fn event(kind: &str, group: Option<Vec<u8>>, ns: i64) -> SourceItem {
    SourceItem::Element(ArchiveElement::Event(ev(kind, group, ns)))
}

#[test]
fn groups_and_events_become_lanes_and_entries_in_order() {
    let items = vec![
        group(vec![0xab, 0x01], Some("Friends")),
        event("queue_intent", Some(vec![0xab, 0x01]), 1_500_000_000),
        SourceItem::Element(ArchiveElement::Other),
        SourceItem::Malformed,
        group(vec![0xff], None),
        event("msg_stream_connect", None, 2_000_000),
        event("epoch_change", Some(vec![0xff]), 999_999),
    ];
    let t = build_timeline(&items);
    assert_eq!(t.lanes.len(), 3);
    assert_eq!(t.lanes[0].id, "Global");
    assert_eq!(t.lanes[0].content, "Global");
    assert_eq!(t.lanes[1].id, "ab01");
    assert_eq!(t.lanes[1].content, "ab01<br />Friends");
    assert_eq!(t.lanes[2].id, "ff");
    assert_eq!(t.lanes[2].content, "ff<br />");

    assert_eq!(t.entries.len(), 3);
    let ids: Vec<usize> = t.entries.iter().map(|e| e.id).collect();
    assert_eq!(ids, vec![0, 1, 2]);
    assert_eq!(t.entries[0].group, "ab01");
    assert_eq!(t.entries[0].start, 1500);
    assert_eq!(t.entries[0].content, render_event_card(&ev("queue_intent", None, 0)));
    assert_eq!(t.entries[1].group, "Global");
    assert_eq!(t.entries[1].start, 2);
    assert_eq!(t.entries[2].group, "ff");
    assert_eq!(t.entries[2].start, 0);
    assert!(t.entries.iter().all(|e| e.class_name == "blech"));
}

#[test]
fn empty_source_gives_the_default_lane_only() {
    let t = build_timeline(&vec![]);
    assert_eq!(t.lanes.len(), 1);
    assert_eq!(t.lanes[0].id, "Global");
    assert!(t.entries.is_empty());
}

#[test]
fn fatal_item_ends_decoding() {
    let items = vec![
        event("a", None, 0),
        SourceItem::Fatal,
        group(vec![1], None),
        event("b", None, 0),
    ];
    let t = build_timeline(&items);
    assert_eq!(t.lanes.len(), 1);
    assert_eq!(t.entries.len(), 1);

    let mut t = Timeline::new();
    assert!(t.take(&SourceItem::Malformed));
    assert!(!t.take(&SourceItem::Fatal));
    assert!(t.take(&group(vec![2], Some("x"))));
    assert_eq!(t.lanes.len(), 2);
}

#[test]
fn nanoseconds_to_milliseconds_round_toward_zero() {
    assert_eq!(millis_from_nanos(0), 0);
    assert_eq!(millis_from_nanos(1_999_999), 1);
    assert_eq!(millis_from_nanos(-1_500_000), -1);
    assert_eq!(millis_from_nanos(i64::MIN), i64::MIN / 1_000_000);
}

#[test]
fn lane_of_a_named_group() {
    let lane = lane_for_group(&GroupRecord { id: vec![0, 16, 255], name: Some("Team".to_string()) });
    assert_eq!(lane.id, "0010ff");
    assert_eq!(lane.content, "0010ff<br />Team");
}
