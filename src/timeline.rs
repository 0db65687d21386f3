//! The timeline: the archive's groups as lanes, and its events as entries,
//! both in the order the archive source yields them.

use vstd::prelude::*;

use crate::archive::{ArchiveElement, EventRecord, GroupRecord, SourceItem};
use crate::card::{card_icon, card_rows, card_subhead, card_text, kind_title, opt_text, render_event_card};
use crate::encoding::{hex_encode, hex_text};
use vstd::string::StringExecFns;

verus! {

/// A lane: a group of the archive, or the default lane.
pub struct Lane {
    pub id: String,
    pub content: String,
}

/// One event on the timeline.
pub struct TimelineEntry {
    /// The event's ordinal among the decoded events, from zero.
    pub id: usize,
    /// The event's card, as display text.
    pub content: String,
    /// When the event was created, in milliseconds.
    pub start: i64,
    /// The id of the event's lane.
    pub group: String,
    /// The style class of the entry.
    pub class_name: String,
}

/// The lanes and the entries decoded so far.
pub struct Timeline {
    pub lanes: Vec<Lane>,
    pub entries: Vec<TimelineEntry>,
}

/// The id (and content) of the default lane, for events without a group.
pub open spec fn global_lane_id() -> Seq<char> {
    "Global"@
}

/// The style class of every entry.
pub open spec fn entry_style() -> Seq<char> {
    "blech"@
}

/// What a lane for a group shows: its id, then its display name.
pub open spec fn lane_content(id: Seq<char>, name: Seq<char>) -> Seq<char> {
    id + "<br />"@ + name
}

/// The display name of a group, empty when it has none.
pub open spec fn group_name(g: GroupRecord) -> Seq<char> {
    match g.name {
        Some(n) => n@,
        None => Seq::empty(),
    }
}

/// Whether `lane` is the default lane.
pub open spec fn is_global_lane(lane: Lane) -> bool {
    lane.id@ == global_lane_id() && lane.content@ == global_lane_id()
}

/// Whether `lane` is the lane of group `g`: its id is the group's id in hex.
pub open spec fn lane_fits(lane: Lane, g: GroupRecord) -> bool {
    lane.id@ == hex_text(g.id@) && lane.content@ == lane_content(hex_text(g.id@), group_name(g))
}

/// The lane of an event: its group's id in hex, or the default lane.
pub open spec fn event_lane(e: EventRecord) -> Seq<char> {
    match e.group_id {
        Some(g) => hex_text(g@),
        None => global_lane_id(),
    }
}

/// Milliseconds from nanoseconds, rounded toward zero.
pub open spec fn ns_to_ms(ns: i64) -> int {
    if ns >= 0 {
        ns / 1_000_000
    } else {
        -((-ns) / 1_000_000)
    }
}

/// Whether `entry` is event `e` as the entry of the given ordinal.
pub open spec fn entry_fits(entry: TimelineEntry, ordinal: int, e: EventRecord) -> bool {
    &&& entry.id == ordinal
    &&& entry.content@ == card_text(
        card_icon(e.kind@, opt_text(e.icon)),
        kind_title(e.kind@),
        card_subhead(e.details@),
        card_rows(e.kind@, e.details@),
    )
    &&& entry.start == ns_to_ms(e.created_at_ns)
    &&& entry.group@ == event_lane(e)
    &&& entry.class_name@ == entry_style()
}

/// The groups among some source items, in order.
pub open spec fn groups_in(items: Seq<SourceItem>) -> Seq<GroupRecord>
    decreases items.len(),
{
    if items.len() == 0 {
        Seq::empty()
    } else {
        match items.last() {
            SourceItem::Element(ArchiveElement::Group(g)) => groups_in(items.drop_last()).push(g),
            _ => groups_in(items.drop_last()),
        }
    }
}

/// The events among some source items, in order.
pub open spec fn events_in(items: Seq<SourceItem>) -> Seq<EventRecord>
    decreases items.len(),
{
    if items.len() == 0 {
        Seq::empty()
    } else {
        match items.last() {
            SourceItem::Element(ArchiveElement::Event(e)) => events_in(items.drop_last()).push(e),
            _ => events_in(items.drop_last()),
        }
    }
}

/// How many items come before the first fatal one (all of them if none is).
pub open spec fn live_len(items: Seq<SourceItem>) -> nat
    decreases items.len(),
{
    if items.len() == 0 {
        0
    } else if items[0] is Fatal {
        0
    } else {
        1 + live_len(items.drop_first())
    }
}

/// Whether a timeline holds the default lane, then one lane per group of
/// `groups`, and one entry per event of `events`, all in order.
pub open spec fn timeline_of(t: Timeline, groups: Seq<GroupRecord>, events: Seq<EventRecord>) -> bool {
    &&& t.lanes@.len() == groups.len() + 1
    &&& is_global_lane(t.lanes@[0])
    &&& forall|k: int| 0 <= k < groups.len() ==> lane_fits(#[trigger] t.lanes@[k + 1], groups[k])
    &&& t.entries@.len() == events.len()
    &&& forall|k: int| 0 <= k < events.len() ==> entry_fits(#[trigger] t.entries@[k], k, events[k])
}

/// Milliseconds from nanoseconds, rounded toward zero.
pub fn millis_from_nanos(ns: i64) -> (ms: i64)
    ensures
        ms == ns_to_ms(ns),
{
    ns / 1_000_000
}

fn global_lane() -> (lane: Lane)
    ensures
        is_global_lane(lane),
{
    Lane { id: String::from_str("Global"), content: String::from_str("Global") }
}

/// The lane of a group.
pub fn lane_for_group(g: &GroupRecord) -> (lane: Lane)
    ensures
        lane_fits(lane, *g),
{
    let id = hex_encode(g.id.as_slice());
    let mut content = hex_encode(g.id.as_slice());
    content.append("<br />");
    match &g.name {
        Some(n) => content.append(n.as_str()),
        None => {},
    }
    assert(content@ =~= lane_content(hex_text(g.id@), group_name(*g)));
    Lane { id, content }
}

/// The entry of an event, with the given ordinal.
pub fn entry_for_event(e: &EventRecord, ordinal: usize) -> (entry: TimelineEntry)
    ensures
        entry_fits(entry, ordinal as int, *e),
{
    let group = match &e.group_id {
        Some(g) => hex_encode(g.as_slice()),
        None => String::from_str("Global"),
    };
    TimelineEntry {
        id: ordinal,
        content: render_event_card(e),
        start: millis_from_nanos(e.created_at_ns),
        group,
        class_name: String::from_str("blech"),
    }
}

/// What a single item contributes.
proof fn lemma_single_item(item: SourceItem)
    ensures
        groups_in(seq![item]) == (match item {
            SourceItem::Element(ArchiveElement::Group(g)) => seq![g],
            _ => Seq::<GroupRecord>::empty(),
        }),
        events_in(seq![item]) == (match item {
            SourceItem::Element(ArchiveElement::Event(e)) => seq![e],
            _ => Seq::<EventRecord>::empty(),
        }),
{
    let one = seq![item];
    assert(one.drop_last() =~= Seq::<SourceItem>::empty());
    assert(one.last() == item);
    reveal_with_fuel(groups_in, 2);
    reveal_with_fuel(events_in, 2);
    assert(Seq::<GroupRecord>::empty().push(item->Element_0->Group_0) =~= seq![item->Element_0->Group_0]);
    assert(Seq::<EventRecord>::empty().push(item->Element_0->Event_0) =~= seq![item->Element_0->Event_0]);
}

impl Timeline {
    /// A timeline with the default lane alone.
    pub fn new() -> (t: Timeline)
        ensures
            timeline_of(t, Seq::empty(), Seq::empty()),
    {
        Timeline { lanes: vec![global_lane()], entries: Vec::new() }
    }

    /// Takes the next item of the source, and returns whether decoding goes on.
    /// A group adds its lane; an event adds its entry, with the next ordinal;
    /// any other element and a malformed one are skipped; a fatal error ends
    /// decoding and changes nothing.
    pub fn take(&mut self, item: &SourceItem) -> (go_on: bool)
        ensures
            go_on == !(item is Fatal),
            forall|groups: Seq<GroupRecord>, events: Seq<EventRecord>|
                #[trigger] timeline_of(*old(self), groups, events) ==> timeline_of(
                    *final(self),
                    groups + groups_in(seq![*item]),
                    events + events_in(seq![*item]),
                ),
    {
        let ghost one = seq![*item];
        proof {
            lemma_single_item(*item);
        }
        match item {
            SourceItem::Fatal => {
                assert forall|groups: Seq<GroupRecord>, events: Seq<EventRecord>|
                    #[trigger] timeline_of(*old(self), groups, events) implies timeline_of(
                        *self,
                        groups + groups_in(one),
                        events + events_in(one),
                    ) by {
                    assert(groups + groups_in(one) =~= groups);
                    assert(events + events_in(one) =~= events);
                }
                false
            },
            SourceItem::Malformed | SourceItem::Element(ArchiveElement::Other) => {
                assert forall|groups: Seq<GroupRecord>, events: Seq<EventRecord>|
                    #[trigger] timeline_of(*old(self), groups, events) implies timeline_of(
                        *self,
                        groups + groups_in(one),
                        events + events_in(one),
                    ) by {
                    assert(groups + groups_in(one) =~= groups);
                    assert(events + events_in(one) =~= events);
                }
                true
            },
            SourceItem::Element(ArchiveElement::Group(g)) => {
                let lane = lane_for_group(g);
                self.lanes.push(lane);
                assert forall|groups: Seq<GroupRecord>, events: Seq<EventRecord>|
                    #[trigger] timeline_of(*old(self), groups, events) implies timeline_of(
                        *self,
                        groups + groups_in(one),
                        events + events_in(one),
                    ) by {
                    let gs = groups + groups_in(one);
                    assert(gs =~= groups.push(*g));
                    assert(events + events_in(one) =~= events);
                    assert forall|k: int| 0 <= k < gs.len() implies lane_fits(
                        #[trigger] self.lanes@[k + 1],
                        gs[k],
                    ) by {
                        if k < groups.len() {
                            assert(self.lanes@[k + 1] == old(self).lanes@[k + 1]);
                        }
                    }
                }
                true
            },
            SourceItem::Element(ArchiveElement::Event(e)) => {
                let n = self.entries.len();
                let entry = entry_for_event(e, n);
                self.entries.push(entry);
                assert forall|groups: Seq<GroupRecord>, events: Seq<EventRecord>|
                    #[trigger] timeline_of(*old(self), groups, events) implies timeline_of(
                        *self,
                        groups + groups_in(one),
                        events + events_in(one),
                    ) by {
                    let es = events + events_in(one);
                    assert(es =~= events.push(*e));
                    assert(groups + groups_in(one) =~= groups);
                    assert forall|k: int| 0 <= k < es.len() implies entry_fits(
                        #[trigger] self.entries@[k],
                        k,
                        es[k],
                    ) by {
                        if k < events.len() {
                            assert(self.entries@[k] == old(self).entries@[k]);
                        }
                    }
                }
                true
            },
        }
    }
}

/// Where decoding stops: at the first fatal item, or at the end.
pub proof fn lemma_live_len(items: Seq<SourceItem>, i: int)
    requires
        0 <= i <= items.len(),
        forall|k: int| 0 <= k < i ==> !(#[trigger] items[k] is Fatal),
        i == items.len() || items[i] is Fatal,
    ensures
        live_len(items) == i,
    decreases i,
{
    if i > 0 {
        let rest = items.drop_first();
        assert forall|k: int| 0 <= k < i - 1 implies !(#[trigger] rest[k] is Fatal) by {
            assert(rest[k] == items[k + 1]);
        }
        if i < items.len() {
            assert(rest[i - 1] == items[i]);
        }
        lemma_live_len(rest, i - 1);
    }
}

/// Decodes a whole source: the default lane, then a lane per group and an
/// entry per event, in the source's order, up to the first fatal item.
pub fn build_timeline(items: &Vec<SourceItem>) -> (t: Timeline)
    ensures
        timeline_of(
            t,
            groups_in(items@.subrange(0, live_len(items@) as int)),
            events_in(items@.subrange(0, live_len(items@) as int)),
        ),
{
    let mut t = Timeline::new();
    let mut i: usize = 0;
    assert(items@.subrange(0, 0) =~= Seq::<SourceItem>::empty());
    while i < items.len()
        invariant
            i <= items@.len(),
            forall|k: int| 0 <= k < i ==> !(#[trigger] items@[k] is Fatal),
            timeline_of(t, groups_in(items@.subrange(0, i as int)), events_in(items@.subrange(0, i as int))),
        ensures
            i <= items@.len(),
            i == items@.len() || items@[i as int] is Fatal,
        decreases items@.len() - i,
    {
        let ghost prefix = items@.subrange(0, i as int);
        let ghost next = items@.subrange(0, i + 1);
        let go_on = t.take(&items[i]);
        proof {
            lemma_single_item(items@[i as int]);
        }
        if !go_on {
            assert(groups_in(prefix) + groups_in(seq![items@[i as int]]) =~= groups_in(prefix));
            assert(events_in(prefix) + events_in(seq![items@[i as int]]) =~= events_in(prefix));
            break;
        }
        proof {
            assert(next.drop_last() =~= prefix);
            assert(next.last() == items@[i as int]);
            assert(groups_in(next) =~= groups_in(prefix) + groups_in(seq![items@[i as int]]));
            assert(events_in(next) =~= events_in(prefix) + events_in(seq![items@[i as int]]));
        }
        i = i + 1;
    }
    proof {
        lemma_live_len(items@, i as int);
    }
    t
}

/// Decoding a source with no fatal item reads all of it: one lane per group
/// after the default lane, one entry per event, each in the source's order.
pub proof fn lemma_whole_source_decoded(items: Seq<SourceItem>)
    requires
        forall|k: int| 0 <= k < items.len() ==> !(#[trigger] items[k] is Fatal),
    ensures
        live_len(items) == items.len(),
        items.subrange(0, live_len(items) as int) == items,
{
    lemma_live_len(items, items.len() as int);
    assert(items.subrange(0, items.len() as int) =~= items);
}

} // verus!
