//! Cards: the rows of human-readable metrics that one event is rendered as.

use vstd::prelude::*;

use crate::archive::EventRecord;
use crate::encoding::{base64_encode, base64_text, decimal, decimal_text, title_case, title_from_name};
use vstd::string::StringExecFns;

verus! {

/// The unsigned integer under `key`, when the payload is a JSON object holding one there.
pub uninterp spec fn json_u64_of(payload: Seq<u8>, key: Seq<char>) -> Option<u64>;

/// The string under `key`, when the payload is a JSON object holding one there.
pub uninterp spec fn json_str_of(payload: Seq<u8>, key: Seq<char>) -> Option<Seq<char>>;

/// The payload pretty-printed, when it is JSON.
pub uninterp spec fn json_pretty_of(payload: Seq<u8>) -> Option<Seq<u8>>;

/// Relies on `serde_json::from_slice` into a `serde_json::Value`, then
/// `Value::get` and `Value::as_u64`: the unsigned integer under `key` of a JSON
/// object, `None` for anything else.
#[verifier::external_body]
fn json_u64_field(payload: &[u8], key: &str) -> (r: Option<u64>)
    ensures
        r == json_u64_of(payload@, key@),
{
    serde_json::from_slice::<serde_json::Value>(payload).ok()?.get(key)?.as_u64()
}

/// Relies on `serde_json::from_slice` into a `serde_json::Value`, then
/// `Value::get` and `Value::as_str`: the string under `key` of a JSON object,
/// `None` for anything else.
#[verifier::external_body]
fn json_str_field(payload: &[u8], key: &str) -> (r: Option<String>)
    ensures
        match r {
            Some(s) => json_str_of(payload@, key@) == Some(s@),
            None => json_str_of(payload@, key@) is None,
        },
{
    let value = serde_json::from_slice::<serde_json::Value>(payload).ok()?;
    value.get(key)?.as_str().map(|s| s.to_string())
}

/// Relies on `serde_json::from_slice` into a `serde_json::Value`, then
/// `serde_json::to_vec_pretty`: the payload pretty-printed, `None` when it is
/// not JSON.
#[verifier::external_body]
fn json_pretty(payload: &[u8]) -> (r: Option<Vec<u8>>)
    ensures
        match r {
            Some(v) => json_pretty_of(payload@) == Some(v@),
            None => json_pretty_of(payload@) is None,
        },
{
    let value = serde_json::from_slice::<serde_json::Value>(payload).ok()?;
    serde_json::to_vec_pretty(&value).ok()
}

/// One metric of a card.
pub struct MetricRow {
    pub icon: String,
    pub label: String,
    pub value: String,
    /// The value it changed from, if it is a change.
    pub changed_from: Option<String>,
    /// A diagnostic attachment, base64-encoded.
    pub extra: Option<String>,
}

/// What a metric row holds.
pub struct RowView {
    pub icon: Seq<char>,
    pub label: Seq<char>,
    pub value: Seq<char>,
    pub changed_from: Option<Seq<char>>,
    pub extra: Option<Seq<char>>,
}

/// The view of an optional string.
pub open spec fn opt_text(o: Option<String>) -> Option<Seq<char>> {
    match o {
        Some(s) => Some(s@),
        None => None,
    }
}

impl View for MetricRow {
    type V = RowView;

    open spec fn view(&self) -> RowView {
        RowView {
            icon: self.icon@,
            label: self.label@,
            value: self.value@,
            changed_from: opt_text(self.changed_from),
            extra: opt_text(self.extra),
        }
    }
}

/// The card of one event: its icon, its title, its sub-heading and its rows.
pub struct Card {
    pub icon: String,
    pub title: String,
    pub subhead: String,
    pub rows: Vec<MetricRow>,
}

/// The views of some rows.
pub open spec fn rows_view(rows: Seq<MetricRow>) -> Seq<RowView> {
    rows.map_values(|r: MetricRow| r@)
}

/// The kind of an epoch change.
pub open spec fn epoch_change_kind() -> Seq<char> {
    "epoch_change"@
}

/// The kind of a queued intent.
pub open spec fn queue_intent_kind() -> Seq<char> {
    "queue_intent"@
}

/// The intent that is queued most of the time, and shows no row.
pub open spec fn common_intent() -> Seq<char> {
    "send_message"@
}

/// The glyph of a known kind.
pub open spec fn kind_glyph(kind: Seq<char>) -> Option<Seq<char>> {
    if kind == epoch_change_kind() {
        Some("🔁"@)
    } else if kind == queue_intent_kind() {
        Some("📥"@)
    } else {
        None
    }
}

/// The title of a kind: from the table for a known kind, else the kind's name
/// as words.
pub open spec fn kind_title(kind: Seq<char>) -> Seq<char> {
    if kind == epoch_change_kind() {
        "Epoch Changed"@
    } else if kind == queue_intent_kind() {
        "Intent Queued"@
    } else {
        title_case(kind)
    }
}

/// The icon of a card: the event's own, else the glyph of its kind, else none.
pub open spec fn card_icon(kind: Seq<char>, icon: Option<Seq<char>>) -> Seq<char> {
    match icon {
        Some(i) => i,
        None => match kind_glyph(kind) {
            Some(g) => g,
            None => Seq::empty(),
        },
    }
}

/// The sub-heading of a card: the string under the payload's empty key, or
/// nothing.
pub open spec fn card_subhead(payload: Seq<u8>) -> Seq<char> {
    match json_str_of(payload, ""@) {
        Some(s) => s,
        None => Seq::empty(),
    }
}

/// The bytes that a diagnostic attachment of the payload shows: the payload
/// pretty-printed when it is JSON, else the payload itself.
pub open spec fn attached_bytes(payload: Seq<u8>) -> Seq<u8> {
    match json_pretty_of(payload) {
        Some(p) => p,
        None => payload,
    }
}

/// The diagnostic attachment of a payload, base64-encoded; none when it could
/// not be encoded in memory.
pub open spec fn attachment_of(payload: Seq<u8>) -> Option<Seq<char>> {
    if attached_bytes(payload).len() <= usize::MAX / 2 {
        Some(base64_text(attached_bytes(payload)))
    } else {
        None
    }
}

/// The rows of an epoch change: the new epoch, changed from the previous one,
/// with the payload attached.
pub open spec fn epoch_rows(payload: Seq<u8>) -> Option<Seq<RowView>> {
    match (json_u64_of(payload, "prev_epoch"@), json_u64_of(payload, "new_epoch"@)) {
        (Some(prev), Some(new)) => Some(
            seq![
                RowView {
                    icon: "🔁"@,
                    label: "Epoch"@,
                    value: decimal_text(new as nat),
                    changed_from: Some(decimal_text(prev as nat)),
                    extra: attachment_of(payload),
                },
            ],
        ),
        _ => None,
    }
}

/// The rows of a queued intent: one naming the intent, or none for the common
/// intent.
pub open spec fn intent_rows(payload: Seq<u8>) -> Option<Seq<RowView>> {
    match json_str_of(payload, "intent"@) {
        Some(intent) => if intent == common_intent() {
            Some(Seq::empty())
        } else {
            Some(
                seq![
                    RowView {
                        icon: "📥"@,
                        label: "Intent"@,
                        value: intent,
                        changed_from: None,
                        extra: None,
                    },
                ],
            )
        },
        None => None,
    }
}

/// The rows of a known kind whose payload fits the kind's schema.
pub open spec fn kind_rows(kind: Seq<char>, payload: Seq<u8>) -> Option<Seq<RowView>> {
    if kind == epoch_change_kind() {
        epoch_rows(payload)
    } else if kind == queue_intent_kind() {
        intent_rows(payload)
    } else {
        None
    }
}

/// The generic row: the payload's size, with the payload attached.
pub open spec fn fallback_row(payload: Seq<u8>) -> RowView {
    RowView {
        icon: "🔍"@,
        label: "Details"@,
        value: decimal_text(payload.len()) + " bytes"@,
        changed_from: None,
        extra: attachment_of(payload),
    }
}

/// The rows of an event's card: those of its kind, or the generic row when
/// the kind is unknown or the payload does not fit its schema.
pub open spec fn card_rows(kind: Seq<char>, payload: Seq<u8>) -> Seq<RowView> {
    match kind_rows(kind, payload) {
        Some(rows) => rows,
        None => seq![fallback_row(payload)],
    }
}

fn attachment(payload: &[u8]) -> (r: Option<String>)
    ensures
        opt_text(r) == attachment_of(payload@),
{
    let bytes = match json_pretty(payload) {
        Some(p) => p,
        None => vstd::slice::slice_to_vec(payload),
    };
    if bytes.len() <= usize::MAX / 2 {
        Some(base64_encode(bytes.as_slice()))
    } else {
        None
    }
}

fn epoch_change_rows(payload: &[u8]) -> (r: Option<Vec<MetricRow>>)
    ensures
        match r {
            Some(v) => epoch_rows(payload@) == Some(rows_view(v@)),
            None => epoch_rows(payload@) is None,
        },
{
    let prev = json_u64_field(payload, "prev_epoch");
    let new = json_u64_field(payload, "new_epoch");
    match (prev, new) {
        (Some(prev), Some(new)) => {
            let row = MetricRow {
                icon: String::from_str("🔁"),
                label: String::from_str("Epoch"),
                value: decimal(new),
                changed_from: Some(decimal(prev)),
                extra: attachment(payload),
            };
            let rows = vec![row];
            assert(rows_view(rows@) =~= epoch_rows(payload@)->0);
            Some(rows)
        },
        _ => None,
    }
}

fn queued_intent_rows(payload: &[u8]) -> (r: Option<Vec<MetricRow>>)
    ensures
        match r {
            Some(v) => intent_rows(payload@) == Some(rows_view(v@)),
            None => intent_rows(payload@) is None,
        },
{
    match json_str_field(payload, "intent") {
        Some(intent) => {
            if intent == String::from_str("send_message") {
                let rows: Vec<MetricRow> = Vec::new();
                assert(rows_view(rows@) =~= Seq::<RowView>::empty());
                Some(rows)
            } else {
                let row = MetricRow {
                    icon: String::from_str("📥"),
                    label: String::from_str("Intent"),
                    value: intent,
                    changed_from: None,
                    extra: None,
                };
                let rows = vec![row];
                assert(rows_view(rows@) =~= intent_rows(payload@)->0);
                Some(rows)
            }
        },
        None => None,
    }
}

fn generic_row(payload: &[u8]) -> (r: MetricRow)
    ensures
        r@ == fallback_row(payload@),
{
    let mut value = decimal(payload.len() as u64);
    value.append(" bytes");
    MetricRow {
        icon: String::from_str("🔍"),
        label: String::from_str("Details"),
        value,
        changed_from: None,
        extra: attachment(payload),
    }
}

/// The card of an event of `kind` with detail payload `details`, carrying the
/// event's own `icon` if it has one. Every kind and payload gives a card: an
/// unknown kind, or a payload that does not fit its kind's schema, gives the
/// generic row.
pub fn card_for(kind: &str, icon: Option<&str>, details: &[u8]) -> (card: Card)
    ensures
        card.icon@ == card_icon(kind@, crate::store::text_of(icon)),
        card.title@ == kind_title(kind@),
        card.subhead@ == card_subhead(details@),
        rows_view(card.rows@) == card_rows(kind@, details@),
        kind_rows(kind@, details@) is None ==> rows_view(card.rows@) == seq![fallback_row(details@)],
{
    let name = String::from_str(kind);
    let is_epoch = name == String::from_str("epoch_change");
    let is_intent = name == String::from_str("queue_intent");
    let glyph = if is_epoch {
        Some(String::from_str("🔁"))
    } else if is_intent {
        Some(String::from_str("📥"))
    } else {
        None
    };
    let card_icon = match icon {
        Some(i) => String::from_str(i),
        None => match glyph {
            Some(g) => g,
            None => String::new(),
        },
    };
    let title = if is_epoch {
        String::from_str("Epoch Changed")
    } else if is_intent {
        String::from_str("Intent Queued")
    } else {
        title_from_name(kind)
    };
    let kind_specific = if is_epoch {
        epoch_change_rows(details)
    } else if is_intent {
        queued_intent_rows(details)
    } else {
        None
    };
    let rows = match kind_specific {
        Some(rows) => rows,
        None => {
            let rows = vec![generic_row(details)];
            assert(rows_view(rows@) =~= seq![fallback_row(details@)]);
            rows
        },
    };
    let subhead = match json_str_field(details, "") {
        Some(s) => s,
        None => String::new(),
    };
    Card { icon: card_icon, title, subhead, rows }
}

/// The text of one row.
pub open spec fn row_text(r: RowView) -> Seq<char> {
    let head = "<li>"@ + r.icon + " "@ + r.label + ": "@ + r.value;
    let with_prev = match r.changed_from {
        Some(p) => head + " (from "@ + p + ")"@,
        None => head,
    };
    let with_extra = match r.extra {
        Some(x) => with_prev + "<pre class=\"extra\">"@ + x + "</pre>"@,
        None => with_prev,
    };
    with_extra + "</li>"@
}

/// The text of some rows, one after the other.
pub open spec fn rows_text(rows: Seq<RowView>) -> Seq<char>
    decreases rows.len(),
{
    if rows.len() == 0 {
        Seq::empty()
    } else {
        rows_text(rows.drop_last()) + row_text(rows.last())
    }
}

/// The display text of a card.
pub open spec fn card_text(icon: Seq<char>, title: Seq<char>, subhead: Seq<char>, rows: Seq<RowView>) -> Seq<char> {
    "<div class=\"card\"><h4>"@ + icon + " "@ + title + "</h4><p class=\"subhead\">"@ + subhead + "</p><ul>"@
        + rows_text(rows) + "</ul></div>"@
}

fn append_row(out: &mut String, r: &MetricRow)
    ensures
        final(out)@ == old(out)@ + row_text(r@),
{
    out.append("<li>");
    out.append(r.icon.as_str());
    out.append(" ");
    out.append(r.label.as_str());
    out.append(": ");
    out.append(r.value.as_str());
    match &r.changed_from {
        Some(p) => {
            out.append(" (from ");
            out.append(p.as_str());
            out.append(")");
        },
        None => {},
    }
    match &r.extra {
        Some(x) => {
            out.append("<pre class=\"extra\">");
            out.append(x.as_str());
            out.append("</pre>");
        },
        None => {},
    }
    out.append("</li>");
    let ghost r_v = r@;
    assert(final(out)@ =~= old(out)@ + row_text(r_v));
}

impl Card {
    /// The card as display text.
    pub fn to_text(&self) -> (t: String)
        ensures
            t@ == card_text(self.icon@, self.title@, self.subhead@, rows_view(self.rows@)),
    {
        let mut out = String::from_str("<div class=\"card\"><h4>");
        out.append(self.icon.as_str());
        out.append(" ");
        out.append(self.title.as_str());
        out.append("</h4><p class=\"subhead\">");
        out.append(self.subhead.as_str());
        out.append("</p><ul>");
        let ghost head = out@;
        let mut i: usize = 0;
        assert(rows_view(self.rows@).subrange(0, 0) =~= Seq::<RowView>::empty());
        while i < self.rows.len()
            invariant
                i <= self.rows@.len(),
                out@ == head + rows_text(rows_view(self.rows@).subrange(0, i as int)),
            decreases self.rows@.len() - i,
        {
            let ghost before = out@;
            append_row(&mut out, &self.rows[i]);
            let ghost rv = rows_view(self.rows@);
            assert(rv.subrange(0, i + 1).drop_last() =~= rv.subrange(0, i as int));
            assert(out@ =~= head + rows_text(rv.subrange(0, i + 1)));
            i = i + 1;
        }
        assert(rows_view(self.rows@).subrange(0, i as int) =~= rows_view(self.rows@));
        out.append("</ul></div>");
        out
    }
}

/// The display text of an event's card: a pure function of the event's kind,
/// icon and detail payload.
pub fn render_event_card(event: &EventRecord) -> (t: String)
    ensures
        t@ == card_text(
            card_icon(event.kind@, opt_text(event.icon)),
            kind_title(event.kind@),
            card_subhead(event.details@),
            card_rows(event.kind@, event.details@),
        ),
{
    let icon = match &event.icon {
        Some(i) => Some(i.as_str()),
        None => None,
    };
    let card = card_for(event.kind.as_str(), icon, event.details.as_slice());
    card.to_text()
}

/// Graceful degradation: an event of a known kind whose payload does not fit
/// the kind's schema (an epoch change without a readable previous epoch, say)
/// still renders, under the kind's title, with the generic row alone.
pub proof fn lemma_corrupt_payload_falls_back(kind: Seq<char>, icon: Option<Seq<char>>, payload: Seq<u8>)
    requires
        kind_glyph(kind) is Some,
        kind_rows(kind, payload) is None,
    ensures
        card_rows(kind, payload) == seq![fallback_row(payload)],
        card_icon(kind, icon) == (match icon {
            Some(i) => i,
            None => kind_glyph(kind)->0,
        }),
        json_u64_of(payload, "prev_epoch"@) is None ==> kind_rows(epoch_change_kind(), payload) is None,
        json_str_of(payload, "intent"@) is None ==> kind_rows(queue_intent_kind(), payload) is None,
{
    assert(epoch_change_kind() != queue_intent_kind()) by {
        reveal_strlit("epoch_change");
        reveal_strlit("queue_intent");
        assert(epoch_change_kind()[0] != queue_intent_kind()[0]);
    }
}

} // verus!
