//! The elements that an archive source yields, as the decoder sees them.

use vstd::prelude::*;

verus! {

/// An event of the log.
pub struct EventRecord {
    /// The event's kind, in snake_case; it decides the schema of `details`.
    pub kind: String,
    /// The kind-dependent detail payload (JSON).
    pub details: Vec<u8>,
    /// An icon glyph chosen by the event's producer.
    pub icon: Option<String>,
    /// The identifier of the group that the event belongs to.
    pub group_id: Option<Vec<u8>>,
    /// When the event was created, in nanoseconds since the epoch.
    pub created_at_ns: i64,
}

/// A group (conversation) of the log.
pub struct GroupRecord {
    /// The group's fixed-width identifier.
    pub id: Vec<u8>,
    /// The display name from the group's attributes.
    pub name: Option<String>,
}

/// One element of the archive.
pub enum ArchiveElement {
    Event(EventRecord),
    Group(GroupRecord),
    /// Any other element; the decoder drops it.
    Other,
}

/// What the archive source yields at one step.
pub enum SourceItem {
    /// A well-formed element.
    Element(ArchiveElement),
    /// An element that could not be read; it is skipped.
    Malformed,
    /// An error that ends the source.
    Fatal,
}

} // verus!
