//! An ephemeral blob relay: a size-bounded, integrity-guarded blob store with
//! age-based eviction, and a decoder that turns an archive's event/group log
//! into a browsable timeline.

pub mod encoding;
pub mod integrity;
pub mod store;
pub mod archive;
pub mod card;
pub mod timeline;
pub mod keyform;
