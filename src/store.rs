//! The blob store: payloads kept under random handles, with a size limit, an
//! optional integrity guard, and eviction by age.

use vstd::prelude::*;

use crate::encoding::{hex_bytes, hex_decode};
use crate::integrity::{tag_accepted, verify_tag};

verus! {

/// Largest payload accepted by default, in bytes.
pub const DEFAULT_SIZE_LIMIT: usize = 15_000_000;

/// How old a blob may grow before a sweep evicts it by default: seven days, in seconds.
pub const DEFAULT_RETENTION_SECS: u64 = 60 * 60 * 24 * 7;

/// Time between two sweeps by default: four hours, in seconds.
pub const DEFAULT_SWEEP_INTERVAL_SECS: u64 = 60 * 60 * 4;

/// Why a store operation failed.
#[derive(Clone, Copy, Debug, PartialEq, Eq, Structural)]
pub enum BlobError {
    /// The payload passed the size limit.
    PayloadTooLarge,
    /// The supplied tag is not the tag of the bytes under the key.
    IntegrityMismatch,
    /// No blob is stored under the handle.
    NotFound,
    /// A tag, or a per-request key, is required and was not supplied.
    MissingCredential,
    /// A supplied tag or key is not hex.
    MalformedCredential,
    /// The medium could not take the blob: its handle is already in use.
    StorageIO,
}

/// Whether, and with which key, blobs carry an integrity tag.
#[derive(Debug)]
pub enum IntegrityMode {
    /// No tag is asked for.
    Off,
    /// Tags are keyed with one secret shared by the whole store.
    SharedSecret(Vec<u8>),
    /// Each request brings its own key, hex-encoded.
    PerRequestKey,
}

/// What a stored blob is: its handle, its bytes, and when it was last modified
/// (in seconds).
pub struct BlobRecord {
    pub handle: u128,
    pub bytes: Seq<u8>,
    pub modified: u64,
}

/// One blob on the medium.
struct StoredBlob {
    handle: u128,
    bytes: Vec<u8>,
    modified: u64,
}

impl View for StoredBlob {
    type V = BlobRecord;

    closed spec fn view(&self) -> BlobRecord {
        BlobRecord { handle: self.handle, bytes: self.bytes@, modified: self.modified }
    }
}

/// The bytes stored under `handle`, if any: the latest record that carries it.
pub open spec fn stored(records: Seq<BlobRecord>, handle: u128) -> Option<Seq<u8>>
    decreases records.len(),
{
    if records.len() == 0 {
        None
    } else if records.last().handle == handle {
        Some(records.last().bytes)
    } else {
        stored(records.drop_last(), handle)
    }
}

/// No two records carry the same handle.
pub open spec fn unique_handles(records: Seq<BlobRecord>) -> bool {
    forall|i: int, j: int|
        #![trigger records[i], records[j]]
        0 <= i < records.len() && 0 <= j < records.len() && i != j ==> records[i].handle != records[j].handle
}

/// Whether a blob last modified at `modified` has reached the retention window at
/// `now`. A time stamp in the future is never expired.
pub open spec fn expired(modified: u64, now: u64, window: u64) -> bool {
    modified <= now && now - modified >= window
}

/// The records that a sweep at `now` keeps, in their order.
pub open spec fn retained(records: Seq<BlobRecord>, now: u64, window: u64) -> Seq<BlobRecord>
    decreases records.len(),
{
    if records.len() == 0 {
        Seq::empty()
    } else if expired(records.last().modified, now, window) {
        retained(records.drop_last(), now, window)
    } else {
        retained(records.drop_last(), now, window).push(records.last())
    }
}

/// The view of an optional text.
pub open spec fn text_of(t: Option<&str>) -> Option<Seq<char>> {
    match t {
        Some(s) => Some(s@),
        None => None,
    }
}

/// The outcome of the integrity guard on `bytes`, given the hex tag and hex key
/// that a request supplied.
pub open spec fn credential_check(
    mode: IntegrityMode,
    bytes: Seq<u8>,
    tag_hex: Option<Seq<char>>,
    key_hex: Option<Seq<char>>,
) -> Result<(), BlobError> {
    match mode {
        IntegrityMode::Off => Ok(()),
        _ => {
            if tag_hex is None {
                Err(BlobError::MissingCredential)
            } else if mode is PerRequestKey && key_hex is None {
                Err(BlobError::MissingCredential)
            } else if hex_bytes(tag_hex->0) is None {
                Err(BlobError::MalformedCredential)
            } else if mode is PerRequestKey && hex_bytes(key_hex->0) is None {
                Err(BlobError::MalformedCredential)
            } else {
                let key = match mode {
                    IntegrityMode::SharedSecret(k) => k@,
                    _ => hex_bytes(key_hex->0)->0,
                };
                if tag_accepted(bytes, key, hex_bytes(tag_hex->0)->0) {
                    Ok(())
                } else {
                    Err(BlobError::IntegrityMismatch)
                }
            }
        },
    }
}

/// Runs the integrity guard of `mode` on `bytes`.
pub fn check_credential(
    mode: &IntegrityMode,
    bytes: &[u8],
    tag_hex: Option<&str>,
    key_hex: Option<&str>,
) -> (r: Result<(), BlobError>)
    ensures
        r == credential_check(*mode, bytes@, text_of(tag_hex), text_of(key_hex)),
{
    let per_request = match mode {
        IntegrityMode::Off => {
            return Ok(());
        },
        IntegrityMode::SharedSecret(_) => false,
        IntegrityMode::PerRequestKey => true,
    };
    let tag_text = match tag_hex {
        Some(t) => t,
        None => {
            return Err(BlobError::MissingCredential);
        },
    };
    if per_request && key_hex.is_none() {
        return Err(BlobError::MissingCredential);
    }
    let tag = match hex_decode(tag_text) {
        Some(t) => t,
        None => {
            return Err(BlobError::MalformedCredential);
        },
    };
    let key = match mode {
        IntegrityMode::SharedSecret(k) => k.clone(),
        _ => match hex_decode(key_hex.unwrap()) {
            Some(k) => k,
            None => {
                return Err(BlobError::MalformedCredential);
            },
        },
    };
    match verify_tag(bytes, key.as_slice(), tag.as_slice()) {
        Ok(()) => Ok(()),
        Err(_) => Err(BlobError::IntegrityMismatch),
    }
}

/// Relies on `uuid::Uuid::new_v4`: a random version-4 identifier, as its 128-bit
/// value. Only its version bits (4) and variant bits (binary 10) are fixed.
#[verifier::external_body]
fn fresh_handle() -> (r: u128)
    ensures
        (r >> 76u128) & 0xfu128 == 4,
        (r >> 62u128) & 0x3u128 == 2,
{
    uuid::Uuid::new_v4().as_u128()
}

/// A payload being received chunk by chunk, before it is committed to a store.
pub struct Upload {
    received: Vec<u8>,
    limit: usize,
    aborted: bool,
}

impl Upload {
    /// The bytes received so far.
    pub closed spec fn received(&self) -> Seq<u8> {
        self.received@
    }

    /// The size limit of this upload.
    pub closed spec fn limit(&self) -> nat {
        self.limit as nat
    }

    /// Whether the upload passed its limit and was dropped.
    pub closed spec fn aborted(&self) -> bool {
        self.aborted
    }

    /// What is received never passes the limit.
    #[verifier::type_invariant]
    spec fn within_limit(self) -> bool {
        self.received@.len() <= self.limit
    }

    /// An empty upload that accepts at most `limit` bytes.
    pub fn new(limit: usize) -> (r: Upload)
        ensures
            r.received() == Seq::<u8>::empty(),
            r.limit() == limit,
            !r.aborted(),
    {
        Upload { received: Vec::new(), limit, aborted: false }
    }

    /// Takes the next chunk. When the running total would pass the limit, what
    /// was received is dropped, the upload is aborted and `PayloadTooLarge` is
    /// returned; so it is for every chunk after that.
    pub fn feed(&mut self, chunk: &[u8]) -> (r: Result<(), BlobError>)
        ensures
            final(self).limit() == old(self).limit(),
            old(self).aborted() ==> r == Err::<(), BlobError>(BlobError::PayloadTooLarge)
                && final(self).aborted() && final(self).received() == old(self).received(),
            !old(self).aborted() && old(self).received().len() + chunk@.len() <= old(self).limit()
                ==> r is Ok && !final(self).aborted() && final(self).received() == old(self).received() + chunk@,
            !old(self).aborted() && old(self).received().len() + chunk@.len() > old(self).limit()
                ==> r == Err::<(), BlobError>(BlobError::PayloadTooLarge) && final(self).aborted()
                && final(self).received() == Seq::<u8>::empty(),
    {
        proof {
            use_type_invariant(&*self);
        }
        if self.aborted {
            return Err(BlobError::PayloadTooLarge);
        }
        if chunk.len() > self.limit - self.received.len() {
            self.received = Vec::new();
            self.aborted = true;
            return Err(BlobError::PayloadTooLarge);
        }
        let mut received: Vec<u8> = Vec::new();
        std::mem::swap(&mut self.received, &mut received);
        received.extend_from_slice(chunk);
        assert(received@ =~= old(self).received@ + chunk@);
        self.received = received;
        Ok(())
    }
}

/// The blob store: the medium that holds every blob, under its handle.
pub struct BlobStore {
    blobs: Vec<StoredBlob>,
    limit: usize,
    mode: IntegrityMode,
}

spec fn records_of(blobs: Seq<StoredBlob>) -> Seq<BlobRecord> {
    blobs.map_values(|b: StoredBlob| b@)
}

impl BlobStore {
    /// The stored blobs, oldest first.
    pub closed spec fn records(&self) -> Seq<BlobRecord> {
        records_of(self.blobs@)
    }

    /// A handle names at most one blob.
    #[verifier::type_invariant]
    spec fn handles_unique(self) -> bool {
        unique_handles(self.records())
    }

    /// The largest payload accepted.
    pub closed spec fn size_limit(&self) -> nat {
        self.limit as nat
    }

    /// The integrity mode.
    pub closed spec fn mode(&self) -> IntegrityMode {
        self.mode
    }

    /// An empty store.
    pub fn new(limit: usize, mode: IntegrityMode) -> (r: BlobStore)
        ensures
            r.records() == Seq::<BlobRecord>::empty(),
            unique_handles(r.records()),
            r.size_limit() == limit,
            r.mode() == mode,
    {
        let blobs: Vec<StoredBlob> = Vec::new();
        assert(records_of(blobs@) =~= Seq::<BlobRecord>::empty());
        BlobStore { blobs, limit, mode }
    }

    /// The number of stored blobs.
    pub fn len(&self) -> (n: usize)
        ensures
            n == self.records().len(),
    {
        self.blobs.len()
    }

    /// An upload whose limit is the store's.
    pub fn begin_upload(&self) -> (r: Upload)
        ensures
            r.received() == Seq::<u8>::empty(),
            r.limit() == self.size_limit(),
            !r.aborted(),
    {
        Upload::new(self.limit)
    }

    /// The position of the blob that `stored` reads for `handle`.
    fn find(&self, handle: u128) -> (r: Option<usize>)
        ensures
            r matches Some(i) ==> i < self.blobs@.len() && stored(self.records(), handle) == Some(
                self.blobs@[i as int].bytes@,
            ),
            r is None ==> stored(self.records(), handle) is None,
    {
        let ghost recs = self.records();
        let mut i: usize = self.blobs.len();
        assert(recs.subrange(0, i as int) =~= recs);
        while i > 0
            invariant
                recs == self.records(),
                i <= self.blobs@.len(),
                stored(recs, handle) == stored(recs.subrange(0, i as int), handle),
            decreases i,
        {
            let ghost sub = recs.subrange(0, i as int);
            assert(sub.drop_last() =~= recs.subrange(0, i - 1));
            if self.blobs[i - 1].handle == handle {
                return Some(i - 1);
            }
            i = i - 1;
        }
        None
    }

    /// Commits a finished upload under `handle`, stamped `now`. An aborted upload
    /// fails with `PayloadTooLarge`, a refused credential with the guard's error,
    /// a handle already in use with `StorageIO`; otherwise the blob is stored.
    /// On failure the store is unchanged.
    pub fn finish_upload(
        &mut self,
        upload: Upload,
        handle: u128,
        now: u64,
        tag_hex: Option<&str>,
        key_hex: Option<&str>,
    ) -> (r: Result<u128, BlobError>)
        ensures
            final(self).size_limit() == old(self).size_limit(),
            final(self).mode() == old(self).mode(),
            unique_handles(final(self).records()),
            upload.aborted() ==> r == Err::<u128, BlobError>(BlobError::PayloadTooLarge),
            !upload.aborted() ==> match credential_check(
                old(self).mode(),
                upload.received(),
                text_of(tag_hex),
                text_of(key_hex),
            ) {
                Err(e) => r == Err::<u128, BlobError>(e),
                Ok(_) => if stored(old(self).records(), handle) is Some {
                    r == Err::<u128, BlobError>(BlobError::StorageIO)
                } else {
                    r == Ok::<u128, BlobError>(handle)
                },
            },
            r is Ok ==> final(self).records() == old(self).records().push(
                BlobRecord { handle, bytes: upload.received(), modified: now },
            ),
            r is Err ==> final(self).records() == old(self).records(),
    {
        proof {
            use_type_invariant(&*self);
        }
        if upload.aborted {
            return Err(BlobError::PayloadTooLarge);
        }
        let checked = check_credential(&self.mode, upload.received.as_slice(), tag_hex, key_hex);
        match checked {
            Err(e) => Err(e),
            Ok(()) => {
                if self.find(handle).is_some() {
                    return Err(BlobError::StorageIO);
                }
                let ghost before = self.records();
                let ghost added = BlobRecord { handle, bytes: upload.received(), modified: now };
                proof {
                    lemma_stored_none(before, handle);
                }
                let mut blobs: Vec<StoredBlob> = Vec::new();
                std::mem::swap(&mut self.blobs, &mut blobs);
                blobs.push(StoredBlob { handle, bytes: upload.received, modified: now });
                assert(records_of(blobs@) =~= before.push(added));
                assert(unique_handles(before.push(added))) by {
                    let after = before.push(added);
                    assert forall|i: int, j: int|
                        0 <= i < after.len() && 0 <= j < after.len() && i != j implies #[trigger] after[i].handle
                            != #[trigger] after[j].handle by {
                        if i < before.len() && j < before.len() {
                            assert(after[i] == before[i] && after[j] == before[j]);
                        } else if i < before.len() {
                            assert(after[i] == before[i]);
                        } else if j < before.len() {
                            assert(after[j] == before[j]);
                        }
                    }
                }
                self.blobs = blobs;
                Ok(handle)
            },
        }
    }

    /// Commits a finished upload under a fresh random handle, stamped `now`, and
    /// returns that handle. An aborted upload fails with `PayloadTooLarge`, a
    /// refused credential with the guard's error, and the rare random handle
    /// that is already in use with `StorageIO`, which therefore never happens
    /// on an empty store. On failure the store is unchanged.
    pub fn commit(&mut self, upload: Upload, now: u64, tag_hex: Option<&str>, key_hex: Option<&str>) -> (r:
        Result<u128, BlobError>)
        ensures
            final(self).size_limit() == old(self).size_limit(),
            final(self).mode() == old(self).mode(),
            unique_handles(final(self).records()),
            upload.aborted() ==> r == Err::<u128, BlobError>(BlobError::PayloadTooLarge),
            !upload.aborted() ==> match credential_check(
                old(self).mode(),
                upload.received(),
                text_of(tag_hex),
                text_of(key_hex),
            ) {
                Err(e) => r == Err::<u128, BlobError>(e),
                Ok(_) => r is Ok || r == Err::<u128, BlobError>(BlobError::StorageIO),
            },
            r == Err::<u128, BlobError>(BlobError::StorageIO) ==> old(self).records().len() > 0
                && exists|h: u128| #[trigger] stored(old(self).records(), h) is Some,
            r matches Ok(h) ==> stored(old(self).records(), h) is None && final(self).records()
                == old(self).records().push(BlobRecord { handle: h, bytes: upload.received(), modified: now }),
            r is Err ==> final(self).records() == old(self).records(),
    {
        let handle = fresh_handle();
        let r = self.finish_upload(upload, handle, now, tag_hex, key_hex);
        assert(r == Err::<u128, BlobError>(BlobError::StorageIO) ==> stored(old(self).records(), handle) is Some);
        r
    }

    /// Stores `payload` under `handle`, stamped `now`: the whole of an upload in
    /// one call.
    pub fn put_with_handle(
        &mut self,
        handle: u128,
        payload: &[u8],
        now: u64,
        tag_hex: Option<&str>,
        key_hex: Option<&str>,
    ) -> (r: Result<u128, BlobError>)
        ensures
            final(self).size_limit() == old(self).size_limit(),
            final(self).mode() == old(self).mode(),
            unique_handles(final(self).records()),
            payload@.len() > old(self).size_limit() ==> r == Err::<u128, BlobError>(
                BlobError::PayloadTooLarge,
            ),
            payload@.len() <= old(self).size_limit() ==> match credential_check(
                old(self).mode(),
                payload@,
                text_of(tag_hex),
                text_of(key_hex),
            ) {
                Err(e) => r == Err::<u128, BlobError>(e),
                Ok(_) => if stored(old(self).records(), handle) is Some {
                    r == Err::<u128, BlobError>(BlobError::StorageIO)
                } else {
                    r == Ok::<u128, BlobError>(handle)
                },
            },
            r is Ok ==> final(self).records() == old(self).records().push(
                BlobRecord { handle, bytes: payload@, modified: now },
            ),
            r is Err ==> final(self).records() == old(self).records(),
    {
        proof {
            use_type_invariant(&*self);
        }
        let mut upload = self.begin_upload();
        match upload.feed(payload) {
            Ok(()) => {},
            Err(e) => {
                return Err(e);
            },
        }
        self.finish_upload(upload, handle, now, tag_hex, key_hex)
    }

    /// Stores `payload` under a fresh random handle, stamped `now`, and returns
    /// that handle. A payload over the limit fails with `PayloadTooLarge`, a
    /// refused credential with the guard's error, and the rare random handle that
    /// is already in use with `StorageIO`, which therefore never happens on an
    /// empty store. On failure the store is unchanged.
    pub fn put(&mut self, payload: &[u8], now: u64, tag_hex: Option<&str>, key_hex: Option<&str>) -> (r:
        Result<u128, BlobError>)
        ensures
            final(self).size_limit() == old(self).size_limit(),
            final(self).mode() == old(self).mode(),
            unique_handles(final(self).records()),
            payload@.len() > old(self).size_limit() ==> r == Err::<u128, BlobError>(
                BlobError::PayloadTooLarge,
            ),
            payload@.len() <= old(self).size_limit() ==> match credential_check(
                old(self).mode(),
                payload@,
                text_of(tag_hex),
                text_of(key_hex),
            ) {
                Err(e) => r == Err::<u128, BlobError>(e),
                Ok(_) => r is Ok || r == Err::<u128, BlobError>(BlobError::StorageIO),
            },
            r == Err::<u128, BlobError>(BlobError::StorageIO) ==> old(self).records().len() > 0
                && exists|h: u128| #[trigger] stored(old(self).records(), h) is Some,
            r matches Ok(h) ==> stored(old(self).records(), h) is None && final(self).records()
                == old(self).records().push(BlobRecord { handle: h, bytes: payload@, modified: now }),
            r is Err ==> final(self).records() == old(self).records(),
    {
        let handle = fresh_handle();
        let r = self.put_with_handle(handle, payload, now, tag_hex, key_hex);
        assert(r == Err::<u128, BlobError>(BlobError::StorageIO) ==> stored(old(self).records(), handle) is Some);
        r
    }

    /// The bytes stored under `handle`, after the integrity guard. An unknown
    /// handle fails with `NotFound`. The store is not changed.
    pub fn get(&self, handle: u128, tag_hex: Option<&str>, key_hex: Option<&str>) -> (r: Result<
        Vec<u8>,
        BlobError,
    >)
        ensures
            stored(self.records(), handle) is None ==> r == Err::<Vec<u8>, BlobError>(
                BlobError::NotFound,
            ),
            stored(self.records(), handle) matches Some(b) ==> match credential_check(
                self.mode(),
                b,
                text_of(tag_hex),
                text_of(key_hex),
            ) {
                Err(e) => r == Err::<Vec<u8>, BlobError>(e),
                Ok(_) => r matches Ok(v) && v@ == b,
            },
    {
        match self.find(handle) {
            None => Err(BlobError::NotFound),
            Some(i) => {
                let bytes = self.blobs[i].bytes.as_slice();
                match check_credential(&self.mode, bytes, tag_hex, key_hex) {
                    Err(e) => Err(e),
                    Ok(()) => Ok(vstd::slice::slice_to_vec(bytes)),
                }
            },
        }
    }

    /// Evicts every blob that has reached the retention `window` at `now`,
    /// keeping the others in their order, and returns how many were evicted.
    pub fn sweep(&mut self, now: u64, window: u64) -> (removed: usize)
        ensures
            final(self).records() == retained(old(self).records(), now, window),
            removed == old(self).records().len() - final(self).records().len(),
            final(self).size_limit() == old(self).size_limit(),
            final(self).mode() == old(self).mode(),
            unique_handles(final(self).records()),
    {
        proof {
            use_type_invariant(&*self);
        }
        let ghost orig = self.records();
        let mut blobs: Vec<StoredBlob> = Vec::new();
        std::mem::swap(&mut self.blobs, &mut blobs);
        let ghost n = orig.len() as int;
        let ghost mut j: int = 0;
        let count = blobs.len();
        assert(n == count);
        let mut i: usize = 0;
        let mut removed: usize = 0;
        assert(orig.subrange(0, 0) =~= Seq::<BlobRecord>::empty());
        assert(orig.subrange(0, n) =~= orig);
        assert(records_of(blobs@) =~= retained(orig.subrange(0, 0), now, window) + orig.subrange(0, n));
        while i < blobs.len()
            invariant
                n == orig.len(),
                n <= usize::MAX,
                0 <= j <= n,
                i as int == retained(orig.subrange(0, j), now, window).len(),
                records_of(blobs@) == retained(orig.subrange(0, j), now, window) + orig.subrange(j, n),
                removed as int == j - i,
            decreases blobs@.len() - i,
        {
            let ghost kept = retained(orig.subrange(0, j), now, window);
            let ghost recs = records_of(blobs@);
            assert(recs[i as int] == orig[j]);
            assert(orig.subrange(0, j + 1).drop_last() =~= orig.subrange(0, j));
            let m = blobs[i].modified;
            if m <= now && now - m >= window {
                blobs.remove(i);
                assert(records_of(blobs@) =~= recs.remove(i as int));
                assert(recs.remove(i as int) =~= kept + orig.subrange(j + 1, n));
                removed = removed + 1;
            } else {
                assert(kept.push(orig[j]) + orig.subrange(j + 1, n) =~= recs);
                i = i + 1;
            }
            proof {
                j = j + 1;
            }
        }
        assert(orig.subrange(j, n).len() == 0);
        assert(j == n);
        assert(orig.subrange(0, n) =~= orig);
        assert(records_of(blobs@) =~= retained(orig, now, window));
        proof {
            lemma_retained_unique(orig, now, window);
        }
        self.blobs = blobs;
        removed
    }
}

/// Round trip: right after a blob is stored under a handle, that handle reads back
/// exactly the stored bytes; with the integrity guard off, a get passes the guard.
pub proof fn lemma_put_then_get(
    records: Seq<BlobRecord>,
    handle: u128,
    payload: Seq<u8>,
    now: u64,
    tag_hex: Option<Seq<char>>,
    key_hex: Option<Seq<char>>,
)
    ensures
        stored(records.push(BlobRecord { handle, bytes: payload, modified: now }), handle) == Some(
            payload,
        ),
        credential_check(IntegrityMode::Off, payload, tag_hex, key_hex) == Ok::<(), BlobError>(()),
{
    assert(records.push(BlobRecord { handle, bytes: payload, modified: now }).drop_last() =~= records);
}

/// Storing a blob changes what no other handle reads.
pub proof fn lemma_put_keeps_others(records: Seq<BlobRecord>, added: BlobRecord, handle: u128)
    requires
        added.handle != handle,
    ensures
        stored(records.push(added), handle) == stored(records, handle),
{
    assert(records.push(added).drop_last() =~= records);
}

/// What `stored` reads comes from a record that carries the handle.
pub proof fn lemma_stored_has_record(records: Seq<BlobRecord>, handle: u128)
    ensures
        stored(records, handle) matches Some(b) ==> exists|i: int|
            0 <= i < records.len() && #[trigger] records[i].handle == handle && records[i].bytes == b,
    decreases records.len(),
{
    if records.len() > 0 && records.last().handle != handle {
        let init = records.drop_last();
        lemma_stored_has_record(init, handle);
        if stored(init, handle) is Some {
            let i = choose|i: int| 0 <= i < init.len() && #[trigger] init[i].handle == handle && init[i].bytes == stored(init, handle)->0;
            assert(records[i] == init[i]);
        }
    }
}

/// When `stored` reads nothing for a handle, no record carries it.
pub proof fn lemma_stored_none(records: Seq<BlobRecord>, handle: u128)
    ensures
        stored(records, handle) is None ==> forall|i: int|
            0 <= i < records.len() ==> #[trigger] records[i].handle != handle,
    decreases records.len(),
{
    if records.len() > 0 && records.last().handle != handle {
        let init = records.drop_last();
        lemma_stored_none(init, handle);
        if stored(records, handle) is None {
            assert forall|i: int| 0 <= i < records.len() implies #[trigger] records[i].handle != handle by {
                if i < init.len() {
                    assert(records[i] == init[i]);
                }
            }
        }
    }
}

/// A sweep keeps handles unique.
pub proof fn lemma_retained_unique(records: Seq<BlobRecord>, now: u64, window: u64)
    requires
        unique_handles(records),
    ensures
        unique_handles(retained(records, now, window)),
    decreases records.len(),
{
    if records.len() > 0 {
        let init = records.drop_last();
        let last = records.last();
        assert(unique_handles(init)) by {
            assert forall|i: int, j: int|
                0 <= i < init.len() && 0 <= j < init.len() && i != j implies #[trigger] init[i].handle
                    != #[trigger] init[j].handle by {
                assert(init[i] == records[i] && init[j] == records[j]);
            }
        }
        lemma_retained_unique(init, now, window);
        lemma_retained_members(init, now, window);
        let kept = retained(init, now, window);
        if !expired(last.modified, now, window) {
            let after = kept.push(last);
            assert forall|i: int, j: int|
                0 <= i < after.len() && 0 <= j < after.len() && i != j implies #[trigger] after[i].handle
                    != #[trigger] after[j].handle by {
                if i < kept.len() && j < kept.len() {
                    assert(after[i] == kept[i] && after[j] == kept[j]);
                } else {
                    let k = if i < kept.len() { i } else { j };
                    assert(after[k] == kept[k]);
                    assert(kept.contains(kept[k]));
                    let m = choose|m: int| 0 <= m < init.len() && init[m] == kept[k];
                    assert(records[m] == init[m]);
                    assert(records[records.len() - 1] == last);
                }
            }
        }
    }
}

/// A sweep keeps exactly the records that have not reached the window: each
/// kept record was there before and is younger than the window, and each
/// record younger than the window is kept.
pub proof fn lemma_retained_members(records: Seq<BlobRecord>, now: u64, window: u64)
    ensures
        forall|x: BlobRecord| #[trigger]
            retained(records, now, window).contains(x) ==> records.contains(x) && !expired(
                x.modified,
                now,
                window,
            ),
        forall|i: int|
            0 <= i < records.len() && !expired(records[i].modified, now, window) ==> #[trigger] retained(
                records,
                now,
                window,
            ).contains(records[i]),
    decreases records.len(),
{
    if records.len() > 0 {
        let init = records.drop_last();
        let last = records.last();
        lemma_retained_members(init, now, window);
        let kept = retained(init, now, window);
        assert forall|x: BlobRecord| #[trigger]
            retained(records, now, window).contains(x) implies records.contains(x) && !expired(
                x.modified,
                now,
                window,
            ) by {
            if kept.contains(x) {
                let k = choose|k: int| 0 <= k < init.len() && init[k] == x;
                assert(records[k] == x);
            } else {
                let k = choose|k: int| 0 <= k < retained(records, now, window).len() && retained(records, now, window)[k] == x;
                assert(retained(records, now, window) == kept.push(last));
                assert(k == kept.len());
                assert(records[records.len() - 1] == x);
            }
        }
        assert forall|i: int|
            0 <= i < records.len() && !expired(records[i].modified, now, window) implies #[trigger] retained(
                records,
                now,
                window,
            ).contains(records[i]) by {
            if i < records.len() - 1 {
                assert(init[i] == records[i]);
                assert(kept.contains(init[i]));
                let k = choose|k: int| 0 <= k < kept.len() && kept[k] == records[i];
                if !expired(last.modified, now, window) {
                    assert(kept.push(last)[k] == records[i]);
                }
            } else {
                assert(kept.push(last)[kept.len() as int] == last);
            }
        }
    }
}

/// Eviction by age: with handles unique (as in every store), one sweep at
/// `now` removes a blob whose time stamp is at least `window` in the past, so
/// its handle then reads nothing, and keeps a blob younger than the window,
/// whose handle still reads its bytes.
pub proof fn lemma_sweep_by_age(records: Seq<BlobRecord>, now: u64, window: u64, i: int)
    requires
        unique_handles(records),
        0 <= i < records.len(),
    ensures
        expired(records[i].modified, now, window) ==> !retained(records, now, window).contains(
            records[i],
        ) && stored(retained(records, now, window), records[i].handle) is None,
        !expired(records[i].modified, now, window) ==> retained(records, now, window).contains(
            records[i],
        ) && stored(retained(records, now, window), records[i].handle) == Some(records[i].bytes),
{
    lemma_retained_members(records, now, window);
    lemma_retained_unique(records, now, window);
    let kept = retained(records, now, window);
    let h = records[i].handle;
    lemma_stored_has_record(kept, h);
    lemma_stored_none(kept, h);
    if stored(kept, h) is Some {
        let k = choose|k: int| 0 <= k < kept.len() && #[trigger] kept[k].handle == h && kept[k].bytes == stored(kept, h)->0;
        assert(kept.contains(kept[k]));
        let m = choose|m: int| 0 <= m < records.len() && records[m] == kept[k];
        assert(records[m].handle == h);
        assert(m == i);
    }
    if !expired(records[i].modified, now, window) {
        assert(kept.contains(records[i]));
        let k = choose|k: int| 0 <= k < kept.len() && kept[k] == records[i];
        assert(kept[k].handle == h);
    }
}

} // verus!
