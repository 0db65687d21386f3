//! The timeline key: a blob handle and a hex key, written `<handle>:<hex-key>`.

use vstd::prelude::*;

use crate::encoding::{hex_bytes, hex_decode};
use vstd::string::StrSliceExecFns;

verus! {

/// The 128-bit value of a UUID written in one of the forms that `uuid` parses.
pub uninterp spec fn uuid_of(s: Seq<char>) -> Option<u128>;

/// Relies on `uuid::Uuid::try_parse` and `Uuid::as_u128`: the value of the UUID
/// that the text spells, `None` when it spells none.
#[verifier::external_body]
fn parse_uuid(s: &str) -> (r: Option<u128>)
    ensures
        r == uuid_of(s@),
{
    uuid::Uuid::try_parse(s).ok().map(|u| u.as_u128())
}

/// The handle that a text names: the value of the UUID it spells.
pub fn parse_handle(s: &str) -> (r: Option<u128>)
    ensures
        r == uuid_of(s@),
{
    parse_uuid(s)
}

/// Why a timeline key was refused.
#[derive(Clone, Copy, Debug, PartialEq, Eq, Structural)]
pub enum KeyFormError {
    /// There is no `:` and so no key.
    MissingKey,
    /// The part before the `:` is not a handle.
    MalformedHandle,
    /// The key is not hex.
    MalformedKey,
}

/// The position of the first `:`, or the length when there is none.
pub open spec fn colon_index(s: Seq<char>) -> nat
    decreases s.len(),
{
    if s.len() == 0 {
        0
    } else if s[0] == ':' {
        0
    } else {
        1 + colon_index(s.drop_first())
    }
}

/// The two parts of a key: what comes before the first `:`, and what comes
/// after it up to the next `:` or the end; `None` when there is no `:`.
pub open spec fn key_parts(s: Seq<char>) -> Option<(Seq<char>, Seq<char>)> {
    let c = colon_index(s) as int;
    if c >= s.len() {
        None
    } else {
        let rest = s.subrange(c + 1, s.len() as int);
        Some((s.subrange(0, c), rest.subrange(0, colon_index(rest) as int)))
    }
}

/// What a timeline key decodes to.
pub open spec fn key_form_outcome(s: Seq<char>) -> Result<(u128, Seq<u8>), KeyFormError> {
    match key_parts(s) {
        None => Err(KeyFormError::MissingKey),
        Some((handle, key)) => match uuid_of(handle) {
            None => Err(KeyFormError::MalformedHandle),
            Some(h) => match hex_bytes(key) {
                None => Err(KeyFormError::MalformedKey),
                Some(k) => Ok((h, k)),
            },
        },
    }
}

proof fn lemma_colon_index(s: Seq<char>, i: int)
    requires
        0 <= i <= s.len(),
        forall|k: int| 0 <= k < i ==> #[trigger] s[k] != ':',
        i == s.len() || s[i] == ':',
    ensures
        colon_index(s) == i,
    decreases i,
{
    if i > 0 {
        let rest = s.drop_first();
        assert forall|k: int| 0 <= k < i - 1 implies #[trigger] rest[k] != ':' by {
            assert(rest[k] == s[k + 1]);
        }
        if i < s.len() {
            assert(rest[i - 1] == s[i]);
        }
        lemma_colon_index(rest, i - 1);
    }
}

fn find_colon(s: &str) -> (i: usize)
    ensures
        i == colon_index(s@),
        i <= s@.len(),
{
    let n = s.unicode_len();
    let mut i: usize = 0;
    while i < n
        invariant
            n == s@.len(),
            i <= n,
            forall|k: int| 0 <= k < i ==> #[trigger] s@[k] != ':',
        ensures
            i <= n,
            i == n || s@[i as int] == ':',
        decreases n - i,
    {
        if s.get_char(i) == ':' {
            break;
        }
        i = i + 1;
    }
    proof {
        lemma_colon_index(s@, i as int);
    }
    i
}

/// Splits a timeline key into its handle text and its key text.
pub fn split_key_form(s: &str) -> (r: Option<(&str, &str)>)
    ensures
        match r {
            Some((h, k)) => key_parts(s@) == Some((h@, k@)),
            None => key_parts(s@) is None,
        },
{
    let c = find_colon(s);
    let n = s.unicode_len();
    if c >= n {
        return None;
    }
    let handle = s.substring_char(0, c);
    let rest = s.substring_char(c + 1, n);
    let d = find_colon(rest);
    let key = rest.substring_char(0, d);
    Some((handle, key))
}

/// Decodes a timeline key into the blob handle and the key bytes.
pub fn decode_key_form(s: &str) -> (r: Result<(u128, Vec<u8>), KeyFormError>)
    ensures
        match r {
            Ok((h, k)) => key_form_outcome(s@) == Ok::<(u128, Seq<u8>), KeyFormError>((h, k@)),
            Err(e) => key_form_outcome(s@) == Err::<(u128, Seq<u8>), KeyFormError>(e),
        },
{
    let (handle_text, key_text) = match split_key_form(s) {
        Some(parts) => parts,
        None => {
            return Err(KeyFormError::MissingKey);
        },
    };
    let handle = match parse_handle(handle_text) {
        Some(h) => h,
        None => {
            return Err(KeyFormError::MalformedHandle);
        },
    };
    match hex_decode(key_text) {
        Some(k) => Ok((handle, k)),
        None => Err(KeyFormError::MalformedKey),
    }
}

} // verus!
