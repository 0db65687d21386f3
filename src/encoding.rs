//! Text encodings of bytes and numbers: lowercase hex, decimal digits, base64.

use vstd::prelude::*;

verus! {

/// The value of a hex digit, in either case.
pub open spec fn hex_digit_value(c: char) -> Option<u8> {
    if '0' <= c && c <= '9' {
        Some((c as u32 - '0' as u32) as u8)
    } else if 'a' <= c && c <= 'f' {
        Some((c as u32 - 'a' as u32 + 10) as u8)
    } else if 'A' <= c && c <= 'F' {
        Some((c as u32 - 'A' as u32 + 10) as u8)
    } else {
        None
    }
}

/// The lowercase hex digit of a value below sixteen.
pub open spec fn hex_digit(v: int) -> char {
    if v < 10 {
        ('0' as int + v) as char
    } else {
        ('a' as int + v - 10) as char
    }
}

/// Two lowercase hex digits per byte, most significant digit first.
pub open spec fn hex_text(b: Seq<u8>) -> Seq<char>
    decreases b.len(),
{
    if b.len() == 0 {
        Seq::empty()
    } else {
        hex_text(b.drop_last()) + seq![hex_digit(b.last() as int / 16), hex_digit(b.last() as int % 16)]
    }
}

/// The bytes that a hex text stands for: `None` unless it has an even number of
/// characters, each a hex digit.
pub open spec fn hex_bytes(s: Seq<char>) -> Option<Seq<u8>> {
    if s.len() % 2 == 0 && forall|i: int| 0 <= i < s.len() ==> (#[trigger] hex_digit_value(s[i])) is Some {
        Some(Seq::new(
            s.len() / 2,
            |i: int| (hex_digit_value(s[2 * i])->0 * 16 + hex_digit_value(s[2 * i + 1])->0) as u8,
        ))
    } else {
        None
    }
}

/// Relies on `hex::encode`: two lowercase digits for each byte, in order.
#[verifier::external_body]
pub(crate) fn hex_encode(b: &[u8]) -> (r: String)
    ensures
        r@ == hex_text(b@),
{
    hex::encode(b)
}

/// Relies on `hex::decode`: an even-length string of hex digits (either case)
/// decodes pairwise to bytes; anything else is an error.
#[verifier::external_body]
pub(crate) fn hex_decode(s: &str) -> (r: Option<Vec<u8>>)
    ensures
        r matches Some(v) ==> hex_bytes(s@) == Some(v@),
        r is None ==> hex_bytes(s@) is None,
{
    hex::decode(s).ok()
}


/// The decimal digit of a value below ten.
pub open spec fn decimal_digit(v: int) -> char {
    ('0' as int + v) as char
}

/// The decimal numeral of `n`, without leading zeros.
pub open spec fn decimal_text(n: nat) -> Seq<char>
    decreases n,
{
    if n < 10 {
        seq![decimal_digit(n as int)]
    } else {
        decimal_text(n / 10).push(decimal_digit((n % 10) as int))
    }
}

/// Relies on `String::push`: appends one character.
#[verifier::external_body]
pub(crate) fn push_char(s: &mut String, c: char)
    ensures
        final(s)@ == old(s)@.push(c),
{
    s.push(c);
}

/// The decimal numeral of `n`.
pub fn decimal(n: u64) -> (r: String)
    ensures
        r@ == decimal_text(n as nat),
    decreases n,
{
    let mut s = if n < 10 {
        String::new()
    } else {
        decimal(n / 10)
    };
    let d: u8 = (n % 10) as u8;
    push_char(&mut s, (48u8 + d) as char);
    s
}

/// `c` in upper case when it is an ASCII lowercase letter.
pub open spec fn ascii_upper(c: char) -> char {
    if 'a' <= c && c <= 'z' {
        (c as int - 32) as char
    } else {
        c
    }
}

/// `c` in lower case when it is an ASCII uppercase letter.
pub open spec fn ascii_lower(c: char) -> char {
    if 'A' <= c && c <= 'Z' {
        (c as int + 32) as char
    } else {
        c
    }
}

/// One character of `title_case(s)`.
pub open spec fn title_char(s: Seq<char>, i: int) -> char {
    if s[i] == '_' {
        ' '
    } else if i == 0 || s[i - 1] == '_' {
        ascii_upper(s[i])
    } else {
        ascii_lower(s[i])
    }
}

/// A snake_case name as words: each underscore becomes a space, each word starts
/// with a capital and goes on in lower case (`msg_stream_connect` gives
/// `Msg Stream Connect`).
pub open spec fn title_case(s: Seq<char>) -> Seq<char> {
    Seq::new(s.len(), |i: int| title_char(s, i))
}

fn to_ascii_upper(c: char) -> (r: char)
    ensures
        r == ascii_upper(c),
{
    if 'a' <= c && c <= 'z' {
        ((c as u8) - 32) as char
    } else {
        c
    }
}

fn to_ascii_lower(c: char) -> (r: char)
    ensures
        r == ascii_lower(c),
{
    if 'A' <= c && c <= 'Z' {
        ((c as u8) + 32) as char
    } else {
        c
    }
}

/// The title derived from a snake_case name.
pub fn title_from_name(name: &str) -> (r: String)
    ensures
        r@ == title_case(name@),
{
    let n = name.unicode_len();
    let mut out = String::new();
    let mut i: usize = 0;
    let mut prev: char = '_';
    while i < n
        invariant
            n == name@.len(),
            i <= n,
            out@ =~= title_case(name@).subrange(0, i as int),
            i > 0 ==> prev == name@[i - 1],
            i == 0 ==> prev == '_',
        decreases n - i,
    {
        let c = name.get_char(i);
        let t = if c == '_' {
            ' '
        } else if prev == '_' {
            to_ascii_upper(c)
        } else {
            to_ascii_lower(c)
        };
        push_char(&mut out, t);
        prev = c;
        i = i + 1;
    }
    out
}

/// The character of a six-bit value in the standard base64 alphabet.
pub open spec fn base64_char(v: int) -> char {
    if v < 26 {
        ('A' as int + v) as char
    } else if v < 52 {
        ('a' as int + v - 26) as char
    } else if v < 62 {
        ('0' as int + v - 52) as char
    } else if v == 62 {
        '+'
    } else {
        '/'
    }
}

/// The standard, padded base64 text of some bytes: four characters for each
/// group of three bytes, the last group padded with `=`.
pub open spec fn base64_text(b: Seq<u8>) -> Seq<char>
    decreases b.len(),
{
    if b.len() == 0 {
        Seq::empty()
    } else if b.len() == 1 {
        seq![base64_char((b[0] as int) / 4), base64_char(((b[0] as int) % 4) * 16), '=', '=']
    } else if b.len() == 2 {
        seq![
            base64_char((b[0] as int) / 4),
            base64_char(((b[0] as int) % 4) * 16 + (b[1] as int) / 16),
            base64_char(((b[1] as int) % 16) * 4),
            '=',
        ]
    } else {
        seq![
            base64_char((b[0] as int) / 4),
            base64_char(((b[0] as int) % 4) * 16 + (b[1] as int) / 16),
            base64_char(((b[1] as int) % 16) * 4 + (b[2] as int) / 64),
            base64_char((b[2] as int) % 64),
        ] + base64_text(b.subrange(3, b.len() as int))
    }
}

/// Relies on base64's `STANDARD` engine `encode`: padded base64 with the standard
/// alphabet; it panics only when the encoded length would overflow `usize`.
#[verifier::external_body]
pub(crate) fn base64_encode(b: &[u8]) -> (r: String)
    requires
        b@.len() <= usize::MAX / 2,
    ensures
        r@ == base64_text(b@),
{
    base64::Engine::encode(&base64::engine::general_purpose::STANDARD, b)
}

} // verus!
