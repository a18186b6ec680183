//! Escaping text for a URL, and comparing secrets.

use vstd::prelude::*;
use vstd::utf8::{decode_utf8, encode_utf8, is_ascii_chars, valid_utf8};

verus! {

/// The value of a hexadecimal digit.
pub open spec fn hex_value(b: u8) -> Option<u8> {
    if 0x30 <= b <= 0x39 {
        Some((b - 0x30) as u8)
    } else if 0x41 <= b <= 0x46 {
        Some((b - 0x41 + 10) as u8)
    } else if 0x61 <= b <= 0x66 {
        Some((b - 0x61 + 10) as u8)
    } else {
        None
    }
}

/// The upper-case digit of a value.
pub open spec fn hex_upper(n: int) -> char {
    if n < 10 {
        (0x30 + n) as char
    } else {
        (0x41 + n - 10) as char
    }
}

/// The lower-case digit of a value.
pub open spec fn hex_lower(n: int) -> char {
    if n < 10 {
        (0x30 + n) as char
    } else {
        (0x61 + n - 10) as char
    }
}

/// The bytes that need no escape.
pub open spec fn unreserved(b: u8) -> bool {
    (0x30 <= b <= 0x39) || (0x41 <= b <= 0x5a) || (0x61 <= b <= 0x7a) || b == 0x2d || b == 0x2e || b
        == 0x5f || b == 0x7e
}

pub open spec fn escaped_byte(b: u8) -> Seq<char> {
    if unreserved(b) {
        seq![b as char]
    } else {
        seq!['%', hex_upper(b as int / 16), hex_upper(b as int % 16)]
    }
}

pub open spec fn escaped_bytes(bytes: Seq<u8>) -> Seq<char>
    decreases bytes.len(),
{
    if bytes.len() == 0 {
        Seq::empty()
    } else {
        escaped_bytes(bytes.drop_last()) + escaped_byte(bytes.last())
    }
}

/// A text as it stands in a URL.
pub open spec fn escaped(s: Seq<char>) -> Seq<char> {
    escaped_bytes(encode_utf8(s))
}

/// Whether an escape stands at `i`.
pub open spec fn escape_at(bytes: Seq<u8>, i: int) -> bool {
    0 <= i && i + 2 < bytes.len() && bytes[i] == 0x25 && hex_value(bytes[i + 1]) is Some
        && hex_value(bytes[i + 2]) is Some
}

/// The bytes from `i` on with their escapes undone. What is no escape stays.
pub open spec fn unescaped_from(bytes: Seq<u8>, i: int) -> Seq<u8>
    decreases bytes.len() - i,
{
    if i < 0 || i >= bytes.len() {
        Seq::empty()
    } else if escape_at(bytes, i) {
        seq![(hex_value(bytes[i + 1])->0 * 16 + hex_value(bytes[i + 2])->0) as u8] + unescaped_from(
            bytes,
            i + 3,
        )
    } else {
        seq![bytes[i]] + unescaped_from(bytes, i + 1)
    }
}

/// The text that std reads from bytes, with a mark in place of what is none.
pub uninterp spec fn lossy_text(bytes: Seq<u8>) -> Seq<char>;

/// `String::from_utf8_lossy`: a function of the bytes alone. Bytes that are valid
/// UTF-8 are read as the text they encode.
#[verifier::external_body]
fn read_lossy(bytes: &Vec<u8>) -> (r: String)
    ensures
        r@ == lossy_text(bytes@),
        valid_utf8(bytes@) ==> r@ == decode_utf8(bytes@),
{
    String::from_utf8_lossy(bytes).into_owned()
}

/// A text with its escapes undone.
pub open spec fn unescaped(s: Seq<char>) -> Seq<char> {
    let bytes = unescaped_from(encode_utf8(s), 0);
    if valid_utf8(bytes) {
        decode_utf8(bytes)
    } else {
        lossy_text(bytes)
    }
}

fn hex_digit(b: u8) -> (r: Option<u8>)
    ensures
        r == hex_value(b),
{
    if 0x30 <= b && b <= 0x39 {
        Some(b - 0x30)
    } else if 0x41 <= b && b <= 0x46 {
        Some(b - 0x41 + 10)
    } else if 0x61 <= b && b <= 0x66 {
        Some(b - 0x61 + 10)
    } else {
        None
    }
}

/// The byte that two digits write.
pub fn hex_pair(high: u8, low: u8) -> (r: Option<u8>)
    ensures
        r == (match (hex_value(high), hex_value(low)) {
            (Some(h), Some(l)) => Some((h * 16 + l) as u8),
            _ => None,
        }),
{
    match (hex_digit(high), hex_digit(low)) {
        (Some(h), Some(l)) => Some(h * 16 + l),
        _ => None,
    }
}

pub fn percent_decode(value: &str) -> (r: String)
    ensures
        r@ == unescaped(value@),
{
    let bytes: &[u8] = value.as_bytes();
    let ghost all = bytes@;
    let n: usize = bytes.len();
    let mut decoded: Vec<u8> = Vec::new();
    let mut i: usize = 0;
    assert(decoded@ + unescaped_from(all, 0) =~= unescaped_from(all, 0));
    while i < n
        invariant
            i <= n,
            n == bytes@.len(),
            all == bytes@,
            decoded@ + unescaped_from(all, i as int) == unescaped_from(all, 0),
        decreases n - i,
    {
        let pair: Option<u8> = if n - i > 2 {
            hex_pair(bytes[i + 1], bytes[i + 2])
        } else {
            None
        };
        let ghost before = decoded@;
        match pair {
            Some(byte) if bytes[i] == 0x25 => {
                decoded.push(byte);
                assert(before + (seq![byte] + unescaped_from(all, i + 3)) =~= decoded@
                    + unescaped_from(all, i + 3));
                i += 3;
            },
            _ => {
                decoded.push(bytes[i]);
                assert(before + (seq![all[i as int]] + unescaped_from(all, i + 1)) =~= decoded@
                    + unescaped_from(all, i + 1));
                i += 1;
            },
        }
    }
    assert(decoded@ + Seq::<u8>::empty() =~= decoded@);
    read_lossy(&decoded)
}

fn upper(n: u8) -> (r: char)
    requires
        n < 16,
    ensures
        r == hex_upper(n as int),
{
    if n < 10 {
        (0x30 + n) as char
    } else {
        (0x41 + (n - 10)) as char
    }
}

fn lower(n: u8) -> (r: char)
    requires
        n < 16,
    ensures
        r == hex_lower(n as int),
{
    if n < 10 {
        (0x30 + n) as char
    } else {
        (0x61 + (n - 10)) as char
    }
}

pub fn percent_encode(value: &str) -> (r: String)
    ensures
        r@ == escaped(value@),
{
    let bytes: &[u8] = value.as_bytes();
    let ghost all = bytes@;
    let mut encoded: String = String::new();
    let mut i: usize = 0;
    assert(all.take(0) =~= Seq::empty());
    while i < bytes.len()
        invariant
            i <= bytes@.len(),
            all == bytes@,
            encoded@ == escaped_bytes(all.take(i as int)),
        decreases bytes@.len() - i,
    {
        assert(all.take(i + 1).drop_last() =~= all.take(i as int));
        let b: u8 = bytes[i];
        let ghost before = encoded@;
        if (0x30 <= b && b <= 0x39) || (0x41 <= b && b <= 0x5a) || (0x61 <= b && b <= 0x7a) || b
            == 0x2d || b == 0x2e || b == 0x5f || b == 0x7e {
            encoded.push(b as char);
        } else {
            encoded.push('%');
            encoded.push(upper(b / 16));
            encoded.push(upper(b % 16));
        }
        assert(encoded@ =~= before + escaped_byte(b));
        i += 1;
    }
    assert(all.take(i as int) =~= all);
    encoded
}

/// Bytes in lower-case hexadecimal.
pub open spec fn hex_text(bytes: Seq<u8>) -> Seq<char>
    decreases bytes.len(),
{
    if bytes.len() == 0 {
        Seq::empty()
    } else {
        hex_text(bytes.drop_last()) + seq![
            hex_lower(bytes.last() as int / 16),
            hex_lower(bytes.last() as int % 16),
        ]
    }
}

pub open spec fn is_hex(c: char) -> bool {
    '0' <= c <= '9' || 'a' <= c <= 'f'
}

pub proof fn lemma_hex_text(bytes: Seq<u8>)
    ensures
        hex_text(bytes).len() == 2 * bytes.len(),
        forall|i: int| 0 <= i < hex_text(bytes).len() ==> is_hex(#[trigger] hex_text(bytes)[i]),
    decreases bytes.len(),
{
    if bytes.len() > 0 {
        lemma_hex_text(bytes.drop_last());
    }
}

pub fn to_hex(bytes: &Vec<u8>) -> (r: String)
    ensures
        r@ == hex_text(bytes@),
{
    let ghost all = bytes@;
    let mut hex: String = String::new();
    let mut i: usize = 0;
    assert(all.take(0) =~= Seq::empty());
    while i < bytes.len()
        invariant
            i <= bytes@.len(),
            all == bytes@,
            hex@ == hex_text(all.take(i as int)),
        decreases bytes@.len() - i,
    {
        assert(all.take(i + 1).drop_last() =~= all.take(i as int));
        let ghost before = hex@;
        hex.push(lower(bytes[i] / 16));
        hex.push(lower(bytes[i] % 16));
        assert(hex@ =~= before + seq![
            hex_lower(all[i as int] as int / 16),
            hex_lower(all[i as int] as int % 16),
        ]);
        i += 1;
    }
    assert(all.take(i as int) =~= all);
    hex
}

// ---- There and back ----

/// The bytes of a text that is all ASCII.
pub open spec fn ascii_bytes(s: Seq<char>) -> Seq<u8> {
    s.map_values(|c: char| c as u8)
}

proof fn lemma_escaped_is_ascii(bytes: Seq<u8>)
    ensures
        is_ascii_chars(escaped_bytes(bytes)),
    decreases bytes.len(),
{
    if bytes.len() > 0 {
        lemma_escaped_is_ascii(bytes.drop_last());
        let b = bytes.last();
        let part = escaped_byte(b);
        assert forall|i: int| 0 <= i < part.len() implies '\0' <= #[trigger] part[i] <= '\u{7f}' by {}
    }
}

/// What was escaped comes back, whatever was escaped before it.
proof fn lemma_unescape_undoes(bytes: Seq<u8>, i: int)
    requires
        0 <= i <= bytes.len(),
    ensures
        unescaped_from(ascii_bytes(escaped_bytes(bytes)), escaped_bytes(bytes.take(i)).len() as int)
            == bytes.skip(i),
    decreases bytes.len() - i,
{
    let whole = ascii_bytes(escaped_bytes(bytes));
    let at = escaped_bytes(bytes.take(i)).len() as int;
    if i == bytes.len() {
        assert(bytes.take(i) =~= bytes);
        assert(bytes.skip(i) =~= Seq::empty());
    } else {
        lemma_unescape_undoes(bytes, i + 1);
        assert(bytes.take(i + 1).drop_last() =~= bytes.take(i));
        let b = bytes[i];
        let next = escaped_bytes(bytes.take(i + 1));
        assert(next == escaped_bytes(bytes.take(i)) + escaped_byte(b));
        lemma_escaped_prefix(bytes, i + 1);
        let all = escaped_bytes(bytes);
        assert forall|k: int| 0 <= k < next.len() implies #[trigger] whole[k] == next[k] as u8 by {
            assert(all[k] == next[k]);
        }
        assert(bytes.skip(i) =~= seq![b] + bytes.skip(i + 1));
        if unreserved(b) {
            assert(next[at] == b as char);
            assert(whole[at] == b);
            assert(!escape_at(whole, at));
        } else {
            let h = b as int / 16;
            let l = b as int % 16;
            assert(next[at] == '%');
            assert(next[at + 1] == hex_upper(h));
            assert(next[at + 2] == hex_upper(l));
            assert(whole[at] == 0x25);
            assert(hex_value(whole[at + 1]) == Some(h as u8));
            assert(hex_value(whole[at + 2]) == Some(l as u8));
            assert(escape_at(whole, at));
            assert((h * 16 + l) as u8 == b);
        }
    }
}

/// The escapes of the first bytes lead those of all of them.
proof fn lemma_escaped_prefix(bytes: Seq<u8>, i: int)
    requires
        0 <= i <= bytes.len(),
    ensures
        escaped_bytes(bytes.take(i)).len() <= escaped_bytes(bytes).len(),
        forall|k: int|
            0 <= k < escaped_bytes(bytes.take(i)).len() ==> escaped_bytes(bytes)[k]
                == #[trigger] escaped_bytes(bytes.take(i))[k],
    decreases bytes.len(),
{
    if i < bytes.len() {
        lemma_escaped_prefix(bytes.drop_last(), i);
        assert(bytes.drop_last().take(i) =~= bytes.take(i));
    } else {
        assert(bytes.take(i) =~= bytes);
    }
}

/// No escaped text parts a query.
pub proof fn lemma_escaped_has_no_ampersand(s: Seq<char>)
    ensures
        forall|k: int| 0 <= k < escaped(s).len() ==> #[trigger] escaped(s)[k] != '&',
{
    lemma_escaped_bytes_have_no_ampersand(encode_utf8(s));
}

proof fn lemma_escaped_bytes_have_no_ampersand(bytes: Seq<u8>)
    ensures
        forall|k: int|
            0 <= k < escaped_bytes(bytes).len() ==> #[trigger] escaped_bytes(bytes)[k] != '&',
    decreases bytes.len(),
{
    if bytes.len() > 0 {
        lemma_escaped_bytes_have_no_ampersand(bytes.drop_last());
        let before = escaped_bytes(bytes.drop_last());
        let part = escaped_byte(bytes.last());
        let whole = escaped_bytes(bytes);
        assert forall|k: int| 0 <= k < whole.len() implies #[trigger] whole[k] != '&' by {
            if k < before.len() {
                assert(whole[k] == before[k]);
            } else {
                assert(whole[k] == part[k - before.len()]);
            }
        }
    }
}

/// A text survives the URL it is printed in.
pub proof fn law_escaping_loses_nothing(s: Seq<char>)
    ensures
        unescaped(escaped(s)) == s,
{
    broadcast use vstd::utf8::group_utf8_lib;

    let bytes = encode_utf8(s);
    lemma_escaped_is_ascii(bytes);
    let text = escaped_bytes(bytes);
    assert(encode_utf8(text) =~= ascii_bytes(text));
    lemma_unescape_undoes(bytes, 0);
    assert(bytes.take(0) =~= Seq::empty());
    assert(bytes.skip(0) =~= bytes);
    assert(unescaped_from(encode_utf8(text), 0) == bytes);
    assert(valid_utf8(bytes));
    assert(decode_utf8(bytes) == s);
}

// ---- Comparing ----

/// Whether two texts are the same, found out without an early exit: only the
/// lengths decide how long it takes.
pub fn constant_time_eq(left: &str, right: &str) -> (r: bool)
    ensures
        r == (left@ == right@),
{
    broadcast use vstd::utf8::group_utf8_lib;

    let a: &[u8] = left.as_bytes();
    let b: &[u8] = right.as_bytes();
    assert(decode_utf8(a@) == left@);
    assert(decode_utf8(b@) == right@);
    if a.len() != b.len() {
        return false;
    }
    let mut difference: u8 = 0;
    let mut i: usize = 0;
    while i < a.len()
        invariant
            i <= a@.len(),
            a@.len() == b@.len(),
            difference == 0 <==> (forall|k: int| 0 <= k < i ==> a@[k] == b@[k]),
        decreases a@.len() - i,
    {
        let x: u8 = a[i];
        let y: u8 = b[i];
        assert((difference | (x ^ y)) == 0 <==> difference == 0 && x == y) by (bit_vector);
        difference = difference | (x ^ y);
        i += 1;
    }
    assert(difference == 0 ==> a@ =~= b@);
    difference == 0
}

} // verus!
