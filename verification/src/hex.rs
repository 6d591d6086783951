//! Lowercase hexadecimal encoding of byte strings.
//!
//! Content hashes are 32 raw bytes; on disk they appear as 64 lowercase hex
//! digits (directory names, the hash fields of persisted documents). Encoding
//! and decoding are verified against each other: decoding an encoded string
//! gives back the original bytes.

use vstd::prelude::*;

verus! {

/// The lowercase hex digit for a value below 16.
pub open spec fn spec_hex_digit(n: u8) -> u8 {
    if n < 10 {
        (0x30 + n) as u8
    } else {
        (0x57 + n) as u8
    }
}

/// The two hex digits of one byte, high digit first.
pub open spec fn spec_hex_byte(b: u8) -> Seq<u8> {
    seq![spec_hex_digit(b / 16), spec_hex_digit(b % 16)]
}

/// The lowercase hex encoding of a byte string.
pub open spec fn hex_of(data: Seq<u8>) -> Seq<u8>
    decreases data.len(),
{
    if data.len() == 0 {
        Seq::empty()
    } else {
        spec_hex_byte(data[0]) + hex_of(data.drop_first())
    }
}

/// The value of one hex digit, if it is one (lowercase only, as written
/// by the encoder).
pub open spec fn spec_hex_digit_value(c: u8) -> Option<u8> {
    if 0x30 <= c <= 0x39 {
        Some((c - 0x30) as u8)
    } else if 0x61 <= c <= 0x66 {
        Some((c - 0x57) as u8)
    } else {
        None
    }
}

/// Encoding then reading back one digit is the identity.
proof fn lemma_hex_digit_roundtrip(n: u8)
    requires
        n < 16,
    ensures
        spec_hex_digit_value(spec_hex_digit(n)) == Some(n),
{
}

/// `hex_of` distributes over appending one byte.
pub proof fn lemma_hex_of_push(data: Seq<u8>, b: u8)
    ensures
        hex_of(data.push(b)) == hex_of(data) + spec_hex_byte(b),
    decreases data.len(),
{
    if data.len() == 0 {
        assert(data.push(b).drop_first() =~= Seq::empty());
        assert(data =~= Seq::<u8>::empty());
        assert(hex_of(data.push(b)) =~= hex_of(data) + spec_hex_byte(b));
    } else {
        assert(data.push(b).drop_first() =~= data.drop_first().push(b));
        assert(data.push(b)[0] == data[0]);
        lemma_hex_of_push(data.drop_first(), b);
        assert(hex_of(data.push(b)) =~= hex_of(data) + spec_hex_byte(b));
    }
}

/// The encoding is twice as long as the data.
pub proof fn lemma_hex_of_len(data: Seq<u8>)
    ensures
        hex_of(data).len() == 2 * data.len(),
    decreases data.len(),
{
    if data.len() > 0 {
        lemma_hex_of_len(data.drop_first());
    }
}

fn hex_digit(n: u8) -> (c: u8)
    requires
        n < 16,
    ensures
        c == spec_hex_digit(n),
{
    if n < 10 {
        0x30 + n
    } else {
        0x57 + n
    }
}

/// Encode a byte string as lowercase hex, high digit of each byte first.
pub fn hex_encode(data: &Vec<u8>) -> (r: Vec<u8>)
    ensures
        r@ == hex_of(data@),
{
    let mut out: Vec<u8> = Vec::new();
    let mut i: usize = 0;
    while i < data.len()
        invariant
            i <= data@.len(),
            out@ == hex_of(data@.take(i as int)),
        decreases data@.len() - i,
    {
        let b = data[i];
        out.push(hex_digit(b / 16));
        out.push(hex_digit(b % 16));
        proof {
            lemma_hex_of_push(data@.take(i as int), b);
            assert(data@.take(i as int).push(b) =~= data@.take(i + 1 as int));
        }
        i = i + 1;
    }
    proof {
        assert(data@.take(data@.len() as int) =~= data@);
    }
    out
}

fn hex_digit_value(c: u8) -> (r: Option<u8>)
    ensures
        r == spec_hex_digit_value(c),
{
    if 0x30 <= c && c <= 0x39 {
        Some(c - 0x30)
    } else if 0x61 <= c && c <= 0x66 {
        Some(c - 0x57)
    } else {
        None
    }
}

/// Whether a byte string is a well-formed lowercase hex encoding: even length,
/// every character a lowercase hex digit.
pub open spec fn is_hex(text: Seq<u8>) -> bool {
    text.len() % 2 == 0 && forall|i: int| 0 <= i < text.len() ==> spec_hex_digit_value(#[trigger] text[i]) is Some
}

/// Decode a lowercase hex string back into bytes. Returns `None` exactly when
/// the text is not a well-formed lowercase hex encoding; decoding an encoded
/// string gives back the original bytes (`lemma_hex_roundtrip`).
pub fn hex_decode(text: &Vec<u8>) -> (r: Option<Vec<u8>>)
    ensures
        r is Some <==> is_hex(text@),
        r is Some ==> hex_of(r->0@) == text@,
{
    if text.len() % 2 != 0 {
        proof {
            assert(!is_hex(text@));
        }
        return None;
    }
    let mut out: Vec<u8> = Vec::new();
    let mut i: usize = 0;
    while i < text.len()
        invariant
            i <= text@.len(),
            i % 2 == 0,
            text@.len() % 2 == 0,
            hex_of(out@) == text@.take(i as int),
            out@.len() * 2 == i,
            forall|j: int| 0 <= j < i ==> spec_hex_digit_value(#[trigger] text@[j]) is Some,
        decreases text@.len() - i,
    {
        let hi = match hex_digit_value(text[i]) {
            Some(v) => v,
            None => {
                proof {
                    assert(!is_hex(text@));
                }
                return None;
            },
        };
        let lo = match hex_digit_value(text[i + 1]) {
            Some(v) => v,
            None => {
                proof {
                    assert(!is_hex(text@));
                }
                return None;
            },
        };
        let b = hi * 16 + lo;
        let ghost pre = out@;
        out.push(b);
        proof {
            assert(i + 2 <= text@.len());
            lemma_hex_of_push(pre, b);
            assert(out@ == pre.push(b));
            assert(b / 16 == hi && b % 16 == lo);
            lemma_hex_digit_roundtrip_inverse(text@[i as int], hi);
            lemma_hex_digit_roundtrip_inverse(text@[i + 1 as int], lo);
            assert(spec_hex_byte(b) =~= seq![text@[i as int], text@[i + 1 as int]]);
            assert(text@.take(i as int) + spec_hex_byte(b) =~= text@.take(i + 2 as int));
            assert(hex_of(out@) == text@.take(i + 2 as int));
        }
        i = i + 2;
    }
    proof {
        assert(text@.take(text@.len() as int) =~= text@);
        assert(is_hex(text@));
    }
    Some(out)
}

/// If a digit character has a value, re-encoding that value gives the same
/// character.
proof fn lemma_hex_digit_roundtrip_inverse(c: u8, v: u8)
    requires
        spec_hex_digit_value(c) == Some(v),
    ensures
        v < 16,
        spec_hex_digit(v) == c,
{
}

/// Round trip: decoding an encoding yields the original bytes.
pub proof fn lemma_hex_roundtrip(data: Seq<u8>, encoded: Seq<u8>, decoded: Seq<u8>)
    requires
        encoded == hex_of(data),
        hex_of(decoded) == encoded,
    ensures
        decoded == data,
    decreases data.len(),
{
    lemma_hex_of_len(data);
    lemma_hex_of_len(decoded);
    if data.len() == 0 {
        assert(decoded =~= data);
    } else {
        assert(hex_of(data)[0] == spec_hex_digit(data[0] / 16));
        assert(hex_of(data)[1] == spec_hex_digit(data[0] % 16));
        assert(hex_of(decoded)[0] == spec_hex_digit(decoded[0] / 16));
        assert(hex_of(decoded)[1] == spec_hex_digit(decoded[0] % 16));
        lemma_hex_digit_injective(data[0] / 16, decoded[0] / 16);
        lemma_hex_digit_injective(data[0] % 16, decoded[0] % 16);
        assert(data[0] == decoded[0]);
        assert(hex_of(data).skip(2) =~= hex_of(data.drop_first())) by {
            assert(hex_of(data) =~= spec_hex_byte(data[0]) + hex_of(data.drop_first()));
        }
        assert(hex_of(decoded).skip(2) =~= hex_of(decoded.drop_first())) by {
            assert(hex_of(decoded) =~= spec_hex_byte(decoded[0]) + hex_of(decoded.drop_first()));
        }
        assert(hex_of(data).skip(2) == hex_of(decoded).skip(2));
        lemma_hex_roundtrip(data.drop_first(), hex_of(data.drop_first()), decoded.drop_first());
        assert(decoded =~= data) by {
            assert(decoded.drop_first() == data.drop_first());
            assert forall|i: int| 0 <= i < data.len() implies decoded[i] == data[i] by {
                if i > 0 {
                    assert(decoded[i] == decoded.drop_first()[i - 1]);
                    assert(data[i] == data.drop_first()[i - 1]);
                }
            }
        }
    }
}

/// Distinct digit values encode to distinct characters.
proof fn lemma_hex_digit_injective(a: u8, b: u8)
    requires
        a < 16,
        b < 16,
        spec_hex_digit(a) == spec_hex_digit(b),
    ensures
        a == b,
{
}

} // verus!
