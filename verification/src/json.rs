//! Emission of the JSON documents the cache persists (`command.json`,
//! `file.json`). The emitted bytes are pinned down exactly by spec functions:
//! strings are quoted with the usual JSON escapes, objects and arrays are
//! written compactly, fields in declaration order.

use vstd::prelude::*;

use crate::bytes::push_all;

verus! {

/// Double quote.
pub const QUOTE: u8 = 0x22;

/// Backslash.
pub const BACKSLASH: u8 = 0x5c;

/// Comma.
pub const COMMA: u8 = 0x2c;

/// Colon.
pub const COLON: u8 = 0x3a;

/// The lowercase hex digit for a value below 16 (used by `\u00XX` escapes).
pub open spec fn spec_json_hex_digit(n: u8) -> u8 {
    if n < 10 {
        (0x30 + n) as u8
    } else {
        (0x57 + n) as u8
    }
}

/// The JSON escape of one byte of string content.
pub open spec fn spec_escape_byte(b: u8) -> Seq<u8> {
    if b == QUOTE {
        seq![BACKSLASH, QUOTE]
    } else if b == BACKSLASH {
        seq![BACKSLASH, BACKSLASH]
    } else if b == 0x08 {
        seq![BACKSLASH, 0x62u8]
    } else if b == 0x0c {
        seq![BACKSLASH, 0x66u8]
    } else if b == 0x0a {
        seq![BACKSLASH, 0x6eu8]
    } else if b == 0x0d {
        seq![BACKSLASH, 0x72u8]
    } else if b == 0x09 {
        seq![BACKSLASH, 0x74u8]
    } else if b < 0x20 {
        seq![BACKSLASH, 0x75u8, 0x30u8, 0x30u8, spec_json_hex_digit(b / 16), spec_json_hex_digit(b % 16)]
    } else {
        seq![b]
    }
}

/// The escaped form of string content.
pub open spec fn spec_escaped(s: Seq<u8>) -> Seq<u8>
    decreases s.len(),
{
    if s.len() == 0 {
        Seq::empty()
    } else {
        spec_escape_byte(s[0]) + spec_escaped(s.drop_first())
    }
}

/// A JSON string literal: quote, escaped content, quote.
pub open spec fn spec_json_string(s: Seq<u8>) -> Seq<u8> {
    seq![QUOTE] + spec_escaped(s) + seq![QUOTE]
}

/// Pieces joined by a separator.
pub open spec fn spec_join(items: Seq<Seq<u8>>, sep: Seq<u8>) -> Seq<u8>
    decreases items.len(),
{
    if items.len() == 0 {
        Seq::empty()
    } else if items.len() == 1 {
        items[0]
    } else {
        items[0] + sep + spec_join(items.drop_first(), sep)
    }
}

/// `spec_escaped` distributes over appending one byte.
pub proof fn lemma_escaped_push(s: Seq<u8>, b: u8)
    ensures
        spec_escaped(s.push(b)) == spec_escaped(s) + spec_escape_byte(b),
    decreases s.len(),
{
    let t = s.push(b);
    if s.len() == 0 {
        assert(t[0] == b);
        assert(t.drop_first() =~= Seq::<u8>::empty());
        assert(spec_escaped(t.drop_first()) == Seq::<u8>::empty());
        assert(spec_escaped(t) =~= spec_escaped(s) + spec_escape_byte(b));
    } else {
        assert(t[0] == s[0]);
        assert(t.drop_first() =~= s.drop_first().push(b));
        lemma_escaped_push(s.drop_first(), b);
        assert(spec_escaped(t) =~= spec_escaped(s) + spec_escape_byte(b));
    }
}

/// `spec_join` distributes over appending one piece.
pub proof fn lemma_join_push(items: Seq<Seq<u8>>, sep: Seq<u8>, x: Seq<u8>)
    ensures
        items.len() == 0 ==> spec_join(items.push(x), sep) == x,
        items.len() > 0 ==> spec_join(items.push(x), sep) == spec_join(items, sep) + sep + x,
    decreases items.len(),
{
    let t = items.push(x);
    if items.len() == 0 {
        assert(t.len() == 1);
        assert(t[0] == x);
    } else if items.len() == 1 {
        assert(t.len() == 2);
        assert(t[0] == items[0]);
        assert(t.drop_first() =~= Seq::<Seq<u8>>::empty().push(x));
        assert(t.drop_first().len() == 1);
        assert(t.drop_first()[0] == x);
        assert(spec_join(t.drop_first(), sep) == x);
        assert(spec_join(items, sep) == items[0]);
    } else {
        assert(t[0] == items[0]);
        assert(t.drop_first() =~= items.drop_first().push(x));
        lemma_join_push(items.drop_first(), sep, x);
        assert(spec_join(t, sep) == t[0] + sep + spec_join(t.drop_first(), sep));
        assert(spec_join(items, sep) == items[0] + sep + spec_join(items.drop_first(), sep));
        assert(spec_join(t, sep) =~= spec_join(items, sep) + sep + x);
    }
}

fn json_hex_digit(n: u8) -> (c: u8)
    requires
        n < 16,
    ensures
        c == spec_json_hex_digit(n),
{
    if n < 10 {
        0x30 + n
    } else {
        0x57 + n
    }
}

/// Append the escaped form of one byte.
fn push_escape_byte(out: &mut Vec<u8>, b: u8)
    ensures
        final(out)@ == old(out)@ + spec_escape_byte(b),
{
    if b == QUOTE {
        out.push(BACKSLASH);
        out.push(QUOTE);
    } else if b == BACKSLASH {
        out.push(BACKSLASH);
        out.push(BACKSLASH);
    } else if b == 0x08 {
        out.push(BACKSLASH);
        out.push(0x62);
    } else if b == 0x0c {
        out.push(BACKSLASH);
        out.push(0x66);
    } else if b == 0x0a {
        out.push(BACKSLASH);
        out.push(0x6e);
    } else if b == 0x0d {
        out.push(BACKSLASH);
        out.push(0x72);
    } else if b == 0x09 {
        out.push(BACKSLASH);
        out.push(0x74);
    } else if b < 0x20 {
        out.push(BACKSLASH);
        out.push(0x75);
        out.push(0x30);
        out.push(0x30);
        out.push(json_hex_digit(b / 16));
        out.push(json_hex_digit(b % 16));
    } else {
        out.push(b);
    }
    proof {
        assert(out@ =~= old(out)@ + spec_escape_byte(b));
    }
}

/// Append a JSON string literal for the given content bytes.
pub fn push_json_string(out: &mut Vec<u8>, s: &Vec<u8>)
    ensures
        final(out)@ == old(out)@ + spec_json_string(s@),
{
    let ghost base = out@;
    out.push(QUOTE);
    let mut i: usize = 0;
    while i < s.len()
        invariant
            i <= s@.len(),
            out@ == base + seq![QUOTE] + spec_escaped(s@.take(i as int)),
        decreases s@.len() - i,
    {
        push_escape_byte(out, s[i]);
        proof {
            lemma_escaped_push(s@.take(i as int), s@[i as int]);
            assert(s@.take(i as int).push(s@[i as int]) =~= s@.take(i + 1 as int));
            assert(base + seq![QUOTE] + spec_escaped(s@.take(i as int)) + spec_escape_byte(
                s@[i as int],
            ) =~= base + seq![QUOTE] + spec_escaped(s@.take(i + 1 as int)));
        }
        i = i + 1;
    }
    out.push(QUOTE);
    proof {
        assert(s@.take(s@.len() as int) =~= s@);
        assert(out@ =~= base + spec_json_string(s@));
    }
}

/// Append literal text (object braces, field names, separators). The caller
/// states what it appends through the ensured equality.
pub fn push_literal(out: &mut Vec<u8>, text: &Vec<u8>)
    ensures
        final(out)@ == old(out)@ + text@,
{
    push_all(out, text);
}


/// A byte that needs no escaping inside a JSON string: not a quote, not a
/// backslash, not a control byte. Hash hex strings, timestamps and compression
/// tags consist of such bytes only.
pub open spec fn spec_is_plain_byte(b: u8) -> bool {
    b != QUOTE && b != BACKSLASH && b >= 0x20
}

/// Text that passes through JSON escaping unchanged.
pub open spec fn spec_plain_text(s: Seq<u8>) -> bool {
    forall|i: int| 0 <= i < s.len() ==> spec_is_plain_byte(#[trigger] s[i])
}

/// Escaping plain text is the identity.
pub proof fn lemma_escaped_plain(s: Seq<u8>)
    requires
        spec_plain_text(s),
    ensures
        spec_escaped(s) == s,
    decreases s.len(),
{
    if s.len() > 0 {
        assert(spec_is_plain_byte(s[0]));
        assert(spec_escape_byte(s[0]) =~= seq![s[0]]);
        assert(spec_plain_text(s.drop_first())) by {
            assert(forall|i: int|
                0 <= i < s.drop_first().len() ==> (#[trigger] s.drop_first()[i]) == s[i + 1]);
        }
        lemma_escaped_plain(s.drop_first());
        assert(spec_escaped(s) =~= s);
    }
}

/// Whether `lit` stands at position `i` of `text`.
pub open spec fn spec_lit_at(text: Seq<u8>, i: int, lit: Seq<u8>) -> bool {
    0 <= i && i + lit.len() <= text.len() && text.subrange(i, i + lit.len()) == lit
}

/// Expect literal text at a position; on a match the position after it.
pub fn expect_lit(text: &Vec<u8>, i: usize, lit: &Vec<u8>) -> (r: Option<usize>)
    ensures
        r is Some <==> spec_lit_at(text@, i as int, lit@),
        r is Some ==> r->0 == i + lit@.len(),
{
    let n = text.len();
    let m = lit.len();
    if i > n || m > n - i {
        proof {
            assert(!spec_lit_at(text@, i as int, lit@));
        }
        return None;
    }
    let mut k: usize = 0;
    while k < m
        invariant
            n == text@.len(),
            m == lit@.len(),
            i + m <= n,
            k <= m,
            forall|q: int| 0 <= q < k ==> text@[i + q] == lit@[q],
        decreases m - k,
    {
        if text[i + k] != lit[k] {
            proof {
                assert(!spec_lit_at(text@, i as int, lit@)) by {
                    if text@.subrange(i as int, i + lit@.len()) == lit@ {
                        assert(text@.subrange(i as int, i + lit@.len())[k as int] == lit@[
                            k as int]);
                    }
                }
            }
            return None;
        }
        k = k + 1;
    }
    proof {
        assert(text@.subrange(i as int, i + lit@.len()) =~= lit@);
    }
    Some(i + m)
}

/// What the string reader found at position `i`: a quoted run of quote-free
/// bytes `s`, ending right before position `j`.
pub open spec fn spec_parsed_string(text: Seq<u8>, i: int, s: Seq<u8>, j: int) -> bool {
    &&& i + 2 <= j <= text.len()
    &&& text[i] == QUOTE
    &&& text[j - 1] == QUOTE
    &&& s == text.subrange(i + 1, j - 1)
    &&& forall|k: int| i + 1 <= k < j - 1 ==> text[k] != QUOTE
}

/// Read a string literal at a position: an opening quote, content up to the
/// first following quote, the closing quote. Returns the content and the
/// position after the closing quote. (Escapes are not interpreted: the
/// documents this store reads back carry plain text in every string field.)
pub fn parse_plain_string(text: &Vec<u8>, i: usize) -> (r: Option<(Vec<u8>, usize)>)
    ensures
        r is Some ==> ({
            let (s, j) = r->0;
            spec_parsed_string(text@, i as int, s@, j as int)
        }),
        r is None ==> (i >= text@.len() || text@[i as int] != QUOTE || forall|k: int|
            i < k < text@.len() ==> text@[k] != QUOTE),
{
    let n = text.len();
    if i >= n || text[i] != QUOTE {
        return None;
    }
    let mut k: usize = i + 1;
    let mut content: Vec<u8> = Vec::new();
    while k < n
        invariant
            n == text@.len(),
            i < k <= n,
            text@[i as int] == QUOTE,
            content@ == text@.subrange(i + 1, k as int),
            forall|q: int| i + 1 <= q < k ==> text@[q] != QUOTE,
        decreases n - k,
    {
        let b = text[k];
        if b == QUOTE {
            proof {
                assert(content@ == text@.subrange(i + 1, (k + 1) - 1));
            }
            return Some((content, k + 1));
        }
        content.push(b);
        proof {
            assert(text@.subrange(i + 1, k + 1 as int) =~= text@.subrange(i + 1, k as int).push(
                text@[k as int],
            ));
        }
        k = k + 1;
    }
    None
}

/// Reading a string back: where the text holds a quoted plain string, the
/// parser returns exactly that content and stops right after its closing
/// quote.
pub proof fn lemma_parse_plain_string_exact(
    text: Seq<u8>,
    i: int,
    content: Seq<u8>,
    s: Seq<u8>,
    j: int,
)
    requires
        spec_plain_text(content),
        spec_lit_at(text, i, spec_json_string(content)),
        spec_parsed_string(text, i, s, j),
    ensures
        s == content,
        j == i + content.len() + 2,
{
    lemma_escaped_plain(content);
    let lit = spec_json_string(content);
    assert(lit == seq![QUOTE] + content + seq![QUOTE]);
    assert(lit.len() == content.len() + 2);
    assert forall|q: int| 0 <= q < lit.len() implies text[i + q] == #[trigger] lit[q] by {
        assert(text.subrange(i, i + lit.len())[q] == text[i + q]);
    }
    assert(forall|q: int| 0 <= q < content.len() ==> lit[q + 1] == #[trigger] content[q]);
    // the closing quote cannot come earlier than the end of the content…
    assert(j - 1 >= i + 1 + content.len()) by {
        if j - 1 < i + 1 + content.len() {
            let q = j - 1 - (i + 1);
            assert(0 <= q < content.len());
            assert(lit[q + 1] == content[q]);
            assert(text[i + (q + 1)] == lit[q + 1]);
            assert(text[j - 1] == content[q]);
            assert(spec_is_plain_byte(content[q]));
        }
    }
    // …nor later, since one stands exactly there
    assert(j - 1 <= i + 1 + content.len()) by {
        if j - 1 > i + 1 + content.len() {
            assert(text[i + 1 + content.len() as int] == lit[(content.len() + 1) as int]);
            assert(lit[(content.len() + 1) as int] == QUOTE);
        }
    }
    assert(s =~= content) by {
        assert(forall|q: int| 0 <= q < content.len() ==> s[q] == text[i + 1 + q]);
        assert(forall|q: int| 0 <= q < content.len() ==> text[i + 1 + q] == content[q]);
    }
}

} // verus!
