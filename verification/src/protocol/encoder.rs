//! RESP2 and RESP3 reply encoders.
//!
//! Every encoder appends exactly one frame to the caller's buffer and leaves
//! what was already there untouched, so replies can be composed by calling
//! encoders one after another on the same buffer.

use vstd::prelude::*;
use crate::protocol::decimal::{push_decimal, push_signed_decimal};

verus! {

/// The line terminator `\r\n`.
pub open spec fn crlf() -> Seq<u8> {
    seq![13u8, 10u8]
}

/// Whether a line of text holds neither `\r` nor `\n`.
pub open spec fn is_single_line(text: Seq<char>) -> bool {
    forall|i: int| 0 <= i < text.len() ==> #[trigger] text[i] != '\r' && text[i] != '\n'
}

/// `+<text>\r\n`
pub open spec fn simple_string_frame(text: Seq<u8>) -> Seq<u8> {
    seq![43u8] + text + crlf()
}

/// `-<message>\r\n`
pub open spec fn error_frame(message: Seq<u8>) -> Seq<u8> {
    seq![45u8] + message + crlf()
}

/// `:<n>\r\n`
pub open spec fn integer_frame(n: int) -> Seq<u8> {
    seq![58u8] + crate::protocol::decimal::signed_decimal(n) + crlf()
}

/// `$<len>\r\n<payload>\r\n`
pub open spec fn bulk_string_frame(payload: Seq<u8>) -> Seq<u8> {
    seq![36u8] + crate::protocol::decimal::decimal_digits(payload.len()) + crlf() + payload + crlf()
}

/// `$-1\r\n`
pub open spec fn null_bulk_frame() -> Seq<u8> {
    seq![36u8, 45u8, 49u8, 13u8, 10u8]
}

/// `*<count>\r\n`
pub open spec fn array_header_frame(count: nat) -> Seq<u8> {
    seq![42u8] + crate::protocol::decimal::decimal_digits(count) + crlf()
}

/// `_\r\n`
pub open spec fn null_frame() -> Seq<u8> {
    seq![95u8, 13u8, 10u8]
}

/// `#t\r\n` or `#f\r\n`
pub open spec fn boolean_frame(v: bool) -> Seq<u8> {
    seq![35u8, if v { 116u8 } else { 102u8 }, 13u8, 10u8]
}

/// `%<count>\r\n`
pub open spec fn map_header_frame(count: nat) -> Seq<u8> {
    seq![37u8] + crate::protocol::decimal::decimal_digits(count) + crlf()
}

/// Appends `\r\n`.
fn push_crlf(buf: &mut Vec<u8>)
    ensures
        final(buf)@ == old(buf)@ + crlf(),
{
    buf.push(13u8);
    buf.push(10u8);
}

/// Appends the bytes of `bytes`, in order.
fn push_bytes(buf: &mut Vec<u8>, bytes: &[u8])
    ensures
        final(buf)@ == old(buf)@ + bytes@,
{
    let ghost start = buf@;
    let mut i: usize = 0;
    while i < bytes.len()
        invariant
            i <= bytes@.len(),
            buf@ == start + bytes@.subrange(0, i as int),
        decreases bytes@.len() - i,
    {
        buf.push(bytes[i]);
        i = i + 1;
        assert(buf@ =~= start + bytes@.subrange(0, i as int));
    }
    assert(bytes@.subrange(0, i as int) =~= bytes@);
}

/// Appends a RESP2 Simple String (`+<text>\r\n`).
///
/// Simple Strings are a single line: `text` must hold neither `\r` nor `\n`.
/// Longer or binary payloads go through [`encode_bulk_string`].
pub fn encode_simple_string(buf: &mut Vec<u8>, text: &str)
    requires
        is_single_line(text@),
    ensures
        final(buf)@ == old(buf)@ + simple_string_frame(vstd::utf8::encode_utf8(text@)),
{
    buf.reserve(text.len().saturating_add(3));
    buf.push(43u8);
    push_bytes(buf, text.as_bytes());
    push_crlf(buf);
}

/// Appends a RESP2 Error (`-<message>\r\n`).
///
/// The message is a single line; conventionally its first token is an
/// uppercase prefix such as `ERR`, `WRONGTYPE` or `OOM`.
pub fn encode_error(buf: &mut Vec<u8>, message: &str)
    requires
        is_single_line(message@),
    ensures
        final(buf)@ == old(buf)@ + error_frame(vstd::utf8::encode_utf8(message@)),
{
    buf.reserve(message.len().saturating_add(3));
    buf.push(45u8);
    push_bytes(buf, message.as_bytes());
    push_crlf(buf);
}

/// Appends a RESP2 Integer (`:<n>\r\n`), the value written in decimal.
pub fn encode_integer(buf: &mut Vec<u8>, n: i64)
    ensures
        final(buf)@ == old(buf)@ + integer_frame(n as int),
{
    buf.push(58u8);
    push_signed_decimal(buf, n);
    push_crlf(buf);
}

/// Appends a RESP2 Bulk String (`$<len>\r\n<payload>\r\n`).
///
/// The payload is written verbatim, so values holding CR/LF bytes come
/// through intact. An empty slice gives `$0\r\n\r\n`, which differs from the
/// null bulk of [`encode_null_bulk`].
pub fn encode_bulk_string(buf: &mut Vec<u8>, payload: &[u8])
    ensures
        final(buf)@ == old(buf)@ + bulk_string_frame(payload@),
{
    buf.push(36u8);
    push_decimal(buf, payload.len() as u64);
    push_crlf(buf);
    push_bytes(buf, payload);
    push_crlf(buf);
}

/// Appends a RESP2 Null Bulk String (`$-1\r\n`), the reply to `GET` on a
/// missing key.
pub fn encode_null_bulk(buf: &mut Vec<u8>)
    ensures
        final(buf)@ == old(buf)@ + null_bulk_frame(),
{
    buf.push(36u8);
    buf.push(45u8);
    buf.push(49u8);
    push_crlf(buf);
}

/// Appends a RESP2 Array header (`*<count>\r\n`); the caller follows it with
/// exactly `count` elements.
pub fn encode_array_header(buf: &mut Vec<u8>, count: usize)
    ensures
        final(buf)@ == old(buf)@ + array_header_frame(count as nat),
{
    buf.push(42u8);
    push_decimal(buf, count as u64);
    push_crlf(buf);
}

/// Appends a RESP3 Null (`_\r\n`), which takes the place of `$-1\r\n` under
/// RESP3.
pub fn encode_null(buf: &mut Vec<u8>)
    ensures
        final(buf)@ == old(buf)@ + null_frame(),
{
    buf.push(95u8);
    push_crlf(buf);
}

/// Appends a RESP3 Boolean (`#t\r\n` or `#f\r\n`), which takes the place of
/// `:1\r\n` and `:0\r\n` under RESP3.
pub fn encode_boolean(buf: &mut Vec<u8>, v: bool)
    ensures
        final(buf)@ == old(buf)@ + boolean_frame(v),
{
    buf.push(35u8);
    if v {
        buf.push(116u8);
    } else {
        buf.push(102u8);
    }
    push_crlf(buf);
}

/// Appends a RESP3 Map header (`%<count>\r\n`). `count` is the number of
/// key-value pairs, so `2 * count` elements follow.
pub fn encode_map_header(buf: &mut Vec<u8>, count: usize)
    ensures
        final(buf)@ == old(buf)@ + map_header_frame(count as nat),
{
    buf.push(37u8);
    push_decimal(buf, count as u64);
    push_crlf(buf);
}

// ── Laws ─────────────────────────────────────────────────────────────

/// Whether `s` holds no `\r` byte.
pub open spec fn has_no_cr(s: Seq<u8>) -> bool {
    forall|i: int| 0 <= i < s.len() ==> #[trigger] s[i] != 13u8
}

/// Whether `s` holds neither a `\r` nor a `\n` byte.
pub open spec fn has_no_line_break(s: Seq<u8>) -> bool {
    forall|i: int| 0 <= i < s.len() ==> #[trigger] s[i] != 13u8 && s[i] != 10u8
}

/// A line that ends at its first `\r\n` is read back exactly: when two
/// streams are equal and each starts with a line free of `\r`, the lines
/// are equal and so is what follows them.
proof fn lemma_line_split(b1: Seq<u8>, r1: Seq<u8>, b2: Seq<u8>, r2: Seq<u8>)
    requires
        has_no_cr(b1),
        has_no_cr(b2),
        b1 + crlf() + r1 == b2 + crlf() + r2,
    ensures
        b1 == b2,
        r1 == r2,
{
    let s1 = b1 + crlf() + r1;
    let s2 = b2 + crlf() + r2;
    if b1.len() < b2.len() {
        assert(s1[b1.len() as int] == 13u8);
        assert(s2[b1.len() as int] == b2[b1.len() as int]);
    } else if b2.len() < b1.len() {
        assert(s2[b2.len() as int] == 13u8);
        assert(s1[b2.len() as int] == b1[b2.len() as int]);
    }
    assert(b1 =~= s1.subrange(0, b1.len() as int));
    assert(b2 =~= s2.subrange(0, b2.len() as int));
    assert(r1 =~= s1.subrange(b1.len() as int + 2, s1.len() as int));
    assert(r2 =~= s2.subrange(b2.len() as int + 2, s2.len() as int));
}

/// A one-byte tag followed by a line free of `\r` is read back exactly.
proof fn lemma_tagged_line_split(tag: u8, b1: Seq<u8>, r1: Seq<u8>, b2: Seq<u8>, r2: Seq<u8>)
    requires
        has_no_cr(b1),
        has_no_cr(b2),
        tag != 13u8,
        seq![tag] + b1 + crlf() + r1 == seq![tag] + b2 + crlf() + r2,
    ensures
        b1 == b2,
        r1 == r2,
{
    let h1 = seq![tag] + b1;
    let h2 = seq![tag] + b2;
    assert(has_no_cr(h1)) by {
        assert forall|k: int| 0 <= k < h1.len() implies #[trigger] h1[k] != 13u8 by {
            if k > 0 {
                assert(h1[k] == b1[k - 1]);
            }
        }
    }
    assert(has_no_cr(h2)) by {
        assert forall|k: int| 0 <= k < h2.len() implies #[trigger] h2[k] != 13u8 by {
            if k > 0 {
                assert(h2[k] == b2[k - 1]);
            }
        }
    }
    lemma_line_split(h1, r1, h2, r2);
    assert(b1 =~= h1.drop_first());
    assert(b2 =~= h2.drop_first());
}

/// A decimal rendering holds no `\r`.
proof fn lemma_decimal_no_cr(n: nat)
    ensures
        has_no_cr(crate::protocol::decimal::decimal_digits(n)),
{
    crate::protocol::decimal::lemma_decimal_digits_ascii(n);
}

/// A signed decimal rendering holds no `\r`.
proof fn lemma_signed_decimal_no_cr(i: int)
    ensures
        has_no_cr(crate::protocol::decimal::signed_decimal(i)),
{
    let m: nat = (if i < 0 { -i } else { i }) as nat;
    crate::protocol::decimal::lemma_decimal_digits_ascii(m);
    let s = crate::protocol::decimal::signed_decimal(i);
    assert forall|k: int| 0 <= k < s.len() implies #[trigger] s[k] != 13u8 by {
        if i < 0 && k > 0 {
            assert(s[k] == crate::protocol::decimal::decimal_digits(m)[k - 1]);
        }
    }
}

/// The UTF-8 encoding of a character other than `\r` and `\n` holds neither
/// byte.
proof fn lemma_scalar_no_line_break(u: u32)
    requires
        u != 13,
        u != 10,
    ensures
        has_no_line_break(vstd::utf8::encode_scalar(u)),
{
    let e = vstd::utf8::encode_scalar(u);
    if u <= 0x7f {
        assert(u <= 0x7f ==> (u & 0x7f) as u8 == u) by (bit_vector);
        assert(e[0] == u);
    } else {
        assert((0xC0u8 | ((u >> 6) & 0x1F) as u8) >= 0x80u8) by (bit_vector);
        assert((0xE0u8 | ((u >> 12) & 0x0F) as u8) >= 0x80u8) by (bit_vector);
        assert((0xF0u8 | ((u >> 18) & 0x7) as u8) >= 0x80u8) by (bit_vector);
        assert((0x80u8 | (u & 0x3F) as u8) >= 0x80u8) by (bit_vector);
        assert((0x80u8 | ((u >> 6) & 0x3F) as u8) >= 0x80u8) by (bit_vector);
        assert((0x80u8 | ((u >> 12) & 0x3F) as u8) >= 0x80u8) by (bit_vector);
        assert forall|k: int| 0 <= k < e.len() implies #[trigger] e[k] >= 0x80u8 by {}
    }
}

/// The UTF-8 encoding of a single-line text holds neither `\r` nor `\n`.
proof fn lemma_single_line_encoding(text: Seq<char>)
    requires
        is_single_line(text),
    ensures
        has_no_line_break(vstd::utf8::encode_utf8(text)),
    decreases text.len(),
{
    if text.len() > 0 {
        let rest = text.drop_first();
        assert(is_single_line(rest)) by {
            assert forall|i: int| 0 <= i < rest.len() implies #[trigger] rest[i] != '\r'
                && rest[i] != '\n' by {
                assert(rest[i] == text[i + 1]);
            }
        }
        lemma_single_line_encoding(rest);
        assert(text[0] != '\r' && text[0] != '\n');
        assert(text[0] as u32 != 10 && text[0] as u32 != 13) by {
            let u = text[0] as u32;
            vstd::utf8::char_u32_cast(text[0], u);
            vstd::utf8::char_u32_cast('\n', 10u32);
            vstd::utf8::char_u32_cast('\r', 13u32);
        }
        lemma_scalar_no_line_break(text[0] as u32);
        let head = vstd::utf8::encode_scalar(text[0] as u32);
        let tail = vstd::utf8::encode_utf8(rest);
        let all = vstd::utf8::encode_utf8(text);
        assert(all == head + tail);
        assert forall|k: int| 0 <= k < all.len() implies #[trigger] all[k] != 13u8 && all[k]
            != 10u8 by {
            if k < head.len() {
                assert(all[k] == head[k]);
            } else {
                assert(all[k] == tail[k - head.len()]);
            }
        }
    }
}

/// A Simple String reply is one line: its only `\r` and `\n` bytes are the
/// closing `\r\n`.
pub proof fn lemma_simple_string_is_one_line(text: Seq<char>)
    requires
        is_single_line(text),
    ensures
        ({
            let frame = simple_string_frame(vstd::utf8::encode_utf8(text));
            &&& frame.subrange(frame.len() - 2, frame.len() as int) == crlf()
            &&& has_no_line_break(frame.subrange(0, frame.len() - 2))
        }),
{
    lemma_single_line_encoding(text);
    let body = vstd::utf8::encode_utf8(text);
    let frame = simple_string_frame(body);
    let line = frame.subrange(0, frame.len() - 2);
    assert(line =~= seq![43u8] + body);
    assert forall|k: int| 0 <= k < line.len() implies #[trigger] line[k] != 13u8 && line[k]
        != 10u8 by {
        if k > 0 {
            assert(line[k] == body[k - 1]);
        }
    }
    assert(frame.subrange(frame.len() - 2, frame.len() as int) =~= crlf());
}

/// An Error reply is one line: its only `\r` and `\n` bytes are the closing
/// `\r\n`.
pub proof fn lemma_error_is_one_line(message: Seq<char>)
    requires
        is_single_line(message),
    ensures
        ({
            let frame = error_frame(vstd::utf8::encode_utf8(message));
            &&& frame.subrange(frame.len() - 2, frame.len() as int) == crlf()
            &&& has_no_line_break(frame.subrange(0, frame.len() - 2))
        }),
{
    lemma_single_line_encoding(message);
    let body = vstd::utf8::encode_utf8(message);
    let frame = error_frame(body);
    let line = frame.subrange(0, frame.len() - 2);
    assert(line =~= seq![45u8] + body);
    assert forall|k: int| 0 <= k < line.len() implies #[trigger] line[k] != 13u8 && line[k]
        != 10u8 by {
        if k > 0 {
            assert(line[k] == body[k - 1]);
        }
    }
    assert(frame.subrange(frame.len() - 2, frame.len() as int) =~= crlf());
}

/// Bulk Strings are binary safe: whatever the payloads hold (`\r\n`
/// included) and whatever follows them in the stream, two streams that begin
/// with Bulk String frames and are equal carry the same payload and the same
/// remainder.
pub proof fn lemma_bulk_string_round_trip(p1: Seq<u8>, r1: Seq<u8>, p2: Seq<u8>, r2: Seq<u8>)
    requires
        bulk_string_frame(p1) + r1 == bulk_string_frame(p2) + r2,
    ensures
        p1 == p2,
        r1 == r2,
{
    let d1 = crate::protocol::decimal::decimal_digits(p1.len());
    let d2 = crate::protocol::decimal::decimal_digits(p2.len());
    lemma_decimal_no_cr(p1.len());
    lemma_decimal_no_cr(p2.len());
    let t1 = p1 + crlf() + r1;
    let t2 = p2 + crlf() + r2;
    assert(bulk_string_frame(p1) + r1 =~= seq![36u8] + d1 + crlf() + t1);
    assert(bulk_string_frame(p2) + r2 =~= seq![36u8] + d2 + crlf() + t2);
    lemma_tagged_line_split(36u8, d1, t1, d2, t2);
    crate::protocol::decimal::lemma_decimal_digits_injective(p1.len(), p2.len());
    assert(p1 =~= t1.subrange(0, p1.len() as int));
    assert(p2 =~= t2.subrange(0, p2.len() as int));
    assert(r1 =~= t1.subrange(p1.len() as int + 2, t1.len() as int));
    assert(r2 =~= t2.subrange(p2.len() as int + 2, t2.len() as int));
}

/// The null bulk can never be taken for a Bulk String, not even the empty
/// one: a stream that begins with `$-1\r\n` never equals one that begins with
/// a Bulk String frame.
pub proof fn lemma_null_bulk_is_not_a_bulk_string(p: Seq<u8>, r1: Seq<u8>, r2: Seq<u8>)
    ensures
        null_bulk_frame() + r1 != bulk_string_frame(p) + r2,
{
    let d = crate::protocol::decimal::decimal_digits(p.len());
    crate::protocol::decimal::lemma_decimal_digits_ascii(p.len());
    assert((bulk_string_frame(p) + r2)[1] == d[0]);
    assert((null_bulk_frame() + r1)[1] == 45u8);
}

/// An Integer reply is read back exactly: two streams that begin with
/// Integer frames and are equal carry the same integer and the same
/// remainder.
pub proof fn lemma_integer_round_trip(a: int, r1: Seq<u8>, b: int, r2: Seq<u8>)
    requires
        integer_frame(a) + r1 == integer_frame(b) + r2,
    ensures
        a == b,
        r1 == r2,
{
    lemma_signed_decimal_no_cr(a);
    lemma_signed_decimal_no_cr(b);
    lemma_tagged_line_split(
        58u8,
        crate::protocol::decimal::signed_decimal(a),
        r1,
        crate::protocol::decimal::signed_decimal(b),
        r2,
    );
    crate::protocol::decimal::lemma_signed_decimal_injective(a, b);
}

/// An Array header is read back exactly: two streams that begin with Array
/// headers and are equal carry the same element count and the same
/// remainder.
pub proof fn lemma_array_header_round_trip(a: nat, r1: Seq<u8>, b: nat, r2: Seq<u8>)
    requires
        array_header_frame(a) + r1 == array_header_frame(b) + r2,
    ensures
        a == b,
        r1 == r2,
{
    lemma_decimal_no_cr(a);
    lemma_decimal_no_cr(b);
    lemma_tagged_line_split(
        42u8,
        crate::protocol::decimal::decimal_digits(a),
        r1,
        crate::protocol::decimal::decimal_digits(b),
        r2,
    );
    crate::protocol::decimal::lemma_decimal_digits_injective(a, b);
}

/// A Map header is read back exactly: two streams that begin with Map
/// headers and are equal carry the same pair count and the same remainder.
pub proof fn lemma_map_header_round_trip(a: nat, r1: Seq<u8>, b: nat, r2: Seq<u8>)
    requires
        map_header_frame(a) + r1 == map_header_frame(b) + r2,
    ensures
        a == b,
        r1 == r2,
{
    lemma_decimal_no_cr(a);
    lemma_decimal_no_cr(b);
    lemma_tagged_line_split(
        37u8,
        crate::protocol::decimal::decimal_digits(a),
        r1,
        crate::protocol::decimal::decimal_digits(b),
        r2,
    );
    crate::protocol::decimal::lemma_decimal_digits_injective(a, b);
}

/// A Simple String is read back exactly: two streams that begin with Simple
/// String frames of single-line texts and are equal carry the same text and
/// the same remainder.
pub proof fn lemma_simple_string_round_trip(t1: Seq<char>, r1: Seq<u8>, t2: Seq<char>, r2: Seq<u8>)
    requires
        is_single_line(t1),
        is_single_line(t2),
        simple_string_frame(vstd::utf8::encode_utf8(t1)) + r1 == simple_string_frame(
            vstd::utf8::encode_utf8(t2),
        ) + r2,
    ensures
        t1 == t2,
        r1 == r2,
{
    lemma_single_line_encoding(t1);
    lemma_single_line_encoding(t2);
    lemma_tagged_line_split(43u8, vstd::utf8::encode_utf8(t1), r1, vstd::utf8::encode_utf8(t2), r2);
    vstd::utf8::encode_utf8_decode_utf8(t1);
    vstd::utf8::encode_utf8_decode_utf8(t2);
}

/// An Error reply is read back exactly: two streams that begin with Error
/// frames of single-line messages and are equal carry the same message and
/// the same remainder.
pub proof fn lemma_error_round_trip(m1: Seq<char>, r1: Seq<u8>, m2: Seq<char>, r2: Seq<u8>)
    requires
        is_single_line(m1),
        is_single_line(m2),
        error_frame(vstd::utf8::encode_utf8(m1)) + r1 == error_frame(vstd::utf8::encode_utf8(m2))
            + r2,
    ensures
        m1 == m2,
        r1 == r2,
{
    lemma_single_line_encoding(m1);
    lemma_single_line_encoding(m2);
    lemma_tagged_line_split(45u8, vstd::utf8::encode_utf8(m1), r1, vstd::utf8::encode_utf8(m2), r2);
    vstd::utf8::encode_utf8_decode_utf8(m1);
    vstd::utf8::encode_utf8_decode_utf8(m2);
}

/// An Integer frame is `:`, the standard signed decimal text of `n`, and
/// `\r\n`: the text between `:` and `\r\n` reads back as `n`, and starts
/// with `-` exactly when `n` is negative.
pub proof fn lemma_integer_frame_reads_back(n: int)
    ensures
        ({
            let f = integer_frame(n);
            let text = f.subrange(1, f.len() - 2);
            &&& f.len() >= 4
            &&& f[0] == 58u8
            &&& f[f.len() - 2] == 13u8
            &&& f[f.len() - 1] == 10u8
            &&& crate::protocol::decimal::signed_digits_value(text) == n
            &&& (text[0] == 45u8) == (n < 0)
        }),
{
    crate::protocol::decimal::lemma_signed_decimal_read_back(n);
    crate::protocol::decimal::lemma_decimal_digits_ascii((if n < 0 { -n } else { n }) as nat);
    let f = integer_frame(n);
    assert(f.subrange(1, f.len() - 2) =~= crate::protocol::decimal::signed_decimal(n));
}

/// A Bulk String frame is `$`, the decimal length of the payload, `\r\n`,
/// the payload verbatim and in order, and `\r\n`.
pub proof fn lemma_bulk_string_frame_layout(payload: Seq<u8>)
    ensures
        ({
            let f = bulk_string_frame(payload);
            let h = f.len() - payload.len() - 2;
            &&& h >= 4
            &&& f[0] == 36u8
            &&& crate::protocol::decimal::all_digits(f.subrange(1, h - 2))
            &&& crate::protocol::decimal::digits_value(f.subrange(1, h - 2)) == payload.len()
            &&& f[h - 2] == 13u8
            &&& f[h - 1] == 10u8
            &&& f.subrange(h, h + payload.len()) == payload
            &&& f[f.len() - 2] == 13u8
            &&& f[f.len() - 1] == 10u8
        }),
{
    let d = crate::protocol::decimal::decimal_digits(payload.len());
    crate::protocol::decimal::lemma_decimal_digits_read_back(payload.len());
    let f = bulk_string_frame(payload);
    let h = f.len() - payload.len() - 2;
    assert(h == d.len() + 3);
    assert(f.subrange(1, h - 2) =~= d);
    assert(f.subrange(h, h + payload.len()) =~= payload);
}

/// An Array header is `*`, the standard decimal text of the element count,
/// and `\r\n`.
pub proof fn lemma_array_header_layout(count: nat)
    ensures
        ({
            let f = array_header_frame(count);
            &&& f.len() >= 4
            &&& f[0] == 42u8
            &&& crate::protocol::decimal::all_digits(f.subrange(1, f.len() - 2))
            &&& crate::protocol::decimal::digits_value(f.subrange(1, f.len() - 2)) == count
            &&& f[f.len() - 2] == 13u8
            &&& f[f.len() - 1] == 10u8
        }),
{
    crate::protocol::decimal::lemma_decimal_digits_read_back(count);
    let f = array_header_frame(count);
    assert(f.subrange(1, f.len() - 2) =~= crate::protocol::decimal::decimal_digits(count));
}

/// A Map header is `%` (whatever the count), the standard decimal text of
/// the pair count, and `\r\n`.
pub proof fn lemma_map_header_layout(count: nat)
    ensures
        ({
            let f = map_header_frame(count);
            &&& f.len() >= 4
            &&& f[0] == 37u8
            &&& crate::protocol::decimal::all_digits(f.subrange(1, f.len() - 2))
            &&& crate::protocol::decimal::digits_value(f.subrange(1, f.len() - 2)) == count
            &&& f[f.len() - 2] == 13u8
            &&& f[f.len() - 1] == 10u8
        }),
{
    crate::protocol::decimal::lemma_decimal_digits_read_back(count);
    let f = map_header_frame(count);
    assert(f.subrange(1, f.len() - 2) =~= crate::protocol::decimal::decimal_digits(count));
}

/// A Simple String frame is `+`, the UTF-8 bytes of the text verbatim, and
/// `\r\n`; an Error frame is the same with `-`.
pub proof fn lemma_line_frames_layout(text: Seq<char>)
    ensures
        ({
            let b = vstd::utf8::encode_utf8(text);
            let s = simple_string_frame(b);
            let e = error_frame(b);
            &&& s.len() == b.len() + 3 && e.len() == b.len() + 3
            &&& s[0] == 43u8 && e[0] == 45u8
            &&& s.subrange(1, s.len() - 2) == b && e.subrange(1, e.len() - 2) == b
            &&& s[s.len() - 2] == 13u8 && s[s.len() - 1] == 10u8
            &&& e[e.len() - 2] == 13u8 && e[e.len() - 1] == 10u8
        }),
{
    let b = vstd::utf8::encode_utf8(text);
    assert(simple_string_frame(b).subrange(1, b.len() as int + 1) =~= b);
    assert(error_frame(b).subrange(1, b.len() as int + 1) =~= b);
}

} // verus!
