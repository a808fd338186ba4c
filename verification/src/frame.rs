//! `Content-Length`-framed JSON messages, which the Debug Adapter Protocol
//! and the Language Server Protocol share.

use vstd::prelude::*;
use vstd::utf8::{decode_utf8, encode_utf8, valid_utf8};
use crate::json::{bytes_read_back, json_text, opt_view, parsed_bytes, Doc, Json};
use crate::num::{
    all_digits, int_text, int_text_reads_back, nat_text, nat_value_upto, read_count, show_count,
};
use crate::text::{digit, lemma_strip_end, lemma_strip_start, trim, trimmed, whites};

verus! {

// ---------------------------------------------------------------------------
// Reading
// ---------------------------------------------------------------------------

/// `String::from_utf8`: the text of the bytes, where they are UTF-8.
#[verifier::external_body]
fn utf8_text(bytes: Vec<u8>) -> (r: Option<String>)
    ensures
        match r {
            Some(s) => valid_utf8(bytes@) && s@ == decode_utf8(bytes@),
            None => !valid_utf8(bytes@),
        },
{
    String::from_utf8(bytes).ok()
}

/// A header ends with an empty line.
pub open spec fn header_done(h: Seq<u8>) -> bool {
    h.len() >= 4 && h[h.len() - 4] == 13 && h[h.len() - 3] == 10 && h[h.len() - 2] == 13 && h[h.len()
        - 1] == 10
}

/// Where the line that position `i` lies in ends: at the next line feed, or
/// at the end.
pub open spec fn line_end(h: Seq<u8>, i: int) -> int
    decreases h.len() - i,
{
    if i < 0 || i >= h.len() || h[i] == 10 {
        i
    } else {
        line_end(h, i + 1)
    }
}

/// The ASCII lower-case form of a byte.
pub open spec fn lower_byte(b: u8) -> u8 {
    if 65 <= b <= 90 {
        (b + 32) as u8
    } else {
        b
    }
}

/// The bytes `content-length:`.
pub open spec fn length_key() -> Seq<u8> {
    seq![
        99u8,
        111u8,
        110u8,
        116u8,
        101u8,
        110u8,
        116u8,
        45u8,
        108u8,
        101u8,
        110u8,
        103u8,
        116u8,
        104u8,
        58u8,
    ]
}

/// The line names a content length, in upper or lower case.
pub open spec fn names_length(line: Seq<u8>) -> bool {
    line.len() >= 15 && forall|i: int|
        0 <= i < 15 ==> lower_byte(#[trigger] line[i]) == length_key()[i]
}

/// What stands behind `content-length:` in the first line from `i` on that
/// names one.
pub open spec fn length_field(h: Seq<u8>, i: int) -> Option<Seq<u8>>
    decreases h.len() - i,
{
    if i < 0 || i >= h.len() {
        None
    } else {
        let e = line_end(h, i);
        if names_length(h.subrange(i, e)) {
            Some(h.subrange(i + 15, e))
        } else if e < i || e >= h.len() {
            None
        } else {
            length_field(h, e + 1)
        }
    }
}

/// The content length that a header declares.
pub open spec fn declared_length(h: Seq<u8>) -> Option<int> {
    match length_field(h, 0) {
        Some(v) => if valid_utf8(v) {
            nat_value_upto(trimmed(decode_utf8(v)), usize::MAX as int)
        } else {
            None
        },
        None => None,
    }
}

/// What the bytes of a header call for.
#[derive(Clone, Copy, Debug)]
pub enum Framing {
    /// One more byte of the header.
    More,
    /// A body of that many bytes.
    Body(usize),
    /// Nothing: the header is malformed.
    Bad,
}

/// What the bytes of a header, read one by one so far, call for.
pub open spec fn framing(h: Seq<u8>) -> Framing {
    if header_done(h) {
        match declared_length(h) {
            Some(n) => Framing::Body(n as usize),
            None => Framing::Bad,
        }
    } else if h.len() > 65536 {
        Framing::Bad
    } else {
        Framing::More
    }
}

proof fn lemma_line_end(h: Seq<u8>, i: int)
    requires
        0 <= i <= h.len(),
    ensures
        i <= line_end(h, i) <= h.len(),
        line_end(h, i) < h.len() ==> h[line_end(h, i)] == 10,
        forall|k: int| i <= k < line_end(h, i) ==> h[k] != 10,
    decreases h.len() - i,
{
    if i < h.len() && h[i] != 10 {
        lemma_line_end(h, i + 1);
    }
}

fn key_byte(i: usize) -> (b: u8)
    requires
        i < 15,
    ensures
        b == length_key()[i as int],
{
    let key: [u8; 15] = [99, 111, 110, 116, 101, 110, 116, 45, 108, 101, 110, 103, 116, 104, 58];
    assert(key@ =~= length_key());
    key[i]
}

fn has_length(h: &Vec<u8>, from: usize, to: usize) -> (r: bool)
    requires
        from <= to <= h.len(),
    ensures
        r == names_length(h@.subrange(from as int, to as int)),
{
    let ghost line = h@.subrange(from as int, to as int);
    if to - from < 15 {
        return false;
    }
    let mut i: usize = 0;
    while i < 15
        invariant
            i <= 15,
            from + 15 <= to <= h.len(),
            line == h@.subrange(from as int, to as int),
            forall|k: int| 0 <= k < i ==> lower_byte(#[trigger] line[k]) == length_key()[k],
        decreases 15 - i,
    {
        let b: u8 = h[from + i];
        assert(b == line[i as int]);
        let low: u8 = if 65 <= b && b <= 90 {
            b + 32
        } else {
            b
        };
        if low != key_byte(i) {
            return false;
        }
        i += 1;
    }
    true
}

fn read_length(h: &Vec<u8>) -> (r: Option<usize>)
    ensures
        match r {
            Some(n) => declared_length(h@) == Some(n as int),
            None => declared_length(h@) is None,
        },
{
    let mut i: usize = 0;
    while i < h.len()
        invariant
            i <= h.len(),
            length_field(h@, 0) == length_field(h@, i as int),
        decreases h.len() - i,
    {
        let mut e: usize = i;
        while e < h.len() && h[e] != 10
            invariant
                i <= e <= h.len(),
                line_end(h@, i as int) == line_end(h@, e as int),
            decreases h.len() - e,
        {
            e += 1;
        }
        if has_length(h, i, e) {
            let mut v: Vec<u8> = Vec::new();
            let mut k: usize = i + 15;
            while k < e
                invariant
                    i + 15 <= k <= e <= h.len(),
                    v@ == h@.subrange(i + 15, k as int),
                decreases e - k,
            {
                v.push(h[k]);
                k += 1;
            }
            return match utf8_text(v) {
                Some(s) => read_count(trim(s.as_str()).as_str()),
                None => None,
            };
        }
        if e == h.len() {
            return None;
        }
        i = e + 1;
    }
    None
}

/// Takes the next byte of a message's header and says what is called for: one
/// more byte, the body, or giving up. The header ends with an empty line; its
/// first `Content-Length` line counts, and one that runs past 65536 bytes is
/// malformed.
pub fn read_framed(header: &mut Vec<u8>, byte: u8) -> (r: Framing)
    ensures
        final(header)@ == old(header)@.push(byte),
        r == framing(final(header)@),
{
    header.push(byte);
    let n: usize = header.len();
    if n >= 4 && header[n - 4] == 13 && header[n - 3] == 10 && header[n - 2] == 13 && header[n - 1]
        == 10 {
        match read_length(header) {
            Some(len) => Framing::Body(len),
            None => Framing::Bad,
        }
    } else if n > 65536 {
        Framing::Bad
    } else {
        Framing::More
    }
}

/// The message in a body of the declared length.
pub fn read_body(body: &[u8]) -> (r: Option<Json>)
    ensures
        opt_view(r) == parsed_bytes(body@),
        bytes_read_back(body@, opt_view(r)),
{
    Json::parse_bytes(body)
}

// ---------------------------------------------------------------------------
// Writing
// ---------------------------------------------------------------------------

/// The header of a message of `n` bytes.
pub open spec fn header_text(n: int) -> Seq<char> {
    "Content-Length: "@ + int_text(n) + "\r\n\r\n"@
}

/// The bytes of a message's body.
pub open spec fn body_bytes(d: Doc) -> Seq<u8> {
    encode_utf8(json_text(d))
}

/// The bytes of a whole message.
pub open spec fn framed(d: Doc) -> Seq<u8> {
    encode_utf8(header_text(body_bytes(d).len() as int)) + body_bytes(d)
}

/// The bytes of a message: its header and its body.
pub fn write_framed(payload: &Json) -> (r: Vec<u8>)
    ensures
        r@ == framed(payload@),
{
    let body = payload.render_bytes();
    let mut text = String::from_str("Content-Length: ");
    let n = show_count(body.len());
    text.append(n.as_str());
    text.append("\r\n\r\n");
    let mut r: Vec<u8> = Vec::new();
    let head = text.as_str().as_bytes();
    let mut i: usize = 0;
    while i < head.len()
        invariant
            i <= head.len(),
            r@ == head@.take(i as int),
        decreases head.len() - i,
    {
        r.push(head[i]);
        i += 1;
    }
    let mut k: usize = 0;
    while k < body.len()
        invariant
            k <= body.len(),
            r@ == head@ + body@.take(k as int),
        decreases body.len() - k,
    {
        r.push(body[k]);
        k += 1;
    }
    r
}

// ---------------------------------------------------------------------------
// The round trip
// ---------------------------------------------------------------------------

spec fn ascii(s: Seq<char>) -> bool {
    forall|i: int| 0 <= i < s.len() ==> (#[trigger] s[i] as u32) < 128
}

proof fn lemma_char(c: char)
    requires
        (c as u32) < 128,
    ensures
        c as u32 as u8 == c as u8,
{
}

proof fn lemma_ascii(s: Seq<char>)
    requires
        ascii(s),
    ensures
        encode_utf8(s).len() == s.len(),
        forall|i: int| 0 <= i < s.len() ==> #[trigger] encode_utf8(s)[i] == s[i] as u8,
    decreases s.len(),
{
    if s.len() > 0 {
        let rest = s.drop_first();
        assert forall|i: int| 0 <= i < rest.len() implies (#[trigger] rest[i] as u32) < 128 by {
            assert(rest[i] == s[i + 1]);
        }
        lemma_ascii(rest);
        let c = s[0];
        let n = c as u32;
        assert(n < 128);
        assert((n & 0x7F) as u8 == n as u8) by (bit_vector)
            requires
                n < 128,
        ;
        assert(encode_utf8(s)[0] == vstd::utf8::encode_scalar(n)[0]);
        lemma_char(c);
        assert forall|i: int| 0 <= i < s.len() implies #[trigger] encode_utf8(s)[i] == s[i] as u8 by {
            if i > 0 {
                assert(encode_utf8(s)[i] == encode_utf8(rest)[i - 1]);
                assert(rest[i - 1] == s[i]);
            }
        }
    }
}

proof fn lemma_nat_text_small(n: int, k: nat)
    requires
        0 <= n,
        k > 0,
        n < vstd::arithmetic::power::pow(10, k),
    ensures
        nat_text(n).len() <= k,
        all_digits(nat_text(n)),
        nat_text(n).len() > 0,
    decreases k,
{
    vstd::arithmetic::power::lemma_pow1(10);
    if n >= 10 {
        reveal(vstd::arithmetic::power::pow);
        assert(vstd::arithmetic::power::pow(10, k) == 10 * vstd::arithmetic::power::pow(
            10,
            (k - 1) as nat,
        ));
        if k == 1 {
            assert(false);
        }
        lemma_nat_text_small(n / 10, (k - 1) as nat);
    }
}

proof fn lemma_no_break(h: Seq<u8>, i: int, e: int)
    requires
        0 <= i <= e <= h.len(),
        forall|k: int| i <= k < e ==> h[k] != 10,
        e < h.len() ==> h[e] == 10,
    ensures
        line_end(h, i) == e,
    decreases e - i,
{
    if i < e {
        lemma_no_break(h, i + 1, e);
    }
}

/// What is written as the header of a message of `n` bytes reads back as
/// that: no part of it but the whole ends the header, and the whole calls for
/// a body of `n` bytes.
pub proof fn headers_read_back(n: usize)
    ensures
        forall|k: int|
            0 <= k < encode_utf8(header_text(n as int)).len() ==> framing(
                #[trigger] encode_utf8(header_text(n as int)).take(k),
            ) is More,
        framing(encode_utf8(header_text(n as int))) == Framing::Body(n),
{
    let digits = int_text(n as int);
    let text = header_text(n as int);
    let h = encode_utf8(text);
    reveal_strlit("Content-Length: ");
    reveal_strlit("\r\n\r\n");
    assert(n < vstd::arithmetic::power::pow(10, 20)) by {
        assert(vstd::arithmetic::power::pow(10, 20) == 100000000000000000000) by {
            reveal(vstd::arithmetic::power::pow);
            reveal_with_fuel(vstd::arithmetic::power::pow, 21);
        }
    }
    lemma_nat_text_small(n as int, 20);
    let d = digits.len() as int;
    assert(digits == nat_text(n as int));
    assert(text.len() == 20 + d);
    assert forall|i: int| 0 <= i < text.len() implies (#[trigger] text[i] as u32) < 128 by {
        if 16 <= i < 16 + d {
            assert(text[i] == digits[i - 16]);
            assert(digit(digits[i - 16]));
        }
    }
    lemma_ascii(text);
    assert forall|i: int| 0 <= i < d implies #[trigger] h[16 + i] == digits[i] as u8 && 48 <= h[16
        + i] <= 57 by {
        assert(text[16 + i] == digits[i]);
        assert(digit(digits[i]));
    }
    assert(h[16 + d] == 13 && h[17 + d] == 10 && h[18 + d] == 13 && h[19 + d] == 10);
    assert forall|i: int| 0 <= i < 16 implies #[trigger] h[i] == "Content-Length: "@[i] as u8 by {
        assert(text[i] == "Content-Length: "@[i]);
    }
    // no earlier end
    assert forall|k: int| 0 <= k < h.len() implies framing(#[trigger] h.take(k)) is More by {
        let p = h.take(k);
        if header_done(p) {
            assert(h[k - 4] == 13);
            assert(16 + d <= k - 4 || false) by {
                if k - 4 < 16 {
                    assert(h[k - 4] == "Content-Length: "@[k - 4] as u8);
                } else if k - 4 < 16 + d {
                    assert(h[16 + (k - 4 - 16)] != 13);
                }
            }
        }
    }
    // the length line
    let e = 17 + d;
    assert forall|k: int| 0 <= k < e implies h[k] != 10 by {
        if k < 16 {
            assert(h[k] == "Content-Length: "@[k] as u8);
        } else if k < 16 + d {
            assert(h[16 + (k - 16)] != 10);
        }
    }
    lemma_no_break(h, 0, e);
    let line = h.subrange(0, e);
    assert(names_length(line)) by {
        assert forall|i: int| 0 <= i < 15 implies lower_byte(#[trigger] line[i])
            == length_key()[i] by {
            assert(h[i] == "Content-Length: "@[i] as u8);
        }
    }
    let v = h.subrange(15, e);
    assert(length_field(h, 0) == Some(v));
    let shown = seq![' '] + digits + seq!['\r'];
    assert(ascii(shown)) by {
        assert forall|i: int| 0 <= i < shown.len() implies (#[trigger] shown[i] as u32) < 128 by {
            if 1 <= i < 1 + d {
                assert(shown[i] == digits[i - 1]);
                assert(digit(digits[i - 1]));
            }
        }
    }
    lemma_ascii(shown);
    assert(encode_utf8(shown) =~= v) by {
        assert forall|i: int| 0 <= i < v.len() implies encode_utf8(shown)[i] == #[trigger] v[i] by {
            assert(encode_utf8(shown)[i] == shown[i] as u8);
            if 1 <= i < 1 + d {
                assert(h[16 + (i - 1)] == digits[i - 1] as u8);
            }
        }
    }
    vstd::utf8::encode_utf8_valid_utf8(shown);
    vstd::utf8::encode_utf8_decode_utf8(shown);
    assert(trimmed(shown) == digits) by {
        let w = whites();
        assert(digit(digits[0]));
        assert(digit(digits[d - 1]));
        lemma_strip_start(shown, w, 1);
        let rest = shown.skip(1);
        assert(rest[d] == '\r');
        assert(rest[d - 1] == digits[d - 1]);
        lemma_strip_end(rest, w, d);
        assert(rest.take(d) =~= digits);
    }
    int_text_reads_back(n as int);
}

/// What [`write_framed`] writes, the reader reads back: each byte of the
/// header calls for one more until the last, which calls for a body as long
/// as the one that follows, and the body holds the value, for every value of
/// whole numbers of at most 127 levels.
pub proof fn frames_read_back(d: Doc, r: Option<Doc>)
    requires
        d.within(127),
        body_bytes(d).len() <= usize::MAX,
        bytes_read_back(body_bytes(d), r),
    ensures
        forall|k: int|
            0 <= k < framed(d).len() - body_bytes(d).len() ==> framing(
                #[trigger] framed(d).take(k),
            ) is More,
        framing(framed(d).take(framed(d).len() - body_bytes(d).len())) == Framing::Body(
            body_bytes(d).len() as usize,
        ),
        framed(d).skip(framed(d).len() - body_bytes(d).len()) == body_bytes(d),
        r == Some(d),
{
    let n = body_bytes(d).len() as usize;
    let h = encode_utf8(header_text(n as int));
    headers_read_back(n);
    assert forall|k: int| 0 <= k < h.len() implies framing(#[trigger] framed(d).take(k)) is More by {
        assert(framed(d).take(k) =~= h.take(k));
    }
    assert(framed(d).take(h.len() as int) =~= h);
    assert(framed(d).skip(h.len() as int) =~= body_bytes(d));
    assert(body_bytes(d) == encode_utf8(json_text(d)));
}

/// A header goes on until a blank line ends it, and is given up after 64 KiB
/// without one; with one it declares the length of the body, or is bad.
pub proof fn a_header_ends_at_a_blank_line(h: Seq<u8>)
    ensures
        h.len() >= 4 && h.skip(h.len() - 4) == seq![13u8, 10u8, 13u8, 10u8] ==> framing(h) is Body
            || framing(h) is Bad,
        h.len() >= 4 && h.skip(h.len() - 4) != seq![13u8, 10u8, 13u8, 10u8] && h.len() <= 65536
            ==> framing(h) is More,
        h.len() < 4 ==> framing(h) is More,
        h.len() > 65536 && h.skip(h.len() - 4) != seq![13u8, 10u8, 13u8, 10u8] ==> framing(h) is Bad,
{
    if h.len() >= 4 {
        let t = h.skip(h.len() - 4);
        assert(t[0] == h[h.len() - 4] && t[1] == h[h.len() - 3] && t[2] == h[h.len() - 2] && t[3]
            == h[h.len() - 1]);
        if header_done(h) {
            assert(t =~= seq![13u8, 10u8, 13u8, 10u8]);
        }
    }
}

} // verus!
