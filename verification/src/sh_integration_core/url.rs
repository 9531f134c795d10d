//! Percent-decoding of the paths that arrive over LIPC, and trimming.
use vstd::prelude::*;
use vstd::utf8::{
    decode_utf8, encode_scalar, encode_utf8, has_width_1_encoding, is_ascii_chars, valid_utf8,
};
use crate::text::{chars_of, trim, trimmed, string_from_chars};

verus! {

/// The value of one hexadecimal digit; anything else counts as 0.
pub open spec fn hex_value(c: u8) -> u8 {
    if 48 <= c <= 57 {
        (c - 48) as u8
    } else if 97 <= c <= 102 {
        (c - 97 + 10) as u8
    } else if 65 <= c <= 70 {
        (c - 65 + 10) as u8
    } else {
        0
    }
}

/// The bytes of `raw` with every `%XY` (followed by at least two more bytes)
/// replaced by the byte whose hex digits are `X` and `Y`.
pub open spec fn percent_decode(raw: Seq<u8>) -> Seq<u8>
    decreases raw.len(),
{
    if raw.len() == 0 {
        Seq::empty()
    } else if raw[0] == 37 && 2 < raw.len() {
        seq![(hex_value(raw[1]) * 16 + hex_value(raw[2])) as u8] + percent_decode(
            raw.subrange(3, raw.len() as int),
        )
    } else {
        seq![raw[0]] + percent_decode(raw.drop_first())
    }
}

/// What `url_decode` returns for `raw`: the decoded bytes read as UTF-8, or
/// the empty string when they are not valid UTF-8.
pub open spec fn url_decoded(raw: Seq<char>) -> Seq<char> {
    let bytes = percent_decode(encode_utf8(raw));
    if valid_utf8(bytes) {
        decode_utf8(bytes)
    } else {
        Seq::empty()
    }
}

/// The value of a hexadecimal digit (0 for any other byte).
pub fn hex_decode(c: u8) -> (r: u8)
    ensures
        r == hex_value(c),
        r < 16,
{
    if 48 <= c && c <= 57 {
        c - 48
    } else if 97 <= c && c <= 102 {
        c - 97 + 10
    } else if 65 <= c && c <= 70 {
        c - 65 + 10
    } else {
        0
    }
}

/// `String::from_utf8`: the string whose UTF-8 encoding is `bytes`, if the
/// bytes are valid UTF-8.
#[verifier::external_body]
pub(crate) fn string_from_utf8(bytes: Vec<u8>) -> (r: Option<String>)
    ensures
        r is Some <==> valid_utf8(bytes@),
        r matches Some(s) ==> encode_utf8(s@) == bytes@,
{
    String::from_utf8(bytes).ok()
}

/// Percent-decodes `raw`; invalid UTF-8 in the result yields an empty string.
pub fn url_decode(raw: &str) -> (r: String)
    ensures
        r@ == url_decoded(raw@),
{
    let raw = raw.as_bytes();
    let mut result: Vec<u8> = Vec::new();
    let mut i: usize = 0;
    assert(raw@.subrange(0, raw@.len() as int) =~= raw@);
    assert(result@ + raw@ =~= raw@);
    while i < raw.len()
        invariant
            i <= raw@.len(),
            percent_decode(raw@) == result@ + percent_decode(raw@.subrange(i as int, raw@.len() as int)),
        decreases raw@.len() - i,
    {
        let ghost rest = raw@.subrange(i as int, raw@.len() as int);
        if raw[i] == 37 && raw.len() - i > 2 {
            let hi = hex_decode(raw[i + 1]);
            let lo = hex_decode(raw[i + 2]);
            assert((hi << 4u8) | lo == hi * 16 + lo) by (bit_vector)
                requires
                    hi < 16,
                    lo < 16,
            ;
            result.push((hi << 4) | lo);
            assert(rest.subrange(3, rest.len() as int) =~= raw@.subrange(i + 3, raw@.len() as int));
            i = i + 3;
        } else {
            result.push(raw[i]);
            assert(rest.drop_first() =~= raw@.subrange(i + 1, raw@.len() as int));
            i = i + 1;
        }
    }
    assert(raw@.subrange(i as int, raw@.len() as int) =~= Seq::<u8>::empty());
    assert(result@ + Seq::<u8>::empty() =~= result@);
    let ghost decoded = result@;
    match string_from_utf8(result) {
        Some(s) => {
            proof {
                vstd::utf8::encode_utf8_decode_utf8(s@);
            }
            s
        },
        None => String::new(),
    }
}

/// `s` with leading and trailing whitespace removed.
pub fn strip(s: &str) -> (r: String)
    ensures
        r@ == trim(s@),
{
    let v = chars_of(s);
    let t = trimmed(v.as_slice());
    string_from_chars(t.as_slice())
}

/// A path without any `%` comes back unchanged.
pub proof fn lemma_url_decode_plain(raw: Seq<char>)
    requires
        forall|k: int| 0 <= k < encode_utf8(raw).len() ==> #[trigger] encode_utf8(raw)[k] != 37u8,
    ensures
        url_decoded(raw) == raw,
{
    let b = encode_utf8(raw);
    lemma_percent_decode_identity(b);
    vstd::utf8::encode_utf8_valid_utf8(raw);
    vstd::utf8::encode_utf8_decode_utf8(raw);
}

/// Bytes without `%` are left as they are.
pub proof fn lemma_percent_decode_identity(b: Seq<u8>)
    requires
        forall|k: int| 0 <= k < b.len() ==> b[k] != 37u8,
    ensures
        percent_decode(b) == b,
    decreases b.len(),
{
    if b.len() > 0 {
        let t = b.drop_first();
        assert forall|k: int| 0 <= k < t.len() implies t[k] != 37u8 by {
            assert(t[k] == b[k + 1]);
        }
        lemma_percent_decode_identity(t);
        assert(seq![b[0]] + t =~= b);
    }
}

/// The UTF-8 bytes of a character other than `%` hold no `%` byte.
proof fn lemma_scalar_no_percent(c: char)
    requires
        c != '%',
    ensures
        forall|k: int| 0 <= k < encode_scalar(c as u32).len() ==> #[trigger] encode_scalar(c as u32)[k] != 37u8,
{
    let v = c as u32;
    assert(v != 37);
    if has_width_1_encoding(v) {
        assert((v & 0x7F) as u8 != 37u8) by (bit_vector)
            requires
                v <= 0x7F,
                v != 37,
        ;
    } else {
        let x1 = ((v >> 6) & 0x1F) as u8;
        let x2 = ((v >> 12) & 0x0F) as u8;
        let x3 = ((v >> 18) & 0x7) as u8;
        let y1 = (v & 0x3F) as u8;
        let y2 = ((v >> 6) & 0x3F) as u8;
        let y3 = ((v >> 12) & 0x3F) as u8;
        assert(0xC0u8 | x1 != 37u8 && 0xE0u8 | x2 != 37u8 && 0xF0u8 | x3 != 37u8) by (bit_vector);
        assert(0x80u8 | y1 != 37u8 && 0x80u8 | y2 != 37u8 && 0x80u8 | y3 != 37u8) by (bit_vector);
    }
}

/// The UTF-8 bytes of a text without `%` hold no `%` byte.
proof fn lemma_text_no_percent(raw: Seq<char>)
    requires
        !raw.contains('%'),
    ensures
        forall|k: int| 0 <= k < encode_utf8(raw).len() ==> #[trigger] encode_utf8(raw)[k] != 37u8,
    decreases raw.len(),
{
    if raw.len() > 0 {
        let t = raw.drop_first();
        assert(!t.contains('%')) by {
            if t.contains('%') {
                let i = choose|i: int| 0 <= i < t.len() && t[i] == '%';
                assert(raw[i + 1] == '%');
            }
        }
        assert(raw[0] != '%');
        lemma_scalar_no_percent(raw[0]);
        lemma_text_no_percent(t);
        let e = encode_scalar(raw[0] as u32);
        assert(encode_utf8(raw) == e + encode_utf8(t));
        assert forall|k: int| 0 <= k < encode_utf8(raw).len() implies encode_utf8(raw)[k] != 37u8 by {
            if k >= e.len() {
                assert(encode_utf8(raw)[k] == encode_utf8(t)[k - e.len()]);
            } else {
                assert(encode_utf8(raw)[k] == e[k]);
            }
        }
    }
}

/// A text without `%` decodes to itself.
pub proof fn lemma_url_decode_no_percent(raw: Seq<char>)
    requires
        !raw.contains('%'),
    ensures
        url_decoded(raw) == raw,
{
    lemma_text_no_percent(raw);
    lemma_url_decode_plain(raw);
}

/// The hex digit for a value below 16, a letter in upper case when
/// `upper`, else in lower case.
pub open spec fn hex_digit(n: int, upper: bool) -> char {
    if n < 10 {
        (48 + n) as char
    } else if upper {
        (55 + n) as char
    } else {
        (87 + n) as char
    }
}

/// Every byte of `b` written as `%XY`, the case of each hex letter chosen
/// by `upper` in turn (two choices per byte).
pub open spec fn percent_escaped(b: Seq<u8>, upper: Seq<bool>) -> Seq<char>
    decreases b.len(),
{
    if b.len() == 0 {
        Seq::empty()
    } else {
        seq!['%', hex_digit((b[0] / 16) as int, upper[0]), hex_digit((b[0] % 16) as int, upper[1])]
            + percent_escaped(b.drop_first(), upper.skip(2))
    }
}

/// The bytes of ASCII characters, one each.
pub open spec fn ascii_bytes(p: Seq<char>) -> Seq<u8> {
    p.map_values(|c: char| c as u8)
}

/// Escaped text is ASCII, and decoding its bytes gives back `b`.
proof fn lemma_percent_escaped(b: Seq<u8>, upper: Seq<bool>)
    ensures
        is_ascii_chars(percent_escaped(b, upper)),
        percent_decode(ascii_bytes(percent_escaped(b, upper))) == b,
    decreases b.len(),
{
    if b.len() > 0 {
        let t = b.drop_first();
        lemma_percent_escaped(t, upper.skip(2));
        let hi = b[0] / 16;
        let lo = b[0] % 16;
        let h = hex_digit(hi as int, upper[0]);
        let l = hex_digit(lo as int, upper[1]);
        let head = seq!['%', h, l];
        let p = percent_escaped(b, upper);
        let pt = percent_escaped(t, upper.skip(2));
        assert(p == head + pt);
        assert(is_ascii_chars(p)) by {
            assert forall|i: int| 0 <= i < p.len() implies '\0' <= #[trigger] p[i] <= '\u{7f}' by {
                if i >= 3 {
                    assert(p[i] == pt[i - 3]);
                }
            }
        }
        assert((h as u8) as int == if hi < 10 { 48 + hi } else if upper[0] { 55 + hi } else { 87 + hi });
        assert((l as u8) as int == if lo < 10 { 48 + lo } else if upper[1] { 55 + lo } else { 87 + lo });
        assert(hex_value(h as u8) == hi);
        assert(hex_value(l as u8) == lo);
        assert(hi * 16 + lo == b[0]);
        let pb = ascii_bytes(p);
        assert(pb[0] == 37u8);
        assert(pb.subrange(3, pb.len() as int) =~= ascii_bytes(pt));
        assert(percent_decode(pb) =~= seq![b[0]] + t);
    }
}

/// A text with every byte of its UTF-8 form written as `%XY`, with hex
/// letters in upper or lower case in any mix, decodes back to the text.
pub proof fn lemma_url_decode_escaped(s: Seq<char>, upper: Seq<bool>)
    ensures
        url_decoded(percent_escaped(encode_utf8(s), upper)) == s,
{
    let b = encode_utf8(s);
    let p = percent_escaped(b, upper);
    lemma_percent_escaped(b, upper);
    vstd::utf8::is_ascii_chars_encode_utf8(p);
    assert(encode_utf8(p) =~= ascii_bytes(p));
    vstd::utf8::encode_utf8_valid_utf8(s);
    vstd::utf8::encode_utf8_decode_utf8(s);
}

} // verus!
