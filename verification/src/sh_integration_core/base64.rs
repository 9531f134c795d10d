//! Icons embedded in script headers as `data:image/...;base64,...` URIs.
use vstd::prelude::*;
use vstd::string::*;
use vstd::utf8::encode_utf8;
use crate::text::{chars_of, find_char, find_char_pos, is_prefix, starts_with, substring};

verus! {

/// The 6-bit value of a base64 alphabet byte, `None` for any other byte.
pub open spec fn sextet(c: u8) -> Option<u8> {
    if 65 <= c <= 90 {
        Some((c - 65) as u8)
    } else if 97 <= c <= 122 {
        Some((c - 97 + 26) as u8)
    } else if 48 <= c <= 57 {
        Some((c - 48 + 52) as u8)
    } else if c == 43 {
        Some(62u8)
    } else if c == 47 {
        Some(63u8)
    } else {
        None
    }
}

/// The 6-bit values carried by `bytes`: alphabet bytes in order, up to the
/// first `=`; any other byte is skipped.
pub open spec fn sextets_of(bytes: Seq<u8>) -> Seq<u8>
    decreases bytes.len(),
{
    if bytes.len() == 0 || bytes[0] == 61 {
        Seq::empty()
    } else {
        match sextet(bytes[0]) {
            Some(v) => seq![v] + sextets_of(bytes.drop_first()),
            None => sextets_of(bytes.drop_first()),
        }
    }
}

/// First byte of a group, from its first two sextets.
pub open spec fn byte0(a: u8, b: u8) -> u8 {
    ((a * 4 + b / 16) % 256) as u8
}

/// Second byte of a group, from its second and third sextets.
pub open spec fn byte1(b: u8, c: u8) -> u8 {
    ((b % 16) * 16 + c / 4) as u8
}

/// Third byte of a group, from its third and fourth sextets.
pub open spec fn byte2(c: u8, d: u8) -> u8 {
    ((c % 4) * 64 + d) as u8
}

/// The bytes that the bit string of the sextets `v` packs into: every four
/// sextets give three bytes, a trailing group of two or three gives one or two.
pub open spec fn pack(v: Seq<u8>) -> Seq<u8>
    decreases v.len(),
{
    if v.len() >= 4 {
        seq![byte0(v[0], v[1]), byte1(v[1], v[2]), byte2(v[2], v[3])] + pack(
            v.subrange(4, v.len() as int),
        )
    } else if v.len() == 3 {
        seq![byte0(v[0], v[1]), byte1(v[1], v[2])]
    } else if v.len() == 2 {
        seq![byte0(v[0], v[1])]
    } else {
        Seq::empty()
    }
}

/// What the decoder produces for the text `input`.
pub open spec fn base64_decoded(input: Seq<char>) -> Seq<u8> {
    pack(sextets_of(encode_utf8(input)))
}

/// The base64 alphabet character for a 6-bit value.
pub open spec fn b64_char(n: int) -> char {
    if n < 26 {
        (65 + n) as char
    } else if n < 52 {
        (97 + n - 26) as char
    } else if n < 62 {
        (48 + n - 52) as char
    } else if n == 62 {
        '+'
    } else {
        '/'
    }
}

/// The standard padded base64 text of `b`.
pub open spec fn base64_encoded(b: Seq<u8>) -> Seq<char>
    decreases b.len(),
{
    if b.len() >= 3 {
        seq![
            b64_char((b[0] / 4) as int),
            b64_char((b[0] % 4) * 16 + b[1] / 16),
            b64_char((b[1] % 16) * 4 + b[2] / 64),
            b64_char((b[2] % 64) as int),
        ] + base64_encoded(b.subrange(3, b.len() as int))
    } else if b.len() == 2 {
        seq![
            b64_char((b[0] / 4) as int),
            b64_char((b[0] % 4) * 16 + b[1] / 16),
            b64_char((b[1] % 16) * 4),
            '=',
        ]
    } else if b.len() == 1 {
        seq![b64_char((b[0] / 4) as int), b64_char((b[0] % 4) * 16), '=', '=']
    } else {
        Seq::empty()
    }
}

/// An alphabet character reads back as its value.
proof fn lemma_b64_char(n: int)
    requires
        0 <= n < 64,
    ensures
        '\0' <= b64_char(n) <= '\u{7f}',
        sextet(b64_char(n) as u8) == Some(n as u8),
{
}

/// One alphabet byte in front of `y` adds its value in front.
proof fn lemma_sextets_cons(a: u8, y: Seq<u8>)
    requires
        sextet(a) is Some,
    ensures
        sextets_of(seq![a] + y) == seq![sextet(a)->0] + sextets_of(y),
{
    assert((seq![a] + y).drop_first() =~= y);
}

/// The bytes of ASCII characters, one each.
pub open spec fn char_bytes(p: Seq<char>) -> Seq<u8> {
    p.map_values(|c: char| c as u8)
}

/// Standard base64 text is ASCII, and its values pack back into `b`.
proof fn lemma_base64_encoded(b: Seq<u8>)
    ensures
        vstd::utf8::is_ascii_chars(base64_encoded(b)),
        pack(sextets_of(char_bytes(base64_encoded(b)))) == b,
    decreases b.len(),
{
    let e = base64_encoded(b);
    if b.len() == 0 {
        assert(char_bytes(e) =~= Seq::<u8>::empty());
    } else {
        let b0 = b[0];
        let s0 = b0 / 4;
        let s1 = if b.len() >= 2 { (b0 % 4) * 16 + b[1] / 16 } else { (b0 % 4) * 16 };
        lemma_b64_char(s0 as int);
        lemma_b64_char(s1 as int);
        assert(byte0(s0 as u8, s1 as u8) == b0) by (nonlinear_arith)
            requires
                s0 == b0 / 4,
                s1 == (b0 % 4) * 16 + (if b.len() >= 2 { b[1] / 16 } else { 0 }),
                0 <= b0 < 256,
                b.len() >= 2 ==> 0 <= b[1] < 256,
        ;
        if b.len() >= 3 {
            let b1 = b[1];
            let b2 = b[2];
            let s2 = (b1 % 16) * 4 + b2 / 64;
            let s3 = b2 % 64;
            lemma_b64_char(s2 as int);
            lemma_b64_char(s3 as int);
            assert(byte1(s1 as u8, s2 as u8) == b1) by (nonlinear_arith)
                requires
                    s1 == (b0 % 4) * 16 + b1 / 16,
                    s2 == (b1 % 16) * 4 + b2 / 64,
                    0 <= b0 < 256,
                    0 <= b1 < 256,
                    0 <= b2 < 256,
            ;
            assert(byte2(s2 as u8, s3 as u8) == b2) by (nonlinear_arith)
                requires
                    s2 == (b1 % 16) * 4 + b2 / 64,
                    s3 == b2 % 64,
                    0 <= b1 < 256,
                    0 <= b2 < 256,
            ;
            let rest = b.subrange(3, b.len() as int);
            lemma_base64_encoded(rest);
            let g = seq![b64_char(s0 as int), b64_char(s1 as int), b64_char(s2 as int), b64_char(s3 as int)];
            let er = base64_encoded(rest);
            assert(e == g + er);
            assert(vstd::utf8::is_ascii_chars(e)) by {
                assert forall|i: int| 0 <= i < e.len() implies '\0' <= #[trigger] e[i] <= '\u{7f}' by {
                    if i >= 4 {
                        assert(e[i] == er[i - 4]);
                    }
                }
            }
            let x = char_bytes(er);
            let c0 = b64_char(s0 as int) as u8;
            let c1 = b64_char(s1 as int) as u8;
            let c2 = b64_char(s2 as int) as u8;
            let c3 = b64_char(s3 as int) as u8;
            assert(char_bytes(e) =~= seq![c0] + (seq![c1] + (seq![c2] + (seq![c3] + x))));
            lemma_sextets_cons(c3, x);
            lemma_sextets_cons(c2, seq![c3] + x);
            lemma_sextets_cons(c1, seq![c2] + (seq![c3] + x));
            lemma_sextets_cons(c0, seq![c1] + (seq![c2] + (seq![c3] + x)));
            let v = seq![s0 as u8, s1 as u8, s2 as u8, s3 as u8] + sextets_of(x);
            assert(sextets_of(char_bytes(e)) =~= v);
            assert(v.subrange(4, v.len() as int) =~= sextets_of(x));
            assert(pack(v) == seq![b0, b1, b2] + rest);
            assert(seq![b0, b1, b2] + rest =~= b);
        } else if b.len() == 2 {
            let b1 = b[1];
            let s2 = (b1 % 16) * 4;
            lemma_b64_char(s2 as int);
            assert(byte1(s1 as u8, s2 as u8) == b1) by (nonlinear_arith)
                requires
                    s1 == (b0 % 4) * 16 + b1 / 16,
                    s2 == (b1 % 16) * 4,
                    0 <= b0 < 256,
                    0 <= b1 < 256,
            ;
            let c0 = b64_char(s0 as int) as u8;
            let c1 = b64_char(s1 as int) as u8;
            let c2 = b64_char(s2 as int) as u8;
            let pad = seq![61u8];
            assert(vstd::utf8::is_ascii_chars(e));
            assert(char_bytes(e) =~= seq![c0] + (seq![c1] + (seq![c2] + pad)));
            assert(sextets_of(pad) == Seq::<u8>::empty());
            lemma_sextets_cons(c2, pad);
            lemma_sextets_cons(c1, seq![c2] + pad);
            lemma_sextets_cons(c0, seq![c1] + (seq![c2] + pad));
            assert(sextets_of(char_bytes(e)) =~= seq![s0 as u8, s1 as u8, s2 as u8]);
            assert(pack(seq![s0 as u8, s1 as u8, s2 as u8]) =~= b);
        } else {
            let c0 = b64_char(s0 as int) as u8;
            let c1 = b64_char(s1 as int) as u8;
            let pad = seq![61u8, 61u8];
            assert(vstd::utf8::is_ascii_chars(e));
            assert(char_bytes(e) =~= seq![c0] + (seq![c1] + pad));
            assert(sextets_of(pad) == Seq::<u8>::empty());
            lemma_sextets_cons(c1, pad);
            lemma_sextets_cons(c0, seq![c1] + pad);
            assert(sextets_of(char_bytes(e)) =~= seq![s0 as u8, s1 as u8]);
            assert(pack(seq![s0 as u8, s1 as u8]) =~= b);
        }
    }
}

/// Decoding the standard base64 text of any bytes gives the bytes back.
pub proof fn lemma_base64_round_trip(b: Seq<u8>)
    ensures
        base64_decoded(base64_encoded(b)) == b,
{
    let e = base64_encoded(b);
    lemma_base64_encoded(b);
    vstd::utf8::is_ascii_chars_encode_utf8(e);
    assert(encode_utf8(e) =~= char_bytes(e));
}

/// A character the decoder skips: ASCII, outside the alphabet and not `=`
/// (spaces, tabs and line breaks among them).
pub open spec fn skipped_char(c: char) -> bool {
    '\0' <= c <= '\u{7f}' && c != '=' && sextet(c as u8) is None
}

/// The UTF-8 bytes of two texts one after the other.
proof fn lemma_encode_utf8_append(a: Seq<char>, b: Seq<char>)
    ensures
        encode_utf8(a + b) == encode_utf8(a) + encode_utf8(b),
    decreases a.len(),
{
    if a.len() > 0 {
        assert((a + b).drop_first() =~= a.drop_first() + b);
        lemma_encode_utf8_append(a.drop_first(), b);
        assert(encode_utf8(a + b) =~= encode_utf8(a) + encode_utf8(b));
    }
}

/// Bytes outside the alphabet and other than `=` in front carry no value.
proof fn lemma_sextets_skip_front(w: Seq<u8>, b: Seq<u8>)
    requires
        forall|i: int| 0 <= i < w.len() ==> #[trigger] w[i] != 61 && sextet(w[i]) is None,
    ensures
        sextets_of(w + b) == sextets_of(b),
    decreases w.len(),
{
    if w.len() > 0 {
        assert((w + b)[0] == w[0]);
        assert((w + b).drop_first() =~= w.drop_first() + b);
        assert forall|i: int| 0 <= i < w.drop_first().len() implies #[trigger] w.drop_first()[i] != 61
            && sextet(w.drop_first()[i]) is None by {
            assert(w.drop_first()[i] == w[i + 1]);
        }
        lemma_sextets_skip_front(w.drop_first(), b);
    }
}

/// Bytes outside the alphabet and other than `=` carry no value wherever
/// they stand.
proof fn lemma_sextets_skip(a: Seq<u8>, w: Seq<u8>, b: Seq<u8>)
    requires
        forall|i: int| 0 <= i < w.len() ==> #[trigger] w[i] != 61 && sextet(w[i]) is None,
    ensures
        sextets_of(a + w + b) == sextets_of(a + b),
    decreases a.len(),
{
    if a.len() == 0 {
        assert(a + w + b =~= w + b);
        assert(a + b =~= b);
        lemma_sextets_skip_front(w, b);
    } else {
        assert((a + w + b)[0] == a[0]);
        assert((a + b)[0] == a[0]);
        assert((a + w + b).drop_first() =~= a.drop_first() + w + b);
        assert((a + b).drop_first() =~= a.drop_first() + b);
        lemma_sextets_skip(a.drop_first(), w, b);
    }
}

/// Characters the decoder skips may stand anywhere in the text: inserting
/// them changes nothing that is decoded.
pub proof fn lemma_base64_skips_other_chars(x: Seq<char>, w: Seq<char>, y: Seq<char>)
    requires
        forall|i: int| 0 <= i < w.len() ==> skipped_char(#[trigger] w[i]),
    ensures
        base64_decoded(x + w + y) == base64_decoded(x + y),
{
    lemma_encode_utf8_append(x + w, y);
    lemma_encode_utf8_append(x, w);
    lemma_encode_utf8_append(x, y);
    assert(vstd::utf8::is_ascii_chars(w)) by {
        assert forall|i: int| 0 <= i < w.len() implies '\0' <= #[trigger] w[i] <= '\u{7f}' by {
            assert(skipped_char(w[i]));
        }
    }
    vstd::utf8::is_ascii_chars_encode_utf8(w);
    let wb = encode_utf8(w);
    assert forall|i: int| 0 <= i < wb.len() implies #[trigger] wb[i] != 61 && sextet(wb[i]) is None by {
        assert(skipped_char(w[i]));
        assert(w[i] as u8 == wb[i]);
    }
    lemma_sextets_skip(encode_utf8(x), wb, encode_utf8(y));
}

/// Standard base64 text decodes to its bytes also with skipped characters
/// (line breaks, spaces) inserted at any position.
pub proof fn lemma_base64_round_trip_with_breaks(b: Seq<u8>, k: int, w: Seq<char>)
    requires
        0 <= k <= base64_encoded(b).len(),
        forall|i: int| 0 <= i < w.len() ==> skipped_char(#[trigger] w[i]),
    ensures
        base64_decoded(base64_encoded(b).take(k) + w + base64_encoded(b).skip(k)) == b,
{
    let e = base64_encoded(b);
    lemma_base64_skips_other_chars(e.take(k), w, e.skip(k));
    assert(e.take(k) + e.skip(k) =~= e);
    lemma_base64_round_trip(b);
}

/// The byte (if any) that one more sextet `v` completes after `w`.
pub open spec fn completed_byte(w: Seq<u8>, v: u8) -> Seq<u8> {
    if w.len() % 4 == 1 {
        seq![byte0(w.last(), v)]
    } else if w.len() % 4 == 2 {
        seq![byte1(w.last(), v)]
    } else if w.len() % 4 == 3 {
        seq![byte2(w.last(), v)]
    } else {
        Seq::empty()
    }
}

proof fn lemma_pack_small(w: Seq<u8>, v: u8)
    requires
        w.len() < 4,
    ensures
        pack(w.push(v)) == pack(w) + completed_byte(w, v),
{
    let wv = w.push(v);
    if w.len() == 3 {
        let e = wv.subrange(4, wv.len() as int);
        assert(e =~= Seq::<u8>::empty());
        assert(pack(e) == Seq::<u8>::empty());
        assert(pack(wv) == seq![byte0(wv[0], wv[1]), byte1(wv[1], wv[2]), byte2(wv[2], wv[3])]
            + pack(e));
        assert(pack(wv) =~= pack(w) + completed_byte(w, v));
    } else if w.len() == 2 {
        assert(pack(wv) =~= pack(w) + completed_byte(w, v));
    } else if w.len() == 1 {
        assert(pack(wv) =~= pack(w) + completed_byte(w, v));
    } else {
        assert(pack(wv) =~= pack(w) + completed_byte(w, v));
    }
}

proof fn lemma_pack_push(w: Seq<u8>, v: u8)
    ensures
        pack(w.push(v)) == pack(w) + completed_byte(w, v),
    decreases w.len(),
{
    if w.len() < 4 {
        lemma_pack_small(w, v);
    } else {
        let wv = w.push(v);
        let t = w.subrange(4, w.len() as int);
        lemma_pack_push(t, v);
        assert(wv.subrange(4, wv.len() as int) =~= t.push(v));
        let g = seq![byte0(w[0], w[1]), byte1(w[1], w[2]), byte2(w[2], w[3])];
        assert(pack(w) == g + pack(t));
        assert(pack(wv) == g + pack(t.push(v)));
        assert(completed_byte(t, v) == completed_byte(w, v)) by {
            if t.len() > 0 {
                assert(t.last() == w.last());
            }
        }
        assert(g + (pack(t) + completed_byte(w, v)) =~= (g + pack(t)) + completed_byte(w, v));
    }
}

/// The 6-bit value of `c`, if it is a base64 alphabet byte.
fn sextet_value(c: u8) -> (r: Option<u8>)
    ensures
        r == sextet(c),
{
    if 65 <= c && c <= 90 {
        Some(c - 65)
    } else if 97 <= c && c <= 122 {
        Some(c - 97 + 26)
    } else if 48 <= c && c <= 57 {
        Some(c - 48 + 52)
    } else if c == 43 {
        Some(62)
    } else if c == 47 {
        Some(63)
    } else {
        None
    }
}

/// Decodes base64 text bit by bit; bytes outside the alphabet are skipped and
/// the first `=` ends the input. Never fails.
pub fn base64_decode_manual(input: &str) -> (r: Result<Vec<u8>, String>)
    ensures
        r matches Ok(bytes) && bytes@ == base64_decoded(input@),
{
    let bytes = input.as_bytes();
    let mut result: Vec<u8> = Vec::new();
    let mut current_byte: u32 = 0;
    let mut processed_bits: u32 = 0;
    let ghost mut seen: Seq<u8> = Seq::empty();
    let mut i: usize = 0;
    assert(bytes@.subrange(0, bytes@.len() as int) =~= bytes@);
    assert(0u32 & 0xff == 0) by (bit_vector);
    while i < bytes.len()
        invariant
            i <= bytes@.len(),
            sextets_of(bytes@) == seen + sextets_of(bytes@.subrange(i as int, bytes@.len() as int)),
            result@ == pack(seen),
            forall|k: int| 0 <= k < seen.len() ==> #[trigger] seen[k] < 64,
            seen.len() % 4 == 0 ==> processed_bits == 0 && current_byte & 0xff == 0
                && current_byte < 0x10000,
            seen.len() % 4 == 1 ==> processed_bits == 6 && current_byte & 0xff == seen.last() * 4
                && current_byte < 0x10000,
            seen.len() % 4 == 2 ==> processed_bits == 4 && current_byte == seen.last() * 16,
            seen.len() % 4 == 3 ==> processed_bits == 2 && current_byte == seen.last() * 64,
        ensures
            i == bytes@.len() || bytes@[i as int] == 61,
        decreases bytes@.len() - i,
    {
        let ch = bytes[i];
        let ghost rest = bytes@.subrange(i as int, bytes@.len() as int);
        assert(rest.drop_first() =~= bytes@.subrange(i + 1, bytes@.len() as int));
        if ch == 61 {
            break;
        }
        let value: u32 = match sextet_value(ch) {
            Some(v) => v as u32,
            None => {
                i = i + 1;
                continue;
            },
        };
        let ghost old_seen = seen;
        let ghost old_cur = current_byte;
        let ghost pb = processed_bits;
        current_byte |= (value << 2u32) >> processed_bits;
        let consumed_bits: u32 = if (8 - processed_bits) < 6 {
            8 - processed_bits
        } else {
            6
        };
        processed_bits += consumed_bits;
        if processed_bits >= 8 {
            result.push(#[verifier::truncate] (current_byte as u8));
            current_byte = value << (2 + consumed_bits);
            processed_bits = 6 - consumed_bits;
        }
        proof {
            seen = old_seen.push(value as u8);
            lemma_pack_push(old_seen, value as u8);
            assert(pack(old_seen) + seq![byte0(old_seen.last(), value as u8)] =~= pack(old_seen).push(byte0(old_seen.last(), value as u8)));
            assert(pack(old_seen) + seq![byte1(old_seen.last(), value as u8)] =~= pack(old_seen).push(byte1(old_seen.last(), value as u8)));
            assert(pack(old_seen) + seq![byte2(old_seen.last(), value as u8)] =~= pack(old_seen).push(byte2(old_seen.last(), value as u8)));
            assert(pack(old_seen) + Seq::<u8>::empty() =~= pack(old_seen));
            assert(seen.last() == value);
            assert(forall|k: int| 0 <= k < old_seen.len() ==> seen[k] == old_seen[k]);
            let n = old_seen.len() % 4;
            if n == 0 {
                assert(((old_cur | ((value << 2u32) >> 0u32)) & 0xff == value * 4) && (old_cur | ((
                value << 2u32) >> 0u32)) < 0x10000) by (bit_vector)
                    requires
                        old_cur & 0xff == 0,
                        old_cur < 0x10000,
                        value < 64,
                ;
            } else if n == 1 {
                let last = old_seen.last() as u32;
                assert(((old_cur | ((value << 2u32) >> 6u32)) as u8) == ((last * 4 + value / 16)
                    % 256) as u8 && value << 4u32 == value * 16) by (bit_vector)
                    requires
                        old_cur & 0xff == last * 4,
                        old_cur < 0x10000,
                        value < 64,
                        last < 64,
                ;
            } else if n == 2 {
                let last = old_seen.last() as u32;
                assert(((old_cur | ((value << 2u32) >> 4u32)) as u8) == ((last % 16) * 16 + value
                    / 4) as u8 && value << 6u32 == value * 64) by (bit_vector)
                    requires
                        old_cur == last * 16,
                        value < 64,
                        last < 64,
                ;
            } else {
                let last = old_seen.last() as u32;
                assert(((old_cur | ((value << 2u32) >> 2u32)) as u8) == ((last % 4) * 64 + value)
                    as u8 && (value << 8u32) & 0xff == 0 && value << 8u32 < 0x10000) by (bit_vector)
                    requires
                        old_cur == last * 64,
                        value < 64,
                        last < 64,
                ;
            }
            assert(seen + sextets_of(rest.drop_first()) =~= old_seen + sextets_of(rest));
        }
        i = i + 1;
    }
    let ghost rest = bytes@.subrange(i as int, bytes@.len() as int);
    assert(sextets_of(rest) == Seq::<u8>::empty());
    assert(seen + Seq::<u8>::empty() =~= seen);
    Ok(result)
}

/// The image type named by a `data:image/<type>;...` URI: the text between
/// the prefix and the first `;` (or the end).
pub open spec fn icon_extension_of(icon: Seq<char>) -> Option<Seq<char>> {
    let prefix = "data:image/"@;
    if is_prefix(prefix, icon) {
        let after = icon.subrange(prefix.len() as int, icon.len() as int);
        match find_char(after, ';') {
            Some(k) => Some(after.subrange(0, k)),
            None => Some(after),
        }
    } else {
        None
    }
}

/// The image type of a data-URI icon is what follows `data:image/` up to
/// the first `;` (all of it when there is none).
pub proof fn lemma_icon_extension(ext: Seq<char>, rest: Seq<char>)
    requires
        !ext.contains(';'),
    ensures
        icon_extension_of("data:image/"@ + ext + seq![';'] + rest) == Some(ext),
        icon_extension_of("data:image/"@ + ext) == Some(ext),
{
    let p = "data:image/"@;
    let a = p + ext + seq![';'] + rest;
    assert(a.subrange(0, p.len() as int) =~= p);
    assert(a.subrange(p.len() as int, a.len() as int) =~= ext + seq![';'] + rest);
    let b = p + ext;
    assert(b.subrange(0, p.len() as int) =~= p);
    assert(b.subrange(p.len() as int, b.len() as int) =~= ext);
    crate::text::lemma_find_char_split(ext, ';', rest);
    assert((ext + seq![';'] + rest).subrange(0, ext.len() as int) =~= ext);
}

/// The image type of a data-URI icon, `None` for anything else.
pub fn get_icon_extension(icon_str: &str) -> (r: Option<String>)
    ensures
        match r {
            Some(s) => icon_extension_of(icon_str@) == Some(s@),
            None => icon_extension_of(icon_str@) is None,
        },
{
    let icon = chars_of(icon_str);
    let prefix = chars_of("data:image/");
    if !starts_with(icon.as_slice(), prefix.as_slice()) {
        return None;
    }
    let start = prefix.len();
    let ghost after = icon@.subrange(start as int, icon@.len() as int);
    let mut k = start;
    while k < icon.len() && icon[k] != ';'
        invariant
            start <= k <= icon@.len(),
            forall|j: int| start <= j < k ==> icon@[j] != ';',
        decreases icon@.len() - k,
    {
        k = k + 1;
    }
    proof {
        let tail = icon@.subrange(start as int, icon@.len() as int);
        crate::text::lemma_find_char_from(tail, ';', 0);
        match find_char(tail, ';') {
            Some(p) => {
                assert(tail[k - start] == icon@[k as int]) by {}
                assert(p == k - start) by {
                    if p < k - start {
                        assert(tail[p] == icon@[start + p]);
                    }
                }
            },
            None => {
                if k < icon@.len() {
                    assert(tail[k - start] == icon@[k as int]);
                }
                assert(tail =~= icon@.subrange(start as int, k as int));
            },
        }
        assert(tail.subrange(0, k - start) =~= icon@.subrange(start as int, k as int));
    }
    Some(substring(icon.as_slice(), start, k))
}

/// Where a data URI's base64 payload is: `Err(true)` when the text holds
/// no `data:image/`, `Err(false)` when no `,` follows it, else the text
/// after that comma.
pub open spec fn data_uri_payload(icon: Seq<char>) -> Result<Seq<char>, bool> {
    let marker = "data:image/"@;
    match crate::text::find_first(icon, marker) {
        Some(m) => {
            let data = icon.subrange(m + marker.len(), icon.len() as int);
            match find_char(data, ',') {
                Some(c) => Ok(data.subrange(c + 1, data.len() as int)),
                None => Err(false),
            }
        },
        None => Err(true),
    }
}

/// The payload of a data URI that starts with `data:image/` is everything
/// after the first comma that follows it, commas included.
pub proof fn lemma_data_uri_payload(kind: Seq<char>, payload: Seq<char>)
    requires
        !kind.contains(','),
    ensures
        data_uri_payload("data:image/"@ + kind + seq![','] + payload) == Ok::<Seq<char>, bool>(payload),
{
    let m = "data:image/"@;
    let icon = m + kind + seq![','] + payload;
    crate::text::lemma_find_from(icon, m, 0);
    assert(icon.subrange(0, m.len() as int) =~= m);
    assert(crate::text::occurs_at(icon, m, 0));
    let data = icon.subrange(m.len() as int, icon.len() as int);
    assert(data =~= kind + seq![','] + payload);
    crate::text::lemma_find_char_split(kind, ',', payload);
    assert(data.subrange(kind.len() as int + 1, data.len() as int) =~= payload);
}

/// The bytes of a `data:image/...;base64,...` icon. Fails with
/// `Not a data URI` when the text holds no `data:image/`, and with
/// `Missing comma in data URI` when no comma follows it.
pub fn decode_data_uri(icon_str: &str) -> (r: Result<Vec<u8>, String>)
    ensures
        match data_uri_payload(icon_str@) {
            Ok(p) => r matches Ok(b) && b@ == base64_decoded(p),
            Err(true) => r matches Err(e) && e@ == "Not a data URI"@,
            Err(false) => r matches Err(e) && e@ == "Missing comma in data URI"@,
        },
{
    let icon = chars_of(icon_str);
    let marker = chars_of("data:image/");
    let found = crate::text::find(icon.as_slice(), marker.as_slice());
    let m = match found {
        Some(m) => m,
        None => return Err(String::from_str("Not a data URI")),
    };
    proof {
        crate::text::lemma_find_from(icon@, marker@, 0);
    }
    let ml = marker.len();
    let il = icon.len();
    assert(m + ml <= il);
    let data = crate::text::slice_chars(icon.as_slice(), m + ml, il);
    let comma = find_char_pos(data.as_slice(), ',');
    let c = match comma {
        Some(c) => c,
        None => return Err(String::from_str("Missing comma in data URI")),
    };
    proof {
        crate::text::lemma_find_char_from(data@, ',', 0);
    }
    let payload = substring(data.as_slice(), c + 1, data.len());
    base64_decode_manual(payload.as_str())
}

} // verus!
