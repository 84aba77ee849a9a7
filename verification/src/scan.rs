//! The UTF-8 scanner that drives the encoder.
//!
//! The encoder walks its input byte by byte, reconstructing one code
//! point at a time so that every substitution can be expressed in
//! source-byte offsets. The scanner is deliberately tolerant: a byte
//! that cannot start or continue an encoding yields a malformed item
//! covering exactly the bytes consumed, and scanning resumes right
//! after it; an incomplete encoding at the very end of the input yields
//! no item at all. [`utf8_items`] is the mathematical account of that
//! walk, and [`scan_next`] is its verified single-step engine.

use vstd::prelude::*;
use vstd::utf8::{
    char_u32_cast, codepoint_width_2, codepoint_width_3, codepoint_width_4, encode_scalar,
    is_continuation_byte, is_leading_byte_width_1, is_leading_byte_width_2,
    is_leading_byte_width_3, is_leading_byte_width_4, is_scalar, valid_utf8,
};

verus! {

/// One step of the tolerant UTF-8 walk: a decoded code point or a
/// malformed run, covering the input bytes `start..=end`.
pub enum Utf8Item {
    Ch { c: char, start: int, end: int },
    Bad { start: int, end: int },
}

impl Utf8Item {
    /// First input byte covered by the item.
    pub open spec fn start(self) -> int {
        match self {
            Utf8Item::Ch { start, .. } => start,
            Utf8Item::Bad { start, .. } => start,
        }
    }

    /// Last input byte covered by the item.
    pub open spec fn end(self) -> int {
        match self {
            Utf8Item::Ch { end, .. } => end,
            Utf8Item::Bad { end, .. } => end,
        }
    }
}

/// The items of the tolerant UTF-8 walk over `s`, starting at byte `i`.
///
/// A 1-byte code point is any byte below `0x80`. A lead byte of width 2
/// to 4 consumes the announced number of continuation bytes; the first
/// byte that breaks the pattern ends a malformed item covering the
/// bytes read so far, and the walk restarts after it. A complete
/// encoding whose value is not a Unicode scalar is malformed as well.
/// An encoding cut short by the end of the input yields nothing.
pub open spec fn utf8_items(s: Seq<u8>, i: int) -> Seq<Utf8Item>
    decreases s.len() - i,
{
    if i < 0 || i >= s.len() {
        seq![]
    } else {
        let b0 = s[i];
        if is_leading_byte_width_1(b0) {
            seq![Utf8Item::Ch { c: b0 as char, start: i, end: i }] + utf8_items(s, i + 1)
        } else if is_leading_byte_width_2(b0) {
            if i + 1 >= s.len() {
                seq![]
            } else if !is_continuation_byte(s[i + 1]) {
                seq![Utf8Item::Bad { start: i, end: i + 1 }] + utf8_items(s, i + 2)
            } else {
                let v = codepoint_width_2(b0, s[i + 1]);
                seq![Utf8Item::Ch { c: v as char, start: i, end: i + 1 }] + utf8_items(s, i + 2)
            }
        } else if is_leading_byte_width_3(b0) {
            if i + 1 >= s.len() {
                seq![]
            } else if !is_continuation_byte(s[i + 1]) {
                seq![Utf8Item::Bad { start: i, end: i + 1 }] + utf8_items(s, i + 2)
            } else if i + 2 >= s.len() {
                seq![]
            } else if !is_continuation_byte(s[i + 2]) {
                seq![Utf8Item::Bad { start: i, end: i + 2 }] + utf8_items(s, i + 3)
            } else {
                let v = codepoint_width_3(b0, s[i + 1], s[i + 2]);
                if is_scalar(v) {
                    seq![Utf8Item::Ch { c: v as char, start: i, end: i + 2 }] + utf8_items(s, i + 3)
                } else {
                    seq![Utf8Item::Bad { start: i, end: i + 2 }] + utf8_items(s, i + 3)
                }
            }
        } else if is_leading_byte_width_4(b0) {
            if i + 1 >= s.len() {
                seq![]
            } else if !is_continuation_byte(s[i + 1]) {
                seq![Utf8Item::Bad { start: i, end: i + 1 }] + utf8_items(s, i + 2)
            } else if i + 2 >= s.len() {
                seq![]
            } else if !is_continuation_byte(s[i + 2]) {
                seq![Utf8Item::Bad { start: i, end: i + 2 }] + utf8_items(s, i + 3)
            } else if i + 3 >= s.len() {
                seq![]
            } else if !is_continuation_byte(s[i + 3]) {
                seq![Utf8Item::Bad { start: i, end: i + 3 }] + utf8_items(s, i + 4)
            } else {
                let v = codepoint_width_4(b0, s[i + 1], s[i + 2], s[i + 3]);
                if is_scalar(v) {
                    seq![Utf8Item::Ch { c: v as char, start: i, end: i + 3 }] + utf8_items(s, i + 4)
                } else {
                    seq![Utf8Item::Bad { start: i, end: i + 3 }] + utf8_items(s, i + 4)
                }
            }
        } else {
            seq![Utf8Item::Bad { start: i, end: i }] + utf8_items(s, i + 1)
        }
    }
}

/// On a valid UTF-8 suffix the walk takes exactly one scalar: the item
/// is the decoded code point, covering the bytes of its encoding, and
/// the walk resumes right after it.
pub proof fn lemma_utf8_items_valid_step(s: Seq<u8>, i: int)
    requires
        0 <= i < s.len(),
        vstd::utf8::valid_first_scalar(s.subrange(i, s.len() as int)),
    ensures
        ({
            let suffix = s.subrange(i, s.len() as int);
            let w = vstd::utf8::length_of_first_scalar(suffix);
            let v = vstd::utf8::decode_first_scalar(suffix);
            &&& 1 <= w <= 4
            &&& i + w <= s.len()
            &&& is_scalar(v)
            &&& utf8_items(s, i) == seq![Utf8Item::Ch { c: v as char, start: i, end: i + w - 1 }]
                + utf8_items(s, i + w)
        }),
{
    let suffix = s.subrange(i, s.len() as int);
    let w = vstd::utf8::length_of_first_scalar(suffix);
    let v = vstd::utf8::decode_first_scalar(suffix);
    assert(forall|m: int| 0 <= m < suffix.len() ==> suffix[m] == s[i + m]);
    let b0 = s[i];
    assert(b0 == suffix[0]);
    if is_leading_byte_width_1(b0) {
        assert(w == 1);
        assert(v == vstd::utf8::leading_bits_width_1(b0));
        assert(v == b0 as u32) by (bit_vector)
            requires
                b0 <= 0x7f,
                v == ((b0 & 0x7f) as u32),
        ;
        assert((v as char) == (b0 as char));
        assert(utf8_items(s, i) == seq![Utf8Item::Ch { c: b0 as char, start: i, end: i }]
            + utf8_items(s, i + 1));
    } else if is_leading_byte_width_2(b0) {
        assert(w == 2);
        assert(suffix.len() >= 2);
        let b1 = s[i + 1];
        assert(b1 == suffix[1]);
        assert(is_continuation_byte(b1));
        assert(v == codepoint_width_2(b0, b1));
        assert(v <= 0x7ff) by (bit_vector)
            requires
                v == ((vstd::utf8::leading_bits_width_2(b0) << 6u32) | vstd::utf8::continuation_bits(
                    b1,
                )),
                vstd::utf8::leading_bits_width_2(b0) == ((b0 & 0x1f) as u32),
                vstd::utf8::continuation_bits(b1) == ((b1 & 0x3f) as u32),
        ;
        assert(is_scalar(v));
        assert(utf8_items(s, i) == seq![Utf8Item::Ch { c: v as char, start: i, end: i + 1 }]
            + utf8_items(s, i + 2));
    } else if is_leading_byte_width_3(b0) {
        assert(w == 3);
        assert(suffix.len() >= 3);
        let b1 = s[i + 1];
        let b2 = s[i + 2];
        assert(b1 == suffix[1] && b2 == suffix[2]);
        assert(is_continuation_byte(b1) && is_continuation_byte(b2));
        assert(v == codepoint_width_3(b0, b1, b2));
        assert(v <= 0xffff) by (bit_vector)
            requires
                v == ((vstd::utf8::leading_bits_width_3(b0) << 12u32) | (
                vstd::utf8::continuation_bits(b1) << 6u32) | vstd::utf8::continuation_bits(b2)),
                vstd::utf8::leading_bits_width_3(b0) == ((b0 & 0x0f) as u32),
                vstd::utf8::continuation_bits(b1) == ((b1 & 0x3f) as u32),
                vstd::utf8::continuation_bits(b2) == ((b2 & 0x3f) as u32),
        ;
        assert(vstd::utf8::not_surrogate(v));
        assert(is_scalar(v));
        assert(utf8_items(s, i) == seq![Utf8Item::Ch { c: v as char, start: i, end: i + 2 }]
            + utf8_items(s, i + 3));
    } else {
        assert(is_leading_byte_width_4(b0));
        assert(w == 4);
        assert(suffix.len() >= 4);
        let b1 = s[i + 1];
        let b2 = s[i + 2];
        let b3 = s[i + 3];
        assert(b1 == suffix[1] && b2 == suffix[2] && b3 == suffix[3]);
        assert(is_continuation_byte(b1) && is_continuation_byte(b2) && is_continuation_byte(b3));
        assert(v == codepoint_width_4(b0, b1, b2, b3));
        assert(vstd::utf8::not_overlong_encoding(v, 4));
        assert(0x10000 <= v <= 0x10ffff);
        assert(is_scalar(v));
        assert(utf8_items(s, i) == seq![Utf8Item::Ch { c: v as char, start: i, end: i + 3 }]
            + utf8_items(s, i + 4));
    }
}

/// True when every item of the walk is a decoded code point.
pub open spec fn items_all_ch(items: Seq<Utf8Item>) -> bool {
    forall|i: int| 0 <= i < items.len() ==> (#[trigger] items[i]) is Ch
}

/// The code points of the walk up to its first malformed item.
pub open spec fn chars_of_good(items: Seq<Utf8Item>) -> Seq<char>
    decreases items.len(),
{
    if items.len() == 0 {
        seq![]
    } else {
        match items[0] {
            Utf8Item::Ch { c, .. } => seq![c] + chars_of_good(items.drop_first()),
            Utf8Item::Bad { .. } => seq![],
        }
    }
}

/// Over a prefix of decoded code points, the good chars split at the
/// prefix boundary.
pub proof fn lemma_chars_of_good_concat(pre: Seq<Utf8Item>, rest: Seq<Utf8Item>)
    requires
        items_all_ch(pre),
    ensures
        chars_of_good(pre + rest) == chars_of_good(pre) + chars_of_good(rest),
    decreases pre.len(),
{
    if pre.len() == 0 {
        assert(pre + rest =~= rest);
        assert(chars_of_good(pre) + chars_of_good(rest) =~= chars_of_good(rest));
    } else {
        assert(items_all_ch(pre.drop_first()));
        lemma_chars_of_good_concat(pre.drop_first(), rest);
        assert((pre + rest).drop_first() =~= pre.drop_first() + rest);
        let c = pre[0]->Ch_c;
        assert(chars_of_good(pre + rest) == seq![c] + (chars_of_good(pre.drop_first())
            + chars_of_good(rest)));
        assert(chars_of_good(pre) + chars_of_good(rest) =~= seq![c] + (chars_of_good(
            pre.drop_first(),
        ) + chars_of_good(rest)));
    }
}

/// The characters of one untouched segment of a view: the code points
/// of the tolerant walk, or nothing when the walk hits a malformed run.
pub open spec fn segment_chars(s: Seq<u8>) -> Option<Seq<char>> {
    if items_all_ch(utf8_items(s, 0)) {
        Some(chars_of_good(utf8_items(s, 0)))
    } else {
        None
    }
}

/// The result of one scanner step: a code point with the byte range of
/// its encoding, a malformed byte range, or the truncated tail of the
/// input.
pub enum Scanned {
    Char { c: char, start: usize, end: usize },
    Malformed { start: usize, end: usize },
    Truncated,
}

/// Relies on char::from_u32: every Unicode scalar value is a char with
/// that value.
#[verifier::external_body]
pub fn scalar_to_char(v: u32) -> (c: char)
    requires
        is_scalar(v),
    ensures
        c as u32 == v,
{
    char::from_u32(v).unwrap()
}

/// Reads the next item of the tolerant UTF-8 walk at position `i`,
/// returning it together with the position where the walk resumes.
pub fn scan_next(s: &[u8], i: usize) -> (r: (Scanned, usize))
    requires
        i < s@.len(),
    ensures
        i < r.1 <= s@.len(),
        match r.0 {
            Scanned::Char { c, start, end } => {
                &&& start == i
                &&& i <= end < s@.len()
                &&& r.1 == end + 1
                &&& utf8_items(s@, i as int) == seq![
                    Utf8Item::Ch { c, start: start as int, end: end as int },
                ] + utf8_items(s@, r.1 as int)
            },
            Scanned::Malformed { start, end } => {
                &&& start == i
                &&& i <= end < s@.len()
                &&& r.1 == end + 1
                &&& utf8_items(s@, i as int) == seq![
                    Utf8Item::Bad { start: start as int, end: end as int },
                ] + utf8_items(s@, r.1 as int)
            },
            Scanned::Truncated => {
                &&& r.1 == s@.len()
                &&& utf8_items(s@, i as int) == Seq::<Utf8Item>::empty()
            },
        },
{
    let n = s.len();
    let b0 = s[i];
    if b0 < 0x80 {
        (Scanned::Char { c: b0 as char, start: i, end: i }, i + 1)
    } else if 0xc0 <= b0 && b0 <= 0xdf {
        if i + 1 >= n {
            (Scanned::Truncated, n)
        } else {
            let b1 = s[i + 1];
            if !(0x80 <= b1 && b1 <= 0xbf) {
                (Scanned::Malformed { start: i, end: i + 1 }, i + 2)
            } else {
                let v: u32 = (((b0 & 0x1f) as u32) << 6u32) | ((b1 & 0x3f) as u32);
                proof {
                    assert(v == codepoint_width_2(b0, b1));
                    assert(is_scalar(v)) by (bit_vector)
                        requires
                            v == ((((b0 & 0x1f) as u32) << 6u32) | ((b1 & 0x3f) as u32)),
                    ;
                }
                let c = scalar_to_char(v);
                proof {
                    char_u32_cast(c, v);
                }
                (Scanned::Char { c, start: i, end: i + 1 }, i + 2)
            }
        }
    } else if 0xe0 <= b0 && b0 <= 0xef {
        if i + 1 >= n {
            (Scanned::Truncated, n)
        } else {
            let b1 = s[i + 1];
            if !(0x80 <= b1 && b1 <= 0xbf) {
                (Scanned::Malformed { start: i, end: i + 1 }, i + 2)
            } else if i + 2 >= n {
                (Scanned::Truncated, n)
            } else {
                let b2 = s[i + 2];
                if !(0x80 <= b2 && b2 <= 0xbf) {
                    (Scanned::Malformed { start: i, end: i + 2 }, i + 3)
                } else {
                    let v: u32 = (((b0 & 0x0f) as u32) << 12u32) | (((b1 & 0x3f) as u32) << 6u32)
                        | ((b2 & 0x3f) as u32);
                    proof {
                        assert(v == codepoint_width_3(b0, b1, b2));
                        assert(v <= 0xffff) by (bit_vector)
                            requires
                                v == ((((b0 & 0x0f) as u32) << 12u32) | (((b1 & 0x3f) as u32)
                                    << 6u32) | ((b2 & 0x3f) as u32)),
                        ;
                    }
                    if 0xd800 <= v && v <= 0xdfff {
                        (Scanned::Malformed { start: i, end: i + 2 }, i + 3)
                    } else {
                        let c = scalar_to_char(v);
                        proof {
                            char_u32_cast(c, v);
                        }
                        (Scanned::Char { c, start: i, end: i + 2 }, i + 3)
                    }
                }
            }
        }
    } else if 0xf0 <= b0 && b0 <= 0xf7 {
        if i + 1 >= n {
            (Scanned::Truncated, n)
        } else {
            let b1 = s[i + 1];
            if !(0x80 <= b1 && b1 <= 0xbf) {
                (Scanned::Malformed { start: i, end: i + 1 }, i + 2)
            } else if i + 2 >= n {
                (Scanned::Truncated, n)
            } else {
                let b2 = s[i + 2];
                if !(0x80 <= b2 && b2 <= 0xbf) {
                    (Scanned::Malformed { start: i, end: i + 2 }, i + 3)
                } else if i + 3 >= n {
                    (Scanned::Truncated, n)
                } else {
                    let b3 = s[i + 3];
                    if !(0x80 <= b3 && b3 <= 0xbf) {
                        (Scanned::Malformed { start: i, end: i + 3 }, i + 4)
                    } else {
                        let v: u32 = (((b0 & 0x07) as u32) << 18u32) | (((b1 & 0x3f) as u32)
                            << 12u32) | (((b2 & 0x3f) as u32) << 6u32) | ((b3 & 0x3f) as u32);
                        proof {
                            assert(v == codepoint_width_4(b0, b1, b2, b3));
                        }
                        if v <= 0x10ffff && !(0xd800 <= v && v <= 0xdfff) {
                            let c = scalar_to_char(v);
                            proof {
                                char_u32_cast(c, v);
                            }
                            (Scanned::Char { c, start: i, end: i + 3 }, i + 4)
                        } else {
                            (Scanned::Malformed { start: i, end: i + 3 }, i + 4)
                        }
                    }
                }
            }
        }
    } else {
        (Scanned::Malformed { start: i, end: i }, i + 1)
    }
}

/// The UTF-8 encoding of one character, as bytes.
pub fn char_to_utf8_bytes(ch: char) -> (v: Vec<u8>)
    ensures
        v@ == encode_scalar(ch as u32),
{
    proof {
        vstd::utf8::char_is_scalar(ch);
    }
    let u = ch as u32;
    let mut v: Vec<u8> = Vec::new();
    if u <= 0x7f {
        v.push((u & 0x7f) as u8);
        proof {
            assert(v@ =~= encode_scalar(ch as u32));
        }
    } else if u <= 0x7ff {
        v.push(0xc0u8 | (((u >> 6u32) & 0x1f) as u8));
        v.push(0x80u8 | ((u & 0x3f) as u8));
        proof {
            assert(v@ =~= encode_scalar(ch as u32));
        }
    } else if u <= 0xffff {
        v.push(0xe0u8 | (((u >> 12u32) & 0x0f) as u8));
        v.push(0x80u8 | (((u >> 6u32) & 0x3f) as u8));
        v.push(0x80u8 | ((u & 0x3f) as u8));
        proof {
            assert(v@ =~= encode_scalar(ch as u32));
        }
    } else {
        v.push(0xf0u8 | (((u >> 18u32) & 0x07) as u8));
        v.push(0x80u8 | (((u >> 12u32) & 0x3f) as u8));
        v.push(0x80u8 | (((u >> 6u32) & 0x3f) as u8));
        v.push(0x80u8 | ((u & 0x3f) as u8));
        proof {
            assert(v@ =~= encode_scalar(ch as u32));
        }
    }
    v
}

/// Decides whether `s` is a valid UTF-8 encoding, in the strict sense:
/// no overlong encodings, no surrogates, no truncated tail.
pub fn is_valid_utf8(s: &[u8]) -> (r: bool)
    ensures
        r == valid_utf8(s@),
{
    let n = s.len();
    let mut i: usize = 0;
    while i < n
        invariant
            0 <= i <= n,
            n == s@.len(),
            vstd::utf8::partial_valid_utf8(s@, i as int),
        decreases n - i,
    {
        let ghost suffix = s@.subrange(i as int, n as int);
        let b0 = s[i];
        let mut width: usize = 0;
        let mut value_ok = true;
        if b0 < 0x80 {
            width = 1;
            proof {
                assert(((b0 & 0x7f) as u32) <= 0x7f) by (bit_vector);
            }
        } else if 0xc0 <= b0 && b0 <= 0xdf {
            width = 2;
            if i + 1 < n {
                let b1 = s[i + 1];
                let ok = 0x80 <= b1 && b1 <= 0xbf;
                if ok {
                    let v: u32 = (((b0 & 0x1f) as u32) << 6u32) | ((b1 & 0x3f) as u32);
                    proof {
                        assert(v == codepoint_width_2(b0, b1));
                        assert(v <= 0x7ff) by (bit_vector)
                            requires
                                v == ((((b0 & 0x1f) as u32) << 6u32) | ((b1 & 0x3f) as u32)),
                        ;
                    }
                    value_ok = v >= 0x80;
                } else {
                    value_ok = false;
                }
            }
        } else if 0xe0 <= b0 && b0 <= 0xef {
            width = 3;
            if n - i > 2 {
                let b1 = s[i + 1];
                let b2 = s[i + 2];
                let ok = 0x80 <= b1 && b1 <= 0xbf && 0x80 <= b2 && b2 <= 0xbf;
                if ok {
                    let v: u32 = (((b0 & 0x0f) as u32) << 12u32) | (((b1 & 0x3f) as u32) << 6u32)
                        | ((b2 & 0x3f) as u32);
                    proof {
                        assert(v == codepoint_width_3(b0, b1, b2));
                        assert(v <= 0xffff) by (bit_vector)
                            requires
                                v == ((((b0 & 0x0f) as u32) << 12u32) | (((b1 & 0x3f) as u32)
                                    << 6u32) | ((b2 & 0x3f) as u32)),
                        ;
                    }
                    value_ok = v >= 0x800 && !(0xd800 <= v && v <= 0xdfff);
                } else {
                    value_ok = false;
                }
            }
        } else if 0xf0 <= b0 && b0 <= 0xf7 {
            width = 4;
            if n - i > 3 {
                let b1 = s[i + 1];
                let b2 = s[i + 2];
                let b3 = s[i + 3];
                let ok = 0x80 <= b1 && b1 <= 0xbf && 0x80 <= b2 && b2 <= 0xbf && 0x80 <= b3 && b3
                    <= 0xbf;
                if ok {
                    let v: u32 = (((b0 & 0x07) as u32) << 18u32) | (((b1 & 0x3f) as u32) << 12u32)
                        | (((b2 & 0x3f) as u32) << 6u32) | ((b3 & 0x3f) as u32);
                    proof {
                        assert(v == codepoint_width_4(b0, b1, b2, b3));
                    }
                    value_ok = 0x10000 <= v && v <= 0x10ffff;
                } else {
                    value_ok = false;
                }
            }
        }
        if width == 0 || width > n - i || !value_ok {
            proof {
                assert(!vstd::utf8::valid_first_scalar(suffix));
                vstd::utf8::partial_valid_partial_invalid_utf8(s@, i as int);
            }
            return false;
        }
        proof {
            assert(vstd::utf8::valid_first_scalar(suffix));
            assert(vstd::utf8::length_of_first_scalar(suffix) == width as int);
            vstd::utf8::partial_valid_utf8_extend(s@, i as int);
        }
        i = i + width;
    }
    proof {
        assert(s@.subrange(0, n as int) =~= s@);
    }
    true
}

} // verus!
