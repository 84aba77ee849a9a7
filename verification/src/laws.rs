//! The laws of the codec: properties that relate several functions,
//! stated over the same models the function contracts use and proved
//! once and for all.

use vstd::prelude::*;
use vstd::utf8::{char_is_scalar, char_u32_cast, is_scalar};

use crate::data::{by_code_entry, lemma_code_table_names_wf, table_len};
use crate::decodes::{spec_decode_errs, spec_decode_subs, spec_decoded_bytes};
use crate::digits::{
    all_dec_digits, all_hex_digits, digit_val, lemma_dec_digits_of, lemma_hex_digits_of,
    lemma_radix_val_nonneg, lemma_radix_val_strip_zeros, radix_val,
};
use crate::encodes::{spec_encode_char, EncodeType};
use crate::entity::{spec_entity_decode, DecodeErrorKind, EntityType};
use crate::search::{
    is_ascii_alpha, lemma_code_name_round_trip, lookup_code_in, name_wf, preferred_le,
    spec_code_to_name, spec_name_to_code,
};
use crate::splice::splice_from;
use crate::CodeRange;

verus! {

// ---------------------------------------------------------------
// Numeric references
// ---------------------------------------------------------------

/// Numeric bounds, decimal form. A decimal reference `&#D…D;` is
/// accepted exactly when its value is at most `0x10FFFF` and not a
/// surrogate, and it then decodes to the code point it spells.
pub proof fn law_numeric_bounds_dec(digits: Seq<u8>)
    requires
        digits.len() >= 1,
        all_dec_digits(digits),
    ensures
        ({
            let t = seq![0x23u8] + digits;
            let v = radix_val(digits, 10);
            &&& (spec_entity_decode(t) is Ok <==> (v <= 0x10FFFF && !(0xD800 <= v <= 0xDFFF)))
            &&& (spec_entity_decode(t) is Err ==> spec_entity_decode(t)
                == Err::<char, DecodeErrorKind>(DecodeErrorKind::OutOfRangeScalar))
            &&& (spec_entity_decode(t) is Ok ==> spec_entity_decode(t).unwrap() as u32 == v)
        }),
{
    let t = seq![0x23u8] + digits;
    let v = radix_val(digits, 10);
    lemma_radix_val_nonneg(digits, 10);
    assert(t[0] == 0x23);
    assert(t.len() >= 2);
    assert(t[1] == digits[0]);
    assert(t.subrange(1, t.len() as int) =~= digits);
    if v <= 0x10FFFF && !(0xD800 <= v <= 0xDFFF) {
        let c = (v as u32) as char;
        char_u32_cast(c, v as u32);
        assert(spec_entity_decode(t) == Ok::<char, DecodeErrorKind>(c));
    }
}

/// Numeric bounds and case of the hexadecimal sigil. A hexadecimal
/// reference `&#xH…H;`, under either sigil case, is accepted exactly
/// when its value is at most `0x10FFFF` and not a surrogate, and both
/// sigil spellings decode identically.
pub proof fn law_numeric_bounds_hex(digits: Seq<u8>, sigil: u8)
    requires
        digits.len() >= 1,
        all_hex_digits(digits),
        sigil == 0x78 || sigil == 0x58,
    ensures
        ({
            let t = seq![0x23u8, sigil] + digits;
            let v = radix_val(digits, 16);
            &&& (spec_entity_decode(t) is Ok <==> (v <= 0x10FFFF && !(0xD800 <= v <= 0xDFFF)))
            &&& (spec_entity_decode(t) is Ok ==> spec_entity_decode(t).unwrap() as u32 == v)
            &&& spec_entity_decode(t) == spec_entity_decode(seq![0x23u8, 0x78u8] + digits)
        }),
{
    let t = seq![0x23u8, sigil] + digits;
    let tl = seq![0x23u8, 0x78u8] + digits;
    let v = radix_val(digits, 16);
    lemma_radix_val_nonneg(digits, 16);
    assert(t[0] == 0x23 && t[1] == sigil);
    assert(tl[0] == 0x23 && tl[1] == 0x78);
    assert(t.len() >= 3 && tl.len() >= 3);
    assert(t[2] == digits[0]);
    assert(!is_ascii_alpha(0x23u8));
    assert(t.subrange(2, t.len() as int) =~= digits);
    assert(tl.subrange(2, tl.len() as int) =~= digits);
    if v <= 0x10FFFF && !(0xD800 <= v <= 0xDFFF) {
        let c = (v as u32) as char;
        char_u32_cast(c, v as u32);
        assert(spec_entity_decode(t) == Ok::<char, DecodeErrorKind>(c));
        assert(spec_entity_decode(tl) == Ok::<char, DecodeErrorKind>(c));
    }
}

/// Hexadecimal digit case is irrelevant: two payloads whose digits
/// carry the same values read to the same number, so the references
/// decode identically.
pub proof fn law_hex_digit_case(d1: Seq<u8>, d2: Seq<u8>)
    requires
        d1.len() == d2.len(),
        forall|k: int| 0 <= k < d1.len() ==> digit_val(#[trigger] d1[k]) == digit_val(d2[k]),
    ensures
        radix_val(d1, 16) == radix_val(d2, 16),
    decreases d1.len(),
{
    if d1.len() > 0 {
        assert(forall|k: int|
            0 <= k < d1.drop_last().len() ==> digit_val(#[trigger] d1.drop_last()[k]) == digit_val(
                d2.drop_last()[k],
            ));
        law_hex_digit_case(d1.drop_last(), d2.drop_last());
        assert(digit_val(d1.last()) == digit_val(d2.last()));
    }
}

/// Leading zeros do not change a numeric reference: the padded decimal
/// and hexadecimal payloads decode exactly as the bare ones.
pub proof fn law_leading_zeros(zeros: Seq<u8>, digits: Seq<u8>)
    requires
        forall|k: int| 0 <= k < zeros.len() ==> zeros[k] == 0x30u8,
        digits.len() >= 1,
    ensures
        all_dec_digits(digits) ==> spec_entity_decode(seq![0x23u8] + (zeros + digits))
            == spec_entity_decode(seq![0x23u8] + digits),
        all_hex_digits(digits) ==> spec_entity_decode(seq![0x23u8, 0x78u8] + (zeros + digits))
            == spec_entity_decode(seq![0x23u8, 0x78u8] + digits),
{
    lemma_radix_val_strip_zeros(zeros, digits, 10);
    lemma_radix_val_strip_zeros(zeros, digits, 16);
    if all_dec_digits(digits) {
        assert(forall|k: int|
            0 <= k < (zeros + digits).len() ==> crate::digits::is_dec_digit(
                #[trigger] (zeros + digits)[k],
            ));
        law_numeric_bounds_dec(zeros + digits);
        law_numeric_bounds_dec(digits);
        let ta = seq![0x23u8] + (zeros + digits);
        let tb = seq![0x23u8] + digits;
        assert(ta.subrange(1, ta.len() as int) =~= zeros + digits);
        assert(tb.subrange(1, tb.len() as int) =~= digits);
        assert(ta[0] == 0x23 && ta.len() >= 2 && ta[1] == (zeros + digits)[0]);
        assert(spec_entity_decode(ta) == spec_entity_decode(tb));
    }
    if all_hex_digits(digits) {
        assert(forall|k: int|
            0 <= k < (zeros + digits).len() ==> crate::digits::is_hex_digit(
                #[trigger] (zeros + digits)[k],
            ));
        law_numeric_bounds_hex(zeros + digits, 0x78u8);
        law_numeric_bounds_hex(digits, 0x78u8);
        let ta = seq![0x23u8, 0x78u8] + (zeros + digits);
        let tb = seq![0x23u8, 0x78u8] + digits;
        assert(ta.subrange(2, ta.len() as int) =~= zeros + digits);
        assert(tb.subrange(2, tb.len() as int) =~= digits);
        assert(spec_entity_decode(ta) == spec_entity_decode(tb));
    }
}

// ---------------------------------------------------------------
// Malformed tokens pass through
// ---------------------------------------------------------------

/// A sequence without ampersands decodes to itself: no substitutions,
/// no errors.
pub proof fn lemma_decode_no_amp(s: Seq<u8>, i: int)
    requires
        0 <= i <= s.len(),
        forall|k: int| i <= k < s.len() ==> s[k] != 0x26,
    ensures
        spec_decode_subs(s, i) == Seq::<(CodeRange, char)>::empty(),
        spec_decode_errs(s, i) == Seq::<(CodeRange, DecodeErrorKind)>::empty(),
    decreases s.len() - i,
{
    if i < s.len() {
        lemma_decode_no_amp(s, i + 1);
    }
}

/// Malformed passthrough. Decoding a single rejected token leaves the
/// bytes untouched and records exactly one error, of the recognizer's
/// kind, over the whole `&…;` range.
pub proof fn law_malformed_passthrough(t: Seq<u8>)
    requires
        t.len() >= 1,
        forall|k: int| 0 <= k < t.len() ==> t[k] != 0x26 && t[k] != 0x3b,
        spec_entity_decode(t) is Err,
    ensures
        ({
            let s = seq![0x26u8] + t + seq![0x3bu8];
            &&& spec_decode_subs(s, 0) == Seq::<(CodeRange, char)>::empty()
            &&& spec_decode_errs(s, 0) == seq![
                (
                    CodeRange { start: 0, end: (t.len() + 1) as usize },
                    spec_entity_decode(t)->Err_0,
                ),
            ]
            &&& spec_decoded_bytes(s) == s
        }),
{
    let s = seq![0x26u8] + t + seq![0x3bu8];
    assert(s.len() == t.len() + 2);
    assert(s[0] == 0x26);
    assert(forall|m: int| 1 <= m < t.len() + 1 ==> s[m] == t[m - 1]);
    assert(s[t.len() + 1 as int] == 0x3b);
    crate::decodes::lemma_find_term_is(s, 1, t.len() + 1 as int);
    let j = t.len() + 1 as int;
    assert(s.subrange(1, j) =~= t);
    assert(j > 1);
    lemma_decode_no_amp(s, j + 1);
    assert(spec_decode_subs(s, 0) =~= Seq::<(CodeRange, char)>::empty());
    assert(spec_decode_errs(s, 0) =~= seq![
        (CodeRange { start: 0, end: (t.len() + 1) as usize }, spec_entity_decode(t)->Err_0),
    ]);
    assert(spec_decode_subs(s, 0).map_values(
        |e: (CodeRange, char)| (e.0, vstd::utf8::encode_scalar(e.1 as u32)),
    ) =~= Seq::<(CodeRange, Seq<u8>)>::empty());
    crate::splice::lemma_splice_empty(s);
}

// ---------------------------------------------------------------
// Idempotent decode
// ---------------------------------------------------------------

/// Idempotent decode. When the first decode leaves no ampersand in its
/// output, decoding that output changes nothing: the second decode
/// returns the same bytes.
pub proof fn law_idempotent_decode(x: Seq<u8>)
    requires
        forall|k: int| 0 <= k < spec_decoded_bytes(x).len() ==> spec_decoded_bytes(x)[k] != 0x26,
    ensures
        spec_decoded_bytes(spec_decoded_bytes(x)) == spec_decoded_bytes(x),
{
    let y = spec_decoded_bytes(x);
    lemma_decode_no_amp(y, 0);
    assert(spec_decode_subs(y, 0).map_values(
        |e: (CodeRange, char)| (e.0, vstd::utf8::encode_scalar(e.1 as u32)),
    ) =~= Seq::<(CodeRange, Seq<u8>)>::empty());
    crate::splice::lemma_splice_empty(y);
}

// ---------------------------------------------------------------
// Preferred names
// ---------------------------------------------------------------

/// Codes never decrease along the code-ordered table.
proof fn lemma_code_sorted_pair(i: int, j: int)
    requires
        forall|k: int|
            0 <= k < table_len() - 1 ==> (#[trigger] by_code_entry(k)).1 <= by_code_entry(k + 1).1,
        0 <= i <= j < table_len(),
    ensures
        by_code_entry(i).1 <= by_code_entry(j).1,
    decreases j - i,
{
    if i < j {
        lemma_code_sorted_pair(i, j - 1);
        assert(by_code_entry(j - 1).1 <= by_code_entry(j - 1 + 1).1);
    }
}

/// Among entries that share a code point, an earlier entry is at least
/// as preferred as any later one.
proof fn lemma_preferred_chain(i: int, j: int)
    requires
        forall|k: int|
            0 <= k < table_len() - 1 ==> (#[trigger] by_code_entry(k)).1 <= by_code_entry(k + 1).1,
        forall|k: int|
            0 <= k < table_len() - 1 && (#[trigger] by_code_entry(k)).1 == by_code_entry(k + 1).1
                ==> preferred_le(by_code_entry(k).0, by_code_entry(k + 1).0),
        0 <= i < j < table_len(),
        by_code_entry(i).1 == by_code_entry(j).1,
    ensures
        preferred_le(by_code_entry(i).0, by_code_entry(j).0),
    decreases j - i,
{
    if j == i + 1 {
        assert(preferred_le(by_code_entry(i).0, by_code_entry(i + 1).0));
    } else {
        lemma_code_sorted_pair(i, j - 1);
        lemma_code_sorted_pair(j - 1, j);
        assert(by_code_entry(j - 1).1 == by_code_entry(j).1);
        assert(by_code_entry(i).1 == by_code_entry(j - 1).1);
        lemma_preferred_chain(i, j - 1);
        assert(preferred_le(by_code_entry(j - 1).0, by_code_entry(j - 1 + 1).0));
    }
}

/// Position of the first record of a run that carries the given code
/// point.
pub open spec fn first_code_index(t: Seq<(Seq<u8>, u32)>, code: u32) -> int
    decreases t.len(),
{
    if t.len() == 0 {
        0
    } else if t[0].1 == code {
        0
    } else {
        1 + first_code_index(t.drop_first(), code)
    }
}

/// When some record carries the code point, the lookup returns the
/// record at the first such position, and no earlier record matches.
proof fn lemma_lookup_code_first(t: Seq<(Seq<u8>, u32)>, code: u32, k: int)
    requires
        0 <= k < t.len(),
        t[k].1 == code,
    ensures
        ({
            let i = first_code_index(t, code);
            &&& 0 <= i <= k
            &&& t[i].1 == code
            &&& lookup_code_in(t, code) == Some(t[i].0)
            &&& forall|m: int| 0 <= m < i ==> (#[trigger] t[m]).1 != code
        }),
    decreases t.len(),
{
    if t[0].1 == code {
    } else {
        assert(t.drop_first()[k - 1] == t[k]);
        lemma_lookup_code_first(t.drop_first(), code, k - 1);
        let i = first_code_index(t, code);
        assert(i == 1 + first_code_index(t.drop_first(), code));
        assert(t[i] == t.drop_first()[i - 1]);
        assert(forall|m: int| 0 <= m < i ==> (#[trigger] t[m]).1 != code) by {
            assert(forall|m: int|
                1 <= m < i ==> (#[trigger] t[m]).1 == t.drop_first()[m - 1].1);
        }
    }
}

/// Preferred name. The name the encoder picks for a code point is at
/// least as preferred as every other name the table gives that code
/// point: shortest first, lowercase before uppercase at equal length.
pub proof fn law_preferred_name(code: u32, k: int)
    requires
        0 <= k < table_len(),
        by_code_entry(k).1 == code,
    ensures
        spec_code_to_name(code) is Some,
        preferred_le(spec_code_to_name(code).unwrap(), by_code_entry(k).0),
{
    crate::data::lemma_code_table_adjacent_order();
    let t = crate::data::by_code_table();
    assert(t[k] == by_code_entry(k));
    lemma_lookup_code_first(t, code, k);
    let i = first_code_index(t, code);
    assert(t[i] == by_code_entry(i));
    assert(spec_code_to_name(code) == Some(by_code_entry(i).0));
    if k > i {
        lemma_preferred_chain(i, k);
    }
}

// ---------------------------------------------------------------
// Charset monotonicity
// ---------------------------------------------------------------

/// True when some substitution of the run covers exactly the range `r`.
pub open spec fn has_range(subs: Seq<(CodeRange, (EntityType, Seq<u8>))>, r: CodeRange) -> bool {
    exists|k: int| 0 <= k < subs.len() && (#[trigger] subs[k]).0 == r
}

/// A range occurs in a concatenation exactly when it occurs in one of
/// the parts.
proof fn lemma_has_range_concat(
    a: Seq<(CodeRange, (EntityType, Seq<u8>))>,
    b: Seq<(CodeRange, (EntityType, Seq<u8>))>,
    r: CodeRange,
)
    ensures
        has_range(a + b, r) == (has_range(a, r) || has_range(b, r)),
{
    if has_range(a + b, r) {
        let k = choose|k: int| 0 <= k < (a + b).len() && (#[trigger] (a + b)[k]).0 == r;
        if k < a.len() {
            assert(a[k].0 == r);
        } else {
            assert(b[k - a.len()].0 == r);
        }
    }
    if has_range(a, r) {
        let k = choose|k: int| 0 <= k < a.len() && (#[trigger] a[k]).0 == r;
        assert((a + b)[k].0 == r);
    }
    if has_range(b, r) {
        let k = choose|k: int| 0 <= k < b.len() && (#[trigger] b[k]).0 == r;
        assert((a + b)[k + a.len()].0 == r);
    }
}

/// Each of the five special characters carries a name in the table.
proof fn lemma_special_named(c: char)
    requires
        crate::encodes::in_special_set(c),
    ensures
        spec_code_to_name(c as u32) is Some,
{
    let t = crate::data::by_code_table();
    if c == '<' {
        assert(t[7] == by_code_entry(7));
        lemma_lookup_code_first(t, c as u32, 7);
    } else if c == '>' {
        assert(t[9] == by_code_entry(9));
        lemma_lookup_code_first(t, c as u32, 9);
    } else if c == '&' {
        assert(t[4] == by_code_entry(4));
        lemma_lookup_code_first(t, c as u32, 4);
    } else if c == '\'' {
        assert(t[6] == by_code_entry(6));
        lemma_lookup_code_first(t, c as u32, 6);
    } else {
        assert(t[2] == by_code_entry(2));
        lemma_lookup_code_first(t, c as u32, 2);
    }
}

/// The decision bit of a character set is exactly membership.
proof fn lemma_filter_bit(cs: crate::encodes::CharacterSet, c: char, et: EncodeType)
    ensures
        crate::encodes::spec_filter(cs, c, et).0 == crate::encodes::spec_contains(cs, c),
{
}

/// Whenever the decision of set `a` substitutes a code point, so does
/// the decision of any set `b` that contains `a`.
proof fn lemma_mono_one(item: crate::scan::Utf8Item, et: EncodeType, a: crate::encodes::CharacterSet, b: crate::encodes::CharacterSet, r: CodeRange)
    requires
        forall|c: char| crate::encodes::spec_contains(a, c) ==> #[trigger] crate::encodes::spec_contains(b, c),
        has_range(
            crate::encodes::decided_one(
                item,
                et,
                match item {
                    crate::scan::Utf8Item::Ch { c, .. } => crate::encodes::spec_filter(a, c, et),
                    crate::scan::Utf8Item::Bad { .. } => (false, None),
                },
            ),
            r,
        ),
    ensures
        has_range(
            crate::encodes::decided_one(
                item,
                et,
                match item {
                    crate::scan::Utf8Item::Ch { c, .. } => crate::encodes::spec_filter(b, c, et),
                    crate::scan::Utf8Item::Bad { .. } => (false, None),
                },
            ),
            r,
        ),
{
    match item {
        crate::scan::Utf8Item::Bad { .. } => {},
        crate::scan::Utf8Item::Ch { c, start, end } => {
            let da = crate::encodes::spec_filter(a, c, et);
            let db = crate::encodes::spec_filter(b, c, et);
            lemma_filter_bit(a, c, et);
            lemma_filter_bit(b, c, et);
            let ha = crate::encodes::decided_one(item, et, da);
            let hb = crate::encodes::decided_one(item, et, db);
            assert(ha.len() > 0);
            assert(da.0);
            assert(db.0);
            // the substitution of `a` shows an entity exists for `c`
            if da.1 is Some {
                // a ready-made named payload: the table knows the character
                assert(crate::encodes::spec_has_named(et));
                assert(crate::encodes::in_special_set(c));
                lemma_special_named(c);
                assert(spec_encode_char(c, et) is Some);
            } else {
                assert(spec_encode_char(c, et) is Some);
            }
            match db.1 {
                Some(p) => {
                    assert(hb[0].0 == r);
                },
                None => {
                    assert(hb[0].0 == r);
                },
            }
        },
    }
}

/// Charset monotonicity. When character set `a` is contained in
/// character set `b`, every byte range that encoding under `a`
/// substitutes is also substituted when encoding under `b`.
pub proof fn law_charset_monotone(
    items: Seq<crate::scan::Utf8Item>,
    et: EncodeType,
    a: crate::encodes::CharacterSet,
    b: crate::encodes::CharacterSet,
)
    requires
        forall|c: char| crate::encodes::spec_contains(a, c) ==> #[trigger] crate::encodes::spec_contains(b, c),
    ensures
        forall|r: CodeRange|
            #[trigger] has_range(
                crate::encodes::spec_encode_subs_decided(
                    items,
                    et,
                    crate::encodes::charset_decisions(items, a, et),
                ),
                r,
            ) ==> has_range(
                crate::encodes::spec_encode_subs_decided(
                    items,
                    et,
                    crate::encodes::charset_decisions(items, b, et),
                ),
                r,
            ),
    decreases items.len(),
{
    let dsa = crate::encodes::charset_decisions(items, a, et);
    let dsb = crate::encodes::charset_decisions(items, b, et);
    let suba = crate::encodes::spec_encode_subs_decided(items, et, dsa);
    let subb = crate::encodes::spec_encode_subs_decided(items, et, dsb);
    if items.len() == 0 {
        assert(forall|r: CodeRange| !has_range(suba, r));
    } else {
        let rest = items.drop_first();
        law_charset_monotone(rest, et, a, b);
        let da = match items[0] {
            crate::scan::Utf8Item::Ch { c, .. } => crate::encodes::spec_filter(a, c, et),
            crate::scan::Utf8Item::Bad { .. } => (false, None),
        };
        let db = match items[0] {
            crate::scan::Utf8Item::Ch { c, .. } => crate::encodes::spec_filter(b, c, et),
            crate::scan::Utf8Item::Bad { .. } => (false, None),
        };
        assert(dsa[0] == da);
        assert(dsb[0] == db);
        assert(dsa.drop_first() =~= crate::encodes::charset_decisions(rest, a, et));
        assert(dsb.drop_first() =~= crate::encodes::charset_decisions(rest, b, et));
        let ha = crate::encodes::decided_one(items[0], et, da);
        let hb = crate::encodes::decided_one(items[0], et, db);
        let resta = crate::encodes::spec_encode_subs_decided(
            rest,
            et,
            crate::encodes::charset_decisions(rest, a, et),
        );
        let restb = crate::encodes::spec_encode_subs_decided(
            rest,
            et,
            crate::encodes::charset_decisions(rest, b, et),
        );
        assert(suba == ha + resta);
        assert(subb == hb + restb);
        assert forall|r: CodeRange| #[trigger] has_range(suba, r) implies has_range(subb, r) by {
            lemma_has_range_concat(ha, resta, r);
            lemma_has_range_concat(hb, restb, r);
            if has_range(ha, r) {
                lemma_mono_one(items[0], et, a, b, r);
            }
        }
    }
}

// ---------------------------------------------------------------
// Entities the encoder writes decode back to their character
// ---------------------------------------------------------------

/// Round trip of one encoded entity. Whatever form the formatter picks
/// for a character, the recognizer resolves the token between `&` and
/// `;` — the form prefix followed by the payload — back to exactly
/// that character.
pub proof fn law_encode_char_round_trip(c: char, et: EncodeType)
    requires
        spec_encode_char(c, et) is Some,
    ensures
        ({
            let p = spec_encode_char(c, et).unwrap();
            spec_entity_decode(crate::entity::entity_prefix(p.0) + p.1)
                == Ok::<char, DecodeErrorKind>(c)
        }),
{
    let p = spec_encode_char(c, et).unwrap();
    let token = crate::entity::entity_prefix(p.0) + p.1;
    char_is_scalar(c);
    let v = c as u32;
    match p.0 {
        EntityType::Named => {
            assert(spec_code_to_name(v) is Some);
            let name = spec_code_to_name(v).unwrap();
            assert(p.1 == name);
            assert(token =~= name);
            lemma_code_name_round_trip(v);
            assert(spec_name_to_code(name) == Some(v));
            // the table names are well formed, so the token has name shape
            lemma_code_table_names_wf();
            crate::search::lemma_lookup_code_member(crate::data::by_code_table(), v);
            let i = choose|i: int|
                0 <= i < crate::data::by_code_table().len() && (#[trigger] crate::data::by_code_table()[i]).1
                    == v && crate::data::by_code_table()[i].0 == name;
            assert(crate::data::by_code_table()[i] == by_code_entry(i));
            assert(name_wf(name));
            char_u32_cast(c, v);
            assert(spec_entity_decode(token) == Ok::<char, DecodeErrorKind>((v as u32) as char));
        },
        EntityType::Hex => {
            assert(p.1 == crate::digits::hex_digits_of(v as int));
            lemma_hex_digits_of(v as int);
            assert(token =~= seq![0x23u8, 0x78u8] + p.1);
            law_numeric_bounds_hex(p.1, 0x78u8);
            assert(radix_val(p.1, 16) == v);
            assert(is_scalar(v));
            char_u32_cast(c, v);
            assert(spec_entity_decode(token) is Ok);
            assert(spec_entity_decode(token).unwrap() as u32 == v);
            assert(spec_entity_decode(token).unwrap() == c) by {
                let c2 = spec_entity_decode(token).unwrap();
                char_u32_cast(c2, v);
            }
        },
        EntityType::Decimal => {
            assert(p.1 == crate::digits::dec_digits_of(v as int));
            lemma_dec_digits_of(v as int);
            assert(token =~= seq![0x23u8] + p.1);
            law_numeric_bounds_dec(p.1);
            assert(radix_val(p.1, 10) == v);
            assert(is_scalar(v));
            char_u32_cast(c, v);
            assert(spec_entity_decode(token) is Ok);
            assert(spec_entity_decode(token).unwrap() as u32 == v);
            assert(spec_entity_decode(token).unwrap() == c) by {
                let c2 = spec_entity_decode(token).unwrap();
                char_u32_cast(c2, v);
            }
        },
    }
}

// ---------------------------------------------------------------
// Round trip
// ---------------------------------------------------------------

/// A run of bytes without ampersands passes through the decoder
/// verbatim.
proof fn lemma_decode_pass_run(x: Seq<u8>, p: int, q: int)
    requires
        0 <= p <= q <= x.len(),
        forall|m: int| p <= m < q ==> x[m] != 0x26,
    ensures
        crate::decodes::spec_decode_out(x, p) == x.subrange(p, q)
            + crate::decodes::spec_decode_out(x, q),
    decreases q - p,
{
    if p < q {
        lemma_decode_pass_run(x, p + 1, q);
        assert(x.subrange(p, q) =~= seq![x[p]] + x.subrange(p + 1, q));
        assert(seq![x[p]] + (x.subrange(p + 1, q) + crate::decodes::spec_decode_out(x, q)) =~= (
        seq![x[p]] + x.subrange(p + 1, q)) + crate::decodes::spec_decode_out(x, q));
    } else {
        assert(x.subrange(p, q) =~= Seq::<u8>::empty());
        assert(x.subrange(p, q) + crate::decodes::spec_decode_out(x, q)
            =~= crate::decodes::spec_decode_out(x, q));
    }
}

/// The ampersand can always be encoded, whatever forms are allowed.
proof fn lemma_amp_encodable(et: EncodeType)
    ensures
        spec_encode_char('&', et) is Some,
{
    if crate::encodes::spec_has_named(et) {
        let t = crate::data::by_code_table();
        assert(t[4] == by_code_entry(4));
        lemma_lookup_code_first(t, '&' as u32, 4);
    }
}

/// The interior the formatter writes for a character — the form prefix
/// followed by the payload — is non-empty, holds no terminator byte,
/// and resolves back to the character.
proof fn lemma_token_facts_formatter(c: char, et: EncodeType)
    requires
        spec_encode_char(c, et) is Some,
    ensures
        ({
            let p0 = spec_encode_char(c, et).unwrap();
            let interior = crate::entity::entity_prefix(p0.0) + p0.1;
            &&& interior.len() >= 1
            &&& forall|m: int|
                0 <= m < interior.len() ==> #[trigger] interior[m] != 0x26 && interior[m] != 0x3b
            &&& spec_entity_decode(interior) == Ok::<char, DecodeErrorKind>(c)
        }),
{
    let p0 = spec_encode_char(c, et).unwrap();
    let interior = crate::entity::entity_prefix(p0.0) + p0.1;
    law_encode_char_round_trip(c, et);
    char_is_scalar(c);
    let v = c as u32;
    match p0.0 {
        EntityType::Named => {
            let name = spec_code_to_name(v).unwrap();
            assert(p0.1 == name);
            crate::search::lemma_lookup_code_member(crate::data::by_code_table(), v);
            let i = choose|i: int|
                0 <= i < crate::data::by_code_table().len() && (#[trigger] crate::data::by_code_table()[i]).1
                    == v && crate::data::by_code_table()[i].0 == name;
            lemma_code_table_names_wf();
            assert(crate::data::by_code_table()[i] == by_code_entry(i));
            assert(name_wf(name));
            assert(interior =~= name);
            assert(forall|m: int|
                0 <= m < interior.len() ==> crate::search::is_ascii_alnum(
                    #[trigger] interior[m],
                ));
        },
        EntityType::Hex => {
            lemma_hex_digits_of(v as int);
            assert(interior =~= seq![0x23u8, 0x78u8] + crate::digits::hex_digits_of(v as int));
            assert(forall|m: int|
                2 <= m < interior.len() ==> crate::digits::is_hex_digit(#[trigger] interior[m]));
        },
        EntityType::Decimal => {
            lemma_dec_digits_of(v as int);
            assert(interior =~= seq![0x23u8] + crate::digits::dec_digits_of(v as int));
            assert(forall|m: int|
                1 <= m < interior.len() ==> crate::digits::is_dec_digit(#[trigger] interior[m]));
        },
    }
}

/// The ready-made named payload of a special character is a well-formed
/// table name, holds no terminator byte, and resolves back to the
/// character.
proof fn lemma_token_facts_ready(c: char)
    requires
        crate::encodes::in_special_set(c),
    ensures
        crate::encodes::named_payload(c).len() >= 1,
        forall|m: int|
            0 <= m < crate::encodes::named_payload(c).len() ==> #[trigger] crate::encodes::named_payload(
                c,
            )[m] != 0x26 && crate::encodes::named_payload(c)[m] != 0x3b,
        spec_entity_decode(crate::encodes::named_payload(c)) == Ok::<char, DecodeErrorKind>(c),
{
    let t = crate::data::by_code_table();
    let name = crate::encodes::named_payload(c);
    let idx: int = if c == '<' {
        7
    } else if c == '>' {
        9
    } else if c == '&' {
        4
    } else if c == '\'' {
        6
    } else {
        2
    };
    assert(t[idx] == by_code_entry(idx));
    assert(by_code_entry(idx).1 == c as u32);
    assert(by_code_entry(idx).0 =~= name);
    lemma_lookup_code_first(t, c as u32, idx);
    let i = first_code_index(t, c as u32);
    assert(t[i] == by_code_entry(i));
    assert(spec_code_to_name(c as u32) is Some);
    lemma_code_name_round_trip(c as u32);
    // whichever record the lookup picked, its name is the same literal
    assert(by_code_entry(i).0 =~= name);
    assert(spec_name_to_code(name) == Some(c as u32));
    lemma_code_table_names_wf();
    assert(name_wf(name));
    assert(forall|m: int|
        0 <= m < name.len() ==> crate::search::is_ascii_alnum(#[trigger] name[m]));
    char_u32_cast(c, c as u32);
    assert(spec_entity_decode(name) == Ok::<char, DecodeErrorKind>((c as u32) as char));
}

/// The round trip, walked from one character boundary on: when the
/// encoded suffix of `enc` from `p` matches the encoder's output for
/// the input suffix from `i`, decoding `enc` from `p` restores that
/// input suffix.
#[verifier::rlimit(100)]
#[verifier::spinoff_prover]
proof fn lemma_round_trip_from(
    s: Seq<u8>,
    et: EncodeType,
    cs: crate::encodes::CharacterSet,
    i: int,
    enc: Seq<u8>,
    p: int,
)
    requires
        0 <= i <= s.len(),
        s.len() <= usize::MAX,
        vstd::utf8::valid_utf8(s.subrange(i, s.len() as int)),
        crate::encodes::spec_contains(cs, '&'),
        0 <= p <= enc.len(),
        enc.subrange(p, enc.len() as int) == splice_from(
            s,
            crate::encodes::spec_encode_subs_at(s, et, cs, i).map_values(
                |e: (CodeRange, (EntityType, Seq<u8>))| (
                    e.0,
                    crate::entity::entity_bytes(e.1.0, e.1.1),
                ),
            ),
            i,
        ),
    ensures
        crate::decodes::spec_decode_out(enc, p) == s.subrange(i, s.len() as int),
    decreases s.len() - i,
{
    let mapf = |e: (CodeRange, (EntityType, Seq<u8>))| (
        e.0,
        crate::entity::entity_bytes(e.1.0, e.1.1),
    );
    let subs = crate::encodes::spec_encode_subs_at(s, et, cs, i);
    let mapped = subs.map_values(mapf);
    let suffix = s.subrange(i, s.len() as int);
    if i == s.len() {
        assert(crate::scan::utf8_items(s, i) =~= Seq::<crate::scan::Utf8Item>::empty());
        assert(subs =~= Seq::<(CodeRange, (EntityType, Seq<u8>))>::empty());
        assert(mapped =~= Seq::<(CodeRange, Seq<u8>)>::empty());
        assert(splice_from(s, mapped, i) == s.subrange(i, s.len() as int));
        assert(s.subrange(i, s.len() as int) =~= Seq::<u8>::empty());
        assert(enc.subrange(p, enc.len() as int).len() == 0);
        assert(p == enc.len());
    } else {
        crate::scan::lemma_utf8_items_valid_step(s, i);
        let w = vstd::utf8::length_of_first_scalar(suffix);
        let v = vstd::utf8::decode_first_scalar(suffix);
        let c = v as char;
        let item = crate::scan::Utf8Item::Ch { c, start: i, end: i + w - 1 };
        let items = crate::scan::utf8_items(s, i);
        let rest_items = crate::scan::utf8_items(s, i + w);
        assert(items == seq![item] + rest_items);
        assert(items[0] == item);
        assert(items.drop_first() =~= rest_items);
        assert(vstd::utf8::pop_first_scalar(suffix) =~= s.subrange(i + w, s.len() as int));
        assert(vstd::utf8::valid_utf8(s.subrange(i + w, s.len() as int)));
        let ds = crate::encodes::charset_decisions(items, cs, et);
        assert(ds.drop_first() =~= crate::encodes::charset_decisions(rest_items, cs, et));
        crate::encodes::lemma_encode_decided_cons(items, et, ds);
        let d0 = crate::encodes::spec_filter(cs, c, et);
        assert(ds[0] == d0);
        let h = crate::encodes::decided_one(item, et, d0);
        let rest = crate::encodes::spec_encode_subs_at(s, et, cs, i + w);
        assert(subs == h + rest);
        assert(mapped =~= h.map_values(mapf) + rest.map_values(mapf));
        let rest_mapped = rest.map_values(mapf);
        // the bytes of this character
        vstd::utf8::decode_utf8_first_scalar(suffix);
        assert(vstd::utf8::take_first_scalar(suffix) =~= s.subrange(i, i + w));
        assert(vstd::utf8::encode_scalar(c as u32) == s.subrange(i, i + w));
        if h.len() > 0 {
            // this character is substituted by an entity
            let p0 = h[0].1;
            assert(h[0].0 == CodeRange {
                start: i as usize,
                end: (i + w - 1) as usize,
            });
            let interior = crate::entity::entity_prefix(p0.0) + p0.1;
            let eb = crate::entity::entity_bytes(p0.0, p0.1);
            assert(eb =~= seq![0x26u8] + interior + seq![0x3bu8]);
            // the interior resolves back to the character
            if d0.1 is Some {
                assert(p0 == d0.1.unwrap());
                assert(p0.0 == EntityType::Named && p0.1 == crate::encodes::named_payload(c)
                    && crate::encodes::in_special_set(c));
                lemma_token_facts_ready(c);
                assert(interior =~= crate::encodes::named_payload(c));
            } else {
                assert(spec_encode_char(c, et) == Some(p0));
                lemma_token_facts_formatter(c, et);
            }
            assert(interior.len() >= 1);
            assert(forall|m: int|
                0 <= m < interior.len() ==> #[trigger] interior[m] != 0x26 && interior[m]
                    != 0x3b);
            assert(spec_entity_decode(interior) == Ok::<char, DecodeErrorKind>(c));
            // the encoded suffix opens with the entity bytes
            assert(h.map_values(mapf) =~= seq![(h[0].0, eb)]);
            assert(mapped[0] == (h[0].0, eb));
            assert(mapped.drop_first() =~= rest_mapped);
            assert(splice_from(s, mapped, i) == s.subrange(i, i as int) + eb + splice_from(
                s,
                rest_mapped,
                i + w,
            ));
            assert(s.subrange(i, i as int) =~= Seq::<u8>::empty());
            let rest_splice = splice_from(s, rest_mapped, i + w);
            assert(enc.subrange(p, enc.len() as int) =~= eb + rest_splice);
            let ln = eb.len() as int;
            assert(ln == interior.len() + 2);
            assert(enc.subrange(p, enc.len() as int).len() == enc.len() - p);
            assert(enc.len() - p == ln + rest_splice.len());
            assert(p + ln <= enc.len());
            assert forall|m: int| p <= m < p + ln implies #[trigger] enc[m] == eb[m - p] by {
                assert(enc.subrange(p, enc.len() as int)[m - p] == enc[m]);
                assert((eb + rest_splice)[m - p] == eb[m - p]);
            }
            assert(eb[0] == 0x26);
            assert(enc[p] == 0x26);
            let j = p + ln - 1;
            assert(eb[ln - 1] == 0x3b);
            assert(enc[j] == 0x3b);
            assert forall|m: int| p + 1 <= m < j implies enc[m] != 0x3b && enc[m] != 0x26 by {
                assert(enc[m] == eb[m - p]);
                assert(eb[m - p] == interior[m - p - 1]);
            }
            crate::decodes::lemma_find_term_is(enc, p + 1, j);
            assert(j > p + 1);
            assert(enc.subrange(p + 1, j) =~= interior);
            assert(crate::decodes::spec_decode_out(enc, p) == vstd::utf8::encode_scalar(
                c as u32,
            ) + crate::decodes::spec_decode_out(enc, j + 1));
            assert(enc.subrange(j + 1, enc.len() as int).len() == rest_splice.len());
            assert forall|m: int| 0 <= m < rest_splice.len() implies enc.subrange(
                j + 1,
                enc.len() as int,
            )[m] == rest_splice[m] by {
                assert(enc.subrange(j + 1, enc.len() as int)[m] == enc[j + 1 + m]);
                assert(enc[j + 1 + m] == enc.subrange(p, enc.len() as int)[ln + m]);
                assert((eb + rest_splice)[ln + m] == rest_splice[m]);
            }
            assert(enc.subrange(j + 1, enc.len() as int) =~= rest_splice);
            lemma_round_trip_from(s, et, cs, i + w, enc, j + 1);
            assert(vstd::utf8::encode_scalar(c as u32) + s.subrange(i + w, s.len() as int)
                =~= s.subrange(i, s.len() as int));
        } else {
            // this character stays as it is; it cannot be the ampersand
            if c == '&' {
                assert(crate::encodes::spec_contains(cs, '&'));
                assert(d0.0);
                if d0.1 is Some {
                    assert(h.len() > 0);
                } else {
                    lemma_amp_encodable(et);
                    assert(h.len() > 0);
                }
                assert(false);
            }
            // none of this character's bytes is an ampersand
            assert(forall|m: int| 0 <= m < suffix.len() ==> suffix[m] == s[i + m]);
            assert forall|m: int| i <= m < i + w implies s[m] != 0x26 by {
                if m == i {
                    if w == 1 {
                        if s[i] == 0x26 {
                            assert(v == ((0x26u8 & 0x7f) as u32));
                            assert(v == 0x26) by (bit_vector)
                                requires
                                    v == ((0x26u8 & 0x7f) as u32),
                            ;
                            char_u32_cast('&', 0x26u32);
                            assert(c == '&');
                        }
                    } else {
                        assert(!vstd::utf8::is_leading_byte_width_1(s[i]));
                        assert(s[i] >= 0xc0);
                    }
                } else {
                    assert(vstd::utf8::is_continuation_byte(suffix[m - i]));
                }
            }
            assert(subs =~= rest);
            assert(mapped =~= rest_mapped);
            crate::encodes::lemma_encode_subs_at_shape(s, et, cs, i + w);
            if rest.len() > 0 {
                assert(rest_mapped[0].0 == rest[0].0);
                assert(rest[0].0.start >= i + w);
            }
            crate::decodes::lemma_splice_advance(s, rest_mapped, i, i + w);
            assert(splice_from(s, mapped, i) == s.subrange(i, i + w) + splice_from(
                s,
                rest_mapped,
                i + w,
            ));
            let rest_splice = splice_from(s, rest_mapped, i + w);
            assert(enc.subrange(p, enc.len() as int) =~= s.subrange(i, i + w) + rest_splice);
            assert(enc.subrange(p, enc.len() as int).len() == enc.len() - p);
            assert(enc.len() - p == w + rest_splice.len());
            assert(p + w <= enc.len());
            assert forall|m: int| p <= m < p + w implies #[trigger] enc[m] == s[i + (m - p)] by {
                assert(enc.subrange(p, enc.len() as int)[m - p] == enc[m]);
                assert((s.subrange(i, i + w) + rest_splice)[m - p] == s.subrange(i, i + w)[m
                    - p]);
            }
            lemma_decode_pass_run(enc, p, p + w);
            assert(enc.subrange(p, p + w) =~= s.subrange(i, i + w));
            assert forall|m: int| 0 <= m < rest_splice.len() implies enc.subrange(
                p + w,
                enc.len() as int,
            )[m] == rest_splice[m] by {
                assert(enc.subrange(p + w, enc.len() as int)[m] == enc[p + w + m]);
                assert(enc[p + w + m] == enc.subrange(p, enc.len() as int)[w + m]);
                assert((s.subrange(i, i + w) + rest_splice)[w + m] == rest_splice[m]);
            }
            assert(enc.subrange(p + w, enc.len() as int) =~= rest_splice);
            lemma_round_trip_from(s, et, cs, i + w, enc, p + w);
            assert(s.subrange(i, i + w) + s.subrange(i + w, s.len() as int) =~= s.subrange(
                i,
                s.len() as int,
            ));
        }
    }
}

/// Round trip. For every valid UTF-8 input and every combination of
/// encode forms with a character set that covers the ampersand,
/// decoding the encoded stream restores the input byte for byte.
pub proof fn law_round_trip(s: Seq<u8>, et: EncodeType, cs: crate::encodes::CharacterSet)
    requires
        s.len() <= usize::MAX,
        crate::encodes::spec_encoded_bytes(s, et, cs).len() <= usize::MAX,
        vstd::utf8::valid_utf8(s),
        crate::encodes::spec_contains(cs, '&'),
    ensures
        spec_decoded_bytes(crate::encodes::spec_encoded_bytes(s, et, cs)) == s,
{
    let enc = crate::encodes::spec_encoded_bytes(s, et, cs);
    assert(s.subrange(0, s.len() as int) =~= s);
    assert(enc.subrange(0, enc.len() as int) =~= enc);
    assert(crate::encodes::spec_encode_subs(s, et, cs) == crate::encodes::spec_encode_subs_at(
        s,
        et,
        cs,
        0,
    ));
    lemma_round_trip_from(s, et, cs, 0, enc, 0);
    crate::decodes::lemma_decode_splice_link(enc, 0);
}

} // verus!
