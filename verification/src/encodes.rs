//! The encode pipeline.
//!
//! The encoder walks the input with the tolerant UTF-8 scanner. Every
//! complete code point is handed to a policy — a built-in character
//! set or a caller-supplied filter — which decides whether the code
//! point is replaced and may hand back a ready-made replacement;
//! otherwise the entity formatter picks the first available form among
//! the set bits of the [`EncodeType`]: a preferred name from the
//! table, lowercase hexadecimal, or decimal. Malformed bytes always
//! pass through unchanged.

use vstd::prelude::*;
use vstd::utf8::{decode_utf8, valid_utf8};

use crate::data::build_by_code_table;
use crate::digits::{dec_digits_of, hex_digits_of, u32_to_dec_bytes, u32_to_hex_bytes};
use crate::entity::{
    bytes_as_chars, entity_bytes, CharEntity, EntityType, HtmlEntityError, IBytesTrait,
    ICodedDataTrait,
};
use crate::scan::{scan_next, utf8_items, Scanned, Utf8Item};
use crate::search::{code_to_name, is_code_table, spec_code_to_name};
use crate::splice::{chars_splice_from, ranges_wf, splice_from, sub_ranges};
use crate::CodeRange;

verus! {

/// The entity forms the encoder may use, as a set: the effective form
/// is the first available one in the order named, hexadecimal, decimal.
#[derive(Clone, Copy, PartialEq, Eq, Structural, Debug)]
pub enum EncodeType {
    Named,
    Hex,
    Decimal,
    NamedOrHex,
    NamedOrDecimal,
}

impl Default for EncodeType {
    /// The default form set: named entities only.
    fn default() -> (r: Self)
        ensures
            r == EncodeType::Named,
    {
        EncodeType::Named
    }
}

/// True when the form set allows named entities.
pub open spec fn spec_has_named(et: EncodeType) -> bool {
    match et {
        EncodeType::Named => true,
        EncodeType::NamedOrHex => true,
        EncodeType::NamedOrDecimal => true,
        _ => false,
    }
}

/// True when the form set allows hexadecimal entities.
pub open spec fn spec_has_hex(et: EncodeType) -> bool {
    match et {
        EncodeType::Hex => true,
        EncodeType::NamedOrHex => true,
        _ => false,
    }
}

/// True when the form set allows decimal entities.
pub open spec fn spec_has_decimal(et: EncodeType) -> bool {
    match et {
        EncodeType::Decimal => true,
        EncodeType::NamedOrDecimal => true,
        _ => false,
    }
}

impl EncodeType {
    /// Whether named entities are allowed.
    pub fn has_named(&self) -> (r: bool)
        ensures
            r == spec_has_named(*self),
    {
        match self {
            EncodeType::Named => true,
            EncodeType::NamedOrHex => true,
            EncodeType::NamedOrDecimal => true,
            _ => false,
        }
    }

    /// Whether hexadecimal entities are allowed.
    pub fn has_hex(&self) -> (r: bool)
        ensures
            r == spec_has_hex(*self),
    {
        match self {
            EncodeType::Hex => true,
            EncodeType::NamedOrHex => true,
            _ => false,
        }
    }

    /// Whether decimal entities are allowed.
    pub fn has_decimal(&self) -> (r: bool)
        ensures
            r == spec_has_decimal(*self),
    {
        match self {
            EncodeType::Decimal => true,
            EncodeType::NamedOrDecimal => true,
            _ => false,
        }
    }
}

/// True for the three markup characters `<`, `>`, `&`.
pub open spec fn in_html_set(c: char) -> bool {
    c == '<' || c == '>' || c == '&'
}

/// True for the five special characters `<`, `>`, `&`, `'`, `"`.
pub open spec fn in_special_set(c: char) -> bool {
    in_html_set(c) || c == '\'' || c == '"'
}

/// The ready-made named payload for a special character.
pub open spec fn named_payload(c: char) -> Seq<u8> {
    if c == '<' {
        seq![0x6cu8, 0x74u8]
    } else if c == '>' {
        seq![0x67u8, 0x74u8]
    } else if c == '&' {
        seq![0x61u8, 0x6du8, 0x70u8]
    } else if c == '\'' {
        seq![0x61u8, 0x70u8, 0x6fu8, 0x73u8]
    } else if c == '"' {
        seq![0x71u8, 0x75u8, 0x6fu8, 0x74u8]
    } else {
        seq![]
    }
}

/// The character set that selects which code points are encoded.
#[derive(Clone, Copy, PartialEq, Eq, Structural, Debug)]
pub enum CharacterSet {
    /// Every code point.
    All,
    /// Code points above `0xFF`.
    NonASCII,
    /// `<`, `>`, `&`.
    Html,
    /// `<`, `>`, `&`, `'`, `"`.
    SpecialChars,
    /// The union of `Html` and `NonASCII`.
    HtmlAndNonASCII,
    /// The union of `SpecialChars` and `NonASCII`.
    SpecialCharsAndNonASCII,
}

impl Default for CharacterSet {
    /// The default character set: the three markup characters.
    fn default() -> (r: Self)
        ensures
            r == CharacterSet::Html,
    {
        CharacterSet::Html
    }
}

/// Whether a code point belongs to the character set.
pub open spec fn spec_contains(cs: CharacterSet, c: char) -> bool {
    match cs {
        CharacterSet::All => true,
        CharacterSet::NonASCII => c as u32 > 0xFF,
        CharacterSet::Html => in_html_set(c),
        CharacterSet::SpecialChars => in_special_set(c),
        CharacterSet::HtmlAndNonASCII => c as u32 > 0xFF || in_html_set(c),
        CharacterSet::SpecialCharsAndNonASCII => c as u32 > 0xFF || in_special_set(c),
    }
}

/// The decision a character set takes for one code point: whether to
/// encode it, and a ready-made named replacement where the set knows
/// one and the form set allows names.
pub open spec fn spec_filter(cs: CharacterSet, c: char, et: EncodeType) -> (
    bool,
    Option<(EntityType, Seq<u8>)>,
) {
    match cs {
        CharacterSet::All => (true, None),
        CharacterSet::NonASCII => (c as u32 > 0xFF, None),
        CharacterSet::Html => if in_html_set(c) {
            (
                true,
                if spec_has_named(et) {
                    Some((EntityType::Named, named_payload(c)))
                } else {
                    None
                },
            )
        } else {
            (false, None)
        },
        CharacterSet::SpecialChars => if in_special_set(c) {
            (
                true,
                if spec_has_named(et) {
                    Some((EntityType::Named, named_payload(c)))
                } else {
                    None
                },
            )
        } else {
            (false, None)
        },
        CharacterSet::HtmlAndNonASCII => if c as u32 > 0xFF {
            (true, None)
        } else if in_html_set(c) {
            (
                true,
                if spec_has_named(et) {
                    Some((EntityType::Named, named_payload(c)))
                } else {
                    None
                },
            )
        } else {
            (false, None)
        },
        CharacterSet::SpecialCharsAndNonASCII => if c as u32 > 0xFF {
            (true, None)
        } else if in_special_set(c) {
            (
                true,
                if spec_has_named(et) {
                    Some((EntityType::Named, named_payload(c)))
                } else {
                    None
                },
            )
        } else {
            (false, None)
        },
    }
}

/// Builds the two-to-four byte payload of a ready-made named
/// replacement.
fn named_payload_exec(c: char) -> (v: Vec<u8>)
    requires
        in_special_set(c),
    ensures
        v@ == named_payload(c),
{
    let mut v: Vec<u8> = Vec::new();
    if c == '<' {
        v.push(0x6c);
        v.push(0x74);
    } else if c == '>' {
        v.push(0x67);
        v.push(0x74);
    } else if c == '&' {
        v.push(0x61);
        v.push(0x6d);
        v.push(0x70);
    } else if c == '\'' {
        v.push(0x61);
        v.push(0x70);
        v.push(0x6f);
        v.push(0x73);
    } else {
        v.push(0x71);
        v.push(0x75);
        v.push(0x6f);
        v.push(0x74);
    }
    proof {
        assert(v@ =~= named_payload(c));
    }
    v
}

impl CharacterSet {
    /// Whether the character belongs to the set.
    pub fn contains(&self, ch: &char) -> (r: bool)
        ensures
            r == spec_contains(*self, *ch),
    {
        let c = *ch;
        match self {
            CharacterSet::All => true,
            CharacterSet::NonASCII => (c as u32) > 0xFF,
            CharacterSet::Html => c == '<' || c == '>' || c == '&',
            CharacterSet::SpecialChars => c == '<' || c == '>' || c == '&' || c == '\'' || c
                == '"',
            CharacterSet::HtmlAndNonASCII => (c as u32) > 0xFF || c == '<' || c == '>' || c == '&',
            CharacterSet::SpecialCharsAndNonASCII => (c as u32) > 0xFF || c == '<' || c == '>' || c
                == '&' || c == '\'' || c == '"',
        }
    }

    /// Decides whether the character is encoded under this set, handing
    /// back a ready-made named replacement where one is known and the
    /// form set allows names.
    pub fn filter(&self, ch: &char, encode_type: &EncodeType) -> (r: (
        bool,
        Option<(EntityType, Vec<u8>)>,
    ))
        ensures
            r.0 == spec_filter(*self, *ch, *encode_type).0,
            decision_view(r) == spec_filter(*self, *ch, *encode_type),
    {
        let c = *ch;
        let in_set = self.contains(ch);
        let named: bool = match self {
            CharacterSet::All => false,
            CharacterSet::NonASCII => false,
            CharacterSet::Html => in_set,
            CharacterSet::SpecialChars => in_set,
            CharacterSet::HtmlAndNonASCII => (c as u32) <= 0xFF && in_set,
            CharacterSet::SpecialCharsAndNonASCII => (c as u32) <= 0xFF && in_set,
        };
        if in_set {
            if named && encode_type.has_named() {
                (true, Some((EntityType::Named, named_payload_exec(c))))
            } else {
                (true, None)
            }
        } else {
            (false, None)
        }
    }
}

/// The ghost image of a policy decision: the payload vector replaced by
/// its byte sequence.
pub open spec fn decision_view(d: (bool, Option<(EntityType, Vec<u8>)>)) -> (
    bool,
    Option<(EntityType, Seq<u8>)>,
) {
    (
        d.0,
        match d.1 {
            Some(p) => Some((p.0, p.1@)),
            None => None,
        },
    )
}

/// The entity the formatter produces for one code point: the preferred
/// table name when names are allowed and the table knows the code
/// point, else its lowercase hexadecimal or decimal payload, in that
/// order of preference; nothing when no allowed form applies.
pub open spec fn spec_encode_char(c: char, et: EncodeType) -> Option<(EntityType, Seq<u8>)> {
    if spec_has_named(et) && spec_code_to_name(c as u32) is Some {
        Some((EntityType::Named, spec_code_to_name(c as u32).unwrap()))
    } else if spec_has_hex(et) {
        Some((EntityType::Hex, hex_digits_of(c as u32 as int)))
    } else if spec_has_decimal(et) {
        Some((EntityType::Decimal, dec_digits_of(c as u32 as int)))
    } else {
        None
    }
}

/// Formats one code point against a prebuilt code table.
fn encode_char_with(table: &Vec<(Vec<u8>, u32)>, ch: &char, encode_type: &EncodeType) -> (r:
    Option<CharEntity>)
    requires
        is_code_table(table@),
    ensures
        match r {
            Some(e) => spec_encode_char(*ch, *encode_type) == Some((e.form(), e.payload())),
            None => spec_encode_char(*ch, *encode_type) is None,
        },
{
    let code = (*ch) as u32;
    if encode_type.has_named() {
        match code_to_name(table, code) {
            Some(name) => {
                return Some(CharEntity::new(EntityType::Named, name));
            },
            None => {},
        }
    }
    if encode_type.has_hex() {
        return Some(CharEntity::new(EntityType::Hex, u32_to_hex_bytes(code)));
    }
    if encode_type.has_decimal() {
        return Some(CharEntity::new(EntityType::Decimal, u32_to_dec_bytes(code)));
    }
    None
}

/// Encodes one character into an entity of the first available form,
/// or nothing when no allowed form applies to it.
pub fn encode_char(ch: &char, encode_type: &EncodeType) -> (r: Option<CharEntity>)
    ensures
        match r {
            Some(e) => spec_encode_char(*ch, *encode_type) == Some((e.form(), e.payload())),
            None => spec_encode_char(*ch, *encode_type) is None,
        },
{
    let table = build_by_code_table();
    encode_char_with(&table, ch, encode_type)
}

/// What one walk item contributes to the substitution list, given the
/// policy decision for it: a malformed run contributes nothing; an
/// encoded code point contributes its range with the decided payload
/// or, failing that, the formatter's entity.
pub open spec fn decided_one(
    item: Utf8Item,
    et: EncodeType,
    d: (bool, Option<(EntityType, Seq<u8>)>),
) -> Seq<(CodeRange, (EntityType, Seq<u8>))> {
    match item {
        Utf8Item::Bad { .. } => seq![],
        Utf8Item::Ch { c, start, end } => {
            if d.0 {
                match d.1 {
                    Some(p) => seq![
                        (CodeRange { start: start as usize, end: end as usize }, p),
                    ],
                    None => match spec_encode_char(c, et) {
                        Some(p) => seq![
                            (CodeRange { start: start as usize, end: end as usize }, p),
                        ],
                        None => seq![],
                    },
                }
            } else {
                seq![]
            }
        },
    }
}

/// The substitution list of an encode walk, one decision per item.
pub open spec fn spec_encode_subs_decided(
    items: Seq<Utf8Item>,
    et: EncodeType,
    ds: Seq<(bool, Option<(EntityType, Seq<u8>)>)>,
) -> Seq<(CodeRange, (EntityType, Seq<u8>))>
    decreases items.len(),
{
    if items.len() == 0 || items.len() != ds.len() {
        seq![]
    } else {
        decided_one(items[0], et, ds[0]) + spec_encode_subs_decided(
            items.drop_first(),
            et,
            ds.drop_first(),
        )
    }
}

/// Appending one item and its decision appends that item's
/// contribution to the substitution list.
pub proof fn lemma_encode_decided_push(
    items: Seq<Utf8Item>,
    et: EncodeType,
    ds: Seq<(bool, Option<(EntityType, Seq<u8>)>)>,
    item: Utf8Item,
    d: (bool, Option<(EntityType, Seq<u8>)>),
)
    requires
        items.len() == ds.len(),
    ensures
        spec_encode_subs_decided(items.push(item), et, ds.push(d)) == spec_encode_subs_decided(
            items,
            et,
            ds,
        ) + decided_one(item, et, d),
    decreases items.len(),
{
    if items.len() == 0 {
        assert(items.push(item).drop_first() =~= Seq::<Utf8Item>::empty());
        assert(ds.push(d).drop_first() =~= Seq::<(bool, Option<(EntityType, Seq<u8>)>)>::empty());
        assert(items.push(item)[0] == item);
        assert(ds.push(d)[0] == d);
        assert(spec_encode_subs_decided(
            Seq::<Utf8Item>::empty(),
            et,
            Seq::<(bool, Option<(EntityType, Seq<u8>)>)>::empty(),
        ) =~= Seq::<(CodeRange, (EntityType, Seq<u8>))>::empty());
        assert(spec_encode_subs_decided(items.push(item), et, ds.push(d)) =~= decided_one(
            item,
            et,
            d,
        ));
        assert(spec_encode_subs_decided(items, et, ds) + decided_one(item, et, d) =~= decided_one(
            item,
            et,
            d,
        ));
    } else {
        lemma_encode_decided_push(items.drop_first(), et, ds.drop_first(), item, d);
        assert(items.push(item).drop_first() =~= items.drop_first().push(item));
        assert(ds.push(d).drop_first() =~= ds.drop_first().push(d));
        assert(items.push(item)[0] == items[0]);
        assert(ds.push(d)[0] == ds[0]);
        assert(spec_encode_subs_decided(items.push(item), et, ds.push(d)) == decided_one(
            items[0],
            et,
            ds[0],
        ) + spec_encode_subs_decided(items.drop_first().push(item), et, ds.drop_first().push(d)));
        assert(decided_one(items[0], et, ds[0]) + (spec_encode_subs_decided(
            items.drop_first(),
            et,
            ds.drop_first(),
        ) + decided_one(item, et, d)) =~= (decided_one(items[0], et, ds[0])
            + spec_encode_subs_decided(items.drop_first(), et, ds.drop_first())) + decided_one(
            item,
            et,
            d,
        ));
    }
}

/// Two decision runs that agree on every decoded code point yield the
/// same substitutions.
pub proof fn lemma_encode_decided_congruent(
    items: Seq<Utf8Item>,
    et: EncodeType,
    ds1: Seq<(bool, Option<(EntityType, Seq<u8>)>)>,
    ds2: Seq<(bool, Option<(EntityType, Seq<u8>)>)>,
)
    requires
        ds1.len() == items.len(),
        ds2.len() == items.len(),
        forall|k: int|
            0 <= k < items.len() && (#[trigger] items[k]) is Ch ==> ds1[k] == ds2[k],
    ensures
        spec_encode_subs_decided(items, et, ds1) == spec_encode_subs_decided(items, et, ds2),
    decreases items.len(),
{
    if items.len() > 0 {
        assert(forall|k: int|
            0 <= k < items.drop_first().len() && (#[trigger] items.drop_first()[k]) is Ch
                ==> ds1.drop_first()[k] == ds2.drop_first()[k]) by {
            assert(forall|k: int|
                0 <= k < items.drop_first().len() ==> #[trigger] items.drop_first()[k] == items[k
                    + 1]);
        }
        lemma_encode_decided_congruent(items.drop_first(), et, ds1.drop_first(), ds2.drop_first());
        assert(decided_one(items[0], et, ds1[0]) == decided_one(items[0], et, ds2[0]));
    }
}

/// The decisions a character set takes over a whole walk.
pub open spec fn charset_decisions(items: Seq<Utf8Item>, cs: CharacterSet, et: EncodeType) -> Seq<
    (bool, Option<(EntityType, Seq<u8>)>),
> {
    items.map_values(
        |it: Utf8Item|
            match it {
                Utf8Item::Ch { c, .. } => spec_filter(cs, c, et),
                Utf8Item::Bad { .. } => (false, None),
            },
    )
}

/// The substitutions of [`encode`]: one per code point that the
/// character set selects and the form set can encode.
pub open spec fn spec_encode_subs(s: Seq<u8>, et: EncodeType, cs: CharacterSet) -> Seq<
    (CodeRange, (EntityType, Seq<u8>)),
> {
    spec_encode_subs_decided(utf8_items(s, 0), et, charset_decisions(utf8_items(s, 0), cs, et))
}

/// The substitutions of the walk from byte `i` on, under a character
/// set.
pub open spec fn spec_encode_subs_at(s: Seq<u8>, et: EncodeType, cs: CharacterSet, i: int) -> Seq<
    (CodeRange, (EntityType, Seq<u8>)),
> {
    spec_encode_subs_decided(utf8_items(s, i), et, charset_decisions(utf8_items(s, i), cs, et))
}

/// A non-empty decision run splits at its head.
pub proof fn lemma_encode_decided_cons(
    items: Seq<Utf8Item>,
    et: EncodeType,
    ds: Seq<(bool, Option<(EntityType, Seq<u8>)>)>,
)
    requires
        items.len() == ds.len(),
        items.len() > 0,
    ensures
        spec_encode_subs_decided(items, et, ds) == decided_one(items[0], et, ds[0])
            + spec_encode_subs_decided(items.drop_first(), et, ds.drop_first()),
{
}

/// On a valid UTF-8 suffix, every substitution of the walk from `i`
/// covers bytes between `i` and the end of the input.
#[verifier::rlimit(100)]
#[verifier::spinoff_prover]
pub proof fn lemma_encode_subs_at_shape(s: Seq<u8>, et: EncodeType, cs: CharacterSet, i: int)
    requires
        0 <= i <= s.len(),
        s.len() <= usize::MAX,
        vstd::utf8::valid_utf8(s.subrange(i, s.len() as int)),
    ensures
        forall|k: int|
            0 <= k < spec_encode_subs_at(s, et, cs, i).len() ==> {
                let r = (#[trigger] spec_encode_subs_at(s, et, cs, i)[k]).0;
                i <= r.start <= r.end < s.len()
            },
    decreases s.len() - i,
{
    let suffix = s.subrange(i, s.len() as int);
    if i == s.len() {
        assert(utf8_items(s, i) =~= Seq::<Utf8Item>::empty());
        assert(spec_encode_subs_at(s, et, cs, i) =~= Seq::<(
            CodeRange,
            (EntityType, Seq<u8>),
        )>::empty());
    } else {
        assert(suffix.len() > 0);
        crate::scan::lemma_utf8_items_valid_step(s, i);
        let w = vstd::utf8::length_of_first_scalar(suffix);
        let v = vstd::utf8::decode_first_scalar(suffix);
        let item = Utf8Item::Ch { c: v as char, start: i, end: i + w - 1 };
        let items = utf8_items(s, i);
        let rest_items = utf8_items(s, i + w);
        assert(items == seq![item] + rest_items);
        assert(items[0] == item);
        assert(items.drop_first() =~= rest_items);
        let ds = charset_decisions(items, cs, et);
        assert(ds.drop_first() =~= charset_decisions(rest_items, cs, et));
        lemma_encode_decided_cons(items, et, ds);
        assert(vstd::utf8::pop_first_scalar(suffix) =~= s.subrange(i + w, s.len() as int));
        lemma_encode_subs_at_shape(s, et, cs, i + w);
        let h = decided_one(item, et, ds[0]);
        let rest = spec_encode_subs_at(s, et, cs, i + w);
        assert(spec_encode_subs_at(s, et, cs, i) == h + rest);
        assert(h.len() <= 1);
        assert(h.len() == 1 ==> h[0].0.start == i && h[0].0.end == i + w - 1);
        assert forall|k: int| 0 <= k < spec_encode_subs_at(s, et, cs, i).len() implies {
            let r = (#[trigger] spec_encode_subs_at(s, et, cs, i)[k]).0;
            i <= r.start <= r.end < s.len()
        } by {
            if k < h.len() {
                assert(spec_encode_subs_at(s, et, cs, i)[k] == h[0]);
            } else {
                assert(spec_encode_subs_at(s, et, cs, i)[k] == rest[k - h.len()]);
                assert(i + w <= rest[k - h.len()].0.start <= rest[k - h.len()].0.end < s.len());
            }
        }
    }
}

/// The encoded logical byte stream under a character set.
pub open spec fn spec_encoded_bytes(s: Seq<u8>, et: EncodeType, cs: CharacterSet) -> Seq<u8> {
    splice_from(
        s,
        spec_encode_subs(s, et, cs).map_values(
            |e: (CodeRange, (EntityType, Seq<u8>))| (e.0, entity_bytes(e.1.0, e.1.1)),
        ),
        0,
    )
}

/// The result view of [`encode`]: the original input plus the entity
/// substitutions.
#[derive(Debug)]
pub struct EncodedData {
    inner_bytes: Vec<u8>,
    entities: Vec<(CodeRange, CharEntity)>,
}

impl EncodedData {
    /// The input bytes the view was encoded from.
    pub closed spec fn source(self) -> Seq<u8> {
        self.inner_bytes@
    }

    /// The recorded substitutions: range, entity form and payload.
    pub closed spec fn subs_view(self) -> Seq<(CodeRange, (EntityType, Seq<u8>))> {
        self.entities@.map_values(|e: (CodeRange, CharEntity)| (e.0, (e.1.form(), e.1.payload())))
    }

    /// The substitutions with their full entity bytes.
    pub closed spec fn byte_subs(self) -> Seq<(CodeRange, Seq<u8>)> {
        self.entities@.map_values(|e: (CodeRange, CharEntity)| (e.0, e.1.bytes_view()))
    }

    /// The substitutions with their entity text as characters.
    pub closed spec fn char_subs(self) -> Seq<(CodeRange, Seq<char>)> {
        self.entities@.map_values(
            |e: (CodeRange, CharEntity)| (e.0, bytes_as_chars(e.1.bytes_view())),
        )
    }

    /// The view is well formed: the substitution ranges are in bounds,
    /// strictly increasing and non-overlapping.
    pub closed spec fn wf(self) -> bool {
        ranges_wf(sub_ranges(self.byte_subs()), 0, self.inner_bytes@.len() as int)
    }

    /// Number of encoded entities.
    pub fn entity_count(&self) -> (n: usize)
        ensures
            n == self.subs_view().len(),
    {
        self.entities.len()
    }

    /// Detaches the view from its substitution list: the logical bytes
    /// are materialized into the view and the substitutions cleared.
    pub fn to_owned(&mut self)
        requires
            old(self).wf(),
        ensures
            final(self).wf(),
            final(self).logical_bytes() == old(self).logical_bytes(),
            final(self).subs_view().len() == 0,
    {
        if !self.entities.is_empty() {
            let bytes = encoded_splice(&self.inner_bytes, &self.entities);
            self.inner_bytes = bytes;
            self.entities.clear();
            proof {
                assert(self.byte_subs() =~= Seq::<(CodeRange, Seq<u8>)>::empty());
                crate::splice::lemma_splice_empty(self.inner_bytes@);
            }
        } else {
            proof {
                assert(self.byte_subs() =~= Seq::<(CodeRange, Seq<u8>)>::empty());
                crate::splice::lemma_splice_empty(self.inner_bytes@);
                assert(old(self).byte_subs() =~= Seq::<(CodeRange, Seq<u8>)>::empty());
                crate::splice::lemma_splice_empty(old(self).inner_bytes@);
            }
        }
    }

    /// The logical bytes, consuming the view.
    pub fn into_bytes(self) -> (r: Vec<u8>)
        requires
            self.wf(),
        ensures
            r@ == self.logical_bytes(),
    {
        if self.entities.is_empty() {
            proof {
                assert(self.byte_subs() =~= Seq::<(CodeRange, Seq<u8>)>::empty());
                crate::splice::lemma_splice_empty(self.inner_bytes@);
            }
            return self.inner_bytes;
        }
        encoded_splice(&self.inner_bytes, &self.entities)
    }

    /// The logical bytes, as a fresh vector.
    pub fn bytes(&self) -> (r: Vec<u8>)
        requires
            self.wf(),
        ensures
            r@ == self.logical_bytes(),
    {
        encoded_splice(&self.inner_bytes, &self.entities)
    }
}

impl IBytesTrait for EncodedData {
    closed spec fn inv(&self) -> bool {
        self.wf()
    }

    closed spec fn logical_bytes(&self) -> Seq<u8> {
        splice_from(self.inner_bytes@, self.byte_subs(), 0)
    }

    fn bytes_len(&self) -> (n: usize) {
        let bytes = encoded_splice(&self.inner_bytes, &self.entities);
        bytes.len()
    }

    fn byte(&self, index: usize) -> (r: Option<u8>) {
        encoded_byte_at(&self.inner_bytes, &self.entities, index)
    }
}

impl ICodedDataTrait for EncodedData {
    closed spec fn logical_chars(&self) -> Option<Seq<char>> {
        chars_splice_from(self.inner_bytes@, self.char_subs(), 0)
    }

    fn to_string(&self) -> (r: Result<String, HtmlEntityError>) {
        crate::views::bytes_to_string(self.to_bytes())
    }

    fn to_bytes(&self) -> (r: Vec<u8>) {
        encoded_splice(&self.inner_bytes, &self.entities)
    }

    fn to_chars(&self) -> (r: Result<Vec<char>, HtmlEntityError>) {
        let ghost src = self.inner_bytes@;
        let ghost subs = self.char_subs();
        let src_len = self.inner_bytes.len();
        let mut out: Vec<char> = Vec::new();
        let n = self.entities.len();
        let mut k: usize = 0;
        let mut from: usize = 0;
        proof {
            assert(subs.skip(0) =~= subs);
        }
        while k < n
            invariant
                self.wf(),
                src == self.inner_bytes@,
                subs == self.char_subs(),
                src.len() <= usize::MAX,
                0 <= k <= n,
                n == self.entities@.len(),
                k < n ==> from <= self.entities@[k as int].0.start,
                from <= src.len(),
                match chars_splice_from(src, subs.skip(k as int), from as int) {
                    Some(tail) => chars_splice_from(src, subs, 0) == Some(out@ + tail),
                    None => chars_splice_from(src, subs, 0) is None,
                },
            decreases n - k,
        {
            proof {
                assert(subs[k as int] == (self.entities@[k as int].0, bytes_as_chars(
                    self.entities@[k as int].1.bytes_view(),
                )));
                assert(sub_ranges(self.byte_subs())[k as int] == self.byte_subs()[k as int].0);
                assert(self.byte_subs()[k as int] == (self.entities@[k as int].0,
                    self.entities@[k as int].1.bytes_view()));
                if k + 1 < n {
                    assert(sub_ranges(self.byte_subs())[k as int + 1] == self.byte_subs()[k as int
                        + 1].0);
                    assert(self.byte_subs()[k as int + 1] == (self.entities@[k as int + 1].0,
                        self.entities@[k as int + 1].1.bytes_view()));
                }
                assert(subs.skip(k as int)[0] == subs[k as int]);
                assert(subs.skip(k as int).drop_first() =~= subs.skip(k as int + 1));
                assert(self.entities@[k as int].0.end < src.len());
            }
            let ghost out0 = out@;
            let e = &self.entities[k];
            let seg = &self.inner_bytes.as_slice()[from..e.0.start];
            let ok = crate::views::bytes_to_chars(seg, &mut out);
            proof {
                assert(seg@ == src.subrange(from as int, e.0.start as int));
            }
            if !ok {
                proof {
                    assert(crate::scan::segment_chars(src.subrange(from as int, e.0.start as int))
                        is None);
                    assert(chars_splice_from(src, subs.skip(k as int), from as int) is None);
                }
                return Err(
                    HtmlEntityError::Encode(
                        <String as vstd::string::StringExecFns>::from_str(
                            "the bytes between substitutions are not decodable",
                        ),
                    ),
                );
            }
            e.1.write_chars(&mut out);
            proof {
                let seg_chars = crate::scan::chars_of_good(
                    crate::scan::utf8_items(src.subrange(from as int, e.0.start as int), 0),
                );
                assert(crate::scan::segment_chars(src.subrange(from as int, e.0.start as int))
                    == Some(seg_chars));
                assert(out@ =~= out0 + seg_chars + bytes_as_chars(e.1.bytes_view()));
                if chars_splice_from(src, subs.skip(k as int + 1), e.0.end + 1) is Some {
                    let tail2 = chars_splice_from(
                        src,
                        subs.skip(k as int + 1),
                        e.0.end + 1,
                    ).unwrap();
                    assert(chars_splice_from(src, subs.skip(k as int), from as int) == Some(
                        seg_chars + bytes_as_chars(e.1.bytes_view()) + tail2,
                    ));
                    assert(out0 + (seg_chars + bytes_as_chars(e.1.bytes_view()) + tail2) =~= out@
                        + tail2);
                } else {
                    assert(chars_splice_from(src, subs.skip(k as int), from as int) is None);
                }
            }
            from = e.0.end + 1;
            k = k + 1;
        }
        let ghost out0 = out@;
        let tail = &self.inner_bytes.as_slice()[from..src_len];
        let ok = crate::views::bytes_to_chars(tail, &mut out);
        proof {
            assert(subs.skip(n as int) =~= Seq::<(CodeRange, Seq<char>)>::empty());
            assert(tail@ == src.subrange(from as int, src.len() as int));
        }
        if !ok {
            return Err(
                HtmlEntityError::Encode(
                    <String as vstd::string::StringExecFns>::from_str(
                        "the bytes after the last substitution are not decodable",
                    ),
                ),
            );
        }
        proof {
            let seg_chars = crate::scan::chars_of_good(
                crate::scan::utf8_items(src.subrange(from as int, src.len() as int), 0),
            );
            assert(chars_splice_from(src, subs.skip(n as int), from as int) == Some(seg_chars));
            assert(out@ =~= out0 + seg_chars);
        }
        Ok(out)
    }
}

/// Random access into an encoded view without materializing it: walks
/// the substitution list, counting logical positions.
#[verifier::rlimit(100)]
#[verifier::spinoff_prover]
fn encoded_byte_at(src: &Vec<u8>, entities: &Vec<(CodeRange, CharEntity)>, index: usize) -> (r:
    Option<u8>)
    requires
        ranges_wf(
            sub_ranges(
                entities@.map_values(|e: (CodeRange, CharEntity)| (e.0, e.1.bytes_view())),
            ),
            0,
            src@.len() as int,
        ),
    ensures
        ({
            let logical = splice_from(
                src@,
                entities@.map_values(|e: (CodeRange, CharEntity)| (e.0, e.1.bytes_view())),
                0,
            );
            &&& index < logical.len() ==> r == Some(logical[index as int])
            &&& index >= logical.len() ==> r is None
        }),
{
    let ghost subs = entities@.map_values(|e: (CodeRange, CharEntity)| (e.0, e.1.bytes_view()));
    let ghost logical = splice_from(src@, subs, 0);
    let src_len = src.len();
    let n = entities.len();
    let mut k: usize = 0;
    let mut from: usize = 0;
    let mut rem: usize = index;
    proof {
        assert(subs.skip(0) =~= subs);
    }
    while k < n
        invariant
            subs == entities@.map_values(|e: (CodeRange, CharEntity)| (e.0, e.1.bytes_view())),
            logical == splice_from(src@, subs, 0),
            ranges_wf(sub_ranges(subs), 0, src@.len() as int),
            src@.len() <= usize::MAX,
            0 <= k <= n,
            n == entities@.len(),
            k < n ==> from <= entities@[k as int].0.start,
            from <= src@.len(),
            rem <= index,
            logical.len() - index == splice_from(src@, subs.skip(k as int), from as int).len()
                - rem,
            rem < splice_from(src@, subs.skip(k as int), from as int).len() ==> logical[
                index as int
            ] == splice_from(src@, subs.skip(k as int), from as int)[rem as int],
        decreases n - k,
    {
        proof {
            assert(sub_ranges(subs)[k as int] == subs[k as int].0);
            assert(subs[k as int] == (entities@[k as int].0, entities@[k as int].1.bytes_view()));
            if k + 1 < n {
                assert(sub_ranges(subs)[k as int + 1] == subs[k as int + 1].0);
                assert(subs[k as int + 1] == (
                    entities@[k as int + 1].0,
                    entities@[k as int + 1].1.bytes_view(),
                ));
            }
            assert(subs.skip(k as int)[0] == subs[k as int]);
            assert(subs.skip(k as int).drop_first() =~= subs.skip(k as int + 1));
            assert(entities@[k as int].0.end < src@.len());
        }
        let e = &entities[k];
        let ghost cur = splice_from(src@, subs.skip(k as int), from as int);
        proof {
            assert(cur == src@.subrange(from as int, e.0.start as int)
                + entities@[k as int].1.bytes_view() + splice_from(
                src@,
                subs.skip(k as int + 1),
                e.0.end + 1,
            ));
        }
        let gap = e.0.start - from;
        if rem < gap {
            proof {
                assert(cur[rem as int] == src@.subrange(from as int, e.0.start as int)[
                    rem as int
                ]);
                assert(index < logical.len());
            }
            return Some(src[from + rem]);
        }
        let repl_len = e.1.bytes_len();
        if rem - gap < repl_len {
            proof {
                assert(cur[rem as int] == entities@[k as int].1.bytes_view()[rem - gap]);
                assert(index < logical.len());
            }
            return e.1.byte(rem - gap);
        }
        proof {
            let rem2 = rem - gap - repl_len;
            let tail = splice_from(src@, subs.skip(k as int + 1), e.0.end + 1);
            assert(cur.len() == gap + repl_len + tail.len());
            if rem2 < tail.len() {
                assert(cur[rem as int] == tail[rem2 as int]);
            }
        }
        rem = rem - gap - repl_len;
        from = e.0.end + 1;
        k = k + 1;
    }
    proof {
        assert(subs.skip(n as int) =~= Seq::<(CodeRange, Seq<u8>)>::empty());
        assert(splice_from(src@, subs.skip(n as int), from as int) == src@.subrange(
            from as int,
            src@.len() as int,
        ));
    }
    if rem < src_len - from {
        proof {
            assert(src@.subrange(from as int, src@.len() as int)[rem as int] == src@[from
                + rem]);
            assert(index < logical.len());
        }
        Some(src[from + rem])
    } else {
        proof {
            assert(index >= logical.len());
        }
        None
    }
}

/// Materializes an encoded view: input bytes with each substitution
/// range replaced by its full entity bytes.
#[verifier::rlimit(50)]
fn encoded_splice(src: &Vec<u8>, entities: &Vec<(CodeRange, CharEntity)>) -> (out: Vec<u8>)
    requires
        ranges_wf(
            sub_ranges(
                entities@.map_values(|e: (CodeRange, CharEntity)| (e.0, e.1.bytes_view())),
            ),
            0,
            src@.len() as int,
        ),
    ensures
        out@ == splice_from(
            src@,
            entities@.map_values(|e: (CodeRange, CharEntity)| (e.0, e.1.bytes_view())),
            0,
        ),
{
    let ghost subs = entities@.map_values(|e: (CodeRange, CharEntity)| (e.0, e.1.bytes_view()));
    let src_len = src.len();
    let mut out: Vec<u8> = Vec::new();
    let n = entities.len();
    let mut k: usize = 0;
    let mut from: usize = 0;
    proof {
        assert(subs.skip(0) =~= subs);
    }
    while k < n
        invariant
            subs == entities@.map_values(|e: (CodeRange, CharEntity)| (e.0, e.1.bytes_view())),
            ranges_wf(sub_ranges(subs), 0, src@.len() as int),
            src@.len() <= usize::MAX,
            0 <= k <= n,
            n == entities@.len(),
            k < n ==> from <= entities@[k as int].0.start,
            from <= src@.len(),
            out@ + splice_from(src@, subs.skip(k as int), from as int) == splice_from(
                src@,
                subs,
                0,
            ),
        decreases n - k,
    {
        proof {
            assert(sub_ranges(subs)[k as int] == subs[k as int].0);
            assert(subs[k as int] == (entities@[k as int].0, entities@[k as int].1.bytes_view()));
            if k + 1 < n {
                assert(sub_ranges(subs)[k as int + 1] == subs[k as int + 1].0);
                assert(subs[k as int + 1] == (
                    entities@[k as int + 1].0,
                    entities@[k as int + 1].1.bytes_view(),
                ));
            }
        }
        let ghost out0 = out@;
        let e = &entities[k];
        out.extend_from_slice(&src.as_slice()[from..e.0.start]);
        e.1.write_bytes(&mut out);
        proof {
            assert(entities@[k as int].0.end < src@.len());
            assert(subs.skip(k as int)[0] == subs[k as int]);
            assert(subs.skip(k as int).drop_first() =~= subs.skip(k as int + 1));
            assert(splice_from(src@, subs.skip(k as int), from as int) == src@.subrange(
                from as int,
                e.0.start as int,
            ) + entities@[k as int].1.bytes_view() + splice_from(
                src@,
                subs.skip(k as int + 1),
                e.0.end + 1,
            ));
            assert(out@ =~= out0 + src@.subrange(from as int, e.0.start as int)
                + entities@[k as int].1.bytes_view());
            assert(out@ + splice_from(src@, subs.skip(k as int + 1), e.0.end + 1) =~= out0
                + splice_from(src@, subs.skip(k as int), from as int));
        }
        from = e.0.end + 1;
        k = k + 1;
    }
    let ghost out0 = out@;
    out.extend_from_slice(&src.as_slice()[from..src_len]);
    proof {
        assert(subs.skip(n as int) =~= Seq::<(CodeRange, Seq<u8>)>::empty());
        assert(splice_from(src@, subs.skip(n as int), from as int) == src@.subrange(
            from as int,
            src@.len() as int,
        ));
        assert(out@ =~= out0 + src@.subrange(from as int, src@.len() as int));
    }
    out
}

/// Encodes the code points the filter selects, producing a zero-copy
/// view. For every decoded code point the filter decided on it; a
/// decision without a ready-made payload falls back to the formatter,
/// and malformed bytes always pass through.
pub fn encode_with<'a, F: Fn(&char, &EncodeType) -> (bool, Option<(EntityType, Vec<u8>)>)>(
    content: &'a [u8],
    encode_type: &EncodeType,
    filter_fn: F,
) -> (r: EncodedData)
    requires
        forall|a: &char, b: &EncodeType| #[trigger] call_requires(filter_fn, (a, b)),
    ensures
        r.wf(),
        r.inv(),
        r.source() == content@,
        exists|ds: Seq<(bool, Option<(EntityType, Seq<u8>)>)>|
            {
                &&& ds.len() == utf8_items(content@, 0).len()
                &&& (forall|k: int|
                    0 <= k < ds.len() && (#[trigger] utf8_items(content@, 0)[k]) is Ch ==> exists|
                        out: (bool, Option<(EntityType, Vec<u8>)>),
                    |
                        call_ensures(
                            filter_fn,
                            (&utf8_items(content@, 0)[k]->Ch_c, encode_type),
                            out,
                        ) && ds[k] == decision_view(out))
                &&& r.subs_view() == #[trigger] spec_encode_subs_decided(
                    utf8_items(content@, 0),
                    *encode_type,
                    ds,
                )
            },
{
    let table = build_by_code_table();
    let ghost whole = utf8_items(content@, 0);
    let ghost mut consumed: Seq<Utf8Item> = Seq::empty();
    let ghost mut ds: Seq<(bool, Option<(EntityType, Seq<u8>)>)> = Seq::empty();
    let n = content.len();
    let mut entities: Vec<(CodeRange, CharEntity)> = Vec::new();
    let mut i: usize = 0;
    proof {
        assert(consumed + utf8_items(content@, 0) =~= utf8_items(content@, 0));
    }
    while i < n
        invariant
            forall|a: &char, b: &EncodeType| #[trigger] call_requires(filter_fn, (a, b)),
            is_code_table(table@),
            0 <= i <= n,
            n == content@.len(),
            whole == utf8_items(content@, 0),
            whole == consumed + utf8_items(content@, i as int),
            ds.len() == consumed.len(),
            forall|k: int|
                0 <= k < consumed.len() && (#[trigger] consumed[k]) is Ch ==> exists|
                    out: (bool, Option<(EntityType, Vec<u8>)>),
                |
                    call_ensures(filter_fn, (&consumed[k]->Ch_c, encode_type), out) && ds[k]
                        == decision_view(out),
            entities@.map_values(|e: (CodeRange, CharEntity)| (e.0, (e.1.form(), e.1.payload())))
                == spec_encode_subs_decided(consumed, *encode_type, ds),
            forall|k: int|
                0 <= k < entities@.len() ==> (#[trigger] entities@[k]).0.start
                    <= entities@[k].0.end < i,
            forall|k: int|
                0 <= k < entities@.len() - 1 ==> (#[trigger] entities@[k]).0.end < entities@[k
                    + 1].0.start,
        decreases n - i,
    {
        let (sc, next) = scan_next(content, i);
        match sc {
            Scanned::Char { c, start, end } => {
                let ghost item = Utf8Item::Ch { c, start: start as int, end: end as int };
                let verdict = filter_fn(&c, encode_type);
                let ghost d = decision_view(verdict);
                if verdict.0 {
                    match verdict.1 {
                        Some(ready) => {
                            entities.push(
                                (CodeRange { start, end }, CharEntity::new(ready.0, ready.1)),
                            );
                        },
                        None => {
                            match encode_char_with(&table, &c, encode_type) {
                                Some(ent) => {
                                    entities.push((CodeRange { start, end }, ent));
                                },
                                None => {},
                            }
                        },
                    }
                }
                proof {
                    lemma_encode_decided_push(consumed, *encode_type, ds, item, d);
                    assert(entities@.map_values(
                        |e: (CodeRange, CharEntity)| (e.0, (e.1.form(), e.1.payload())),
                    ) =~= spec_encode_subs_decided(consumed, *encode_type, ds) + decided_one(
                        item,
                        *encode_type,
                        d,
                    ));
                    consumed = consumed.push(item);
                    ds = ds.push(d);
                    assert(whole =~= consumed + utf8_items(content@, next as int));
                }
                i = next;
            },
            Scanned::Malformed { start, end } => {
                let ghost item = Utf8Item::Bad { start: start as int, end: end as int };
                proof {
                    lemma_encode_decided_push(
                        consumed,
                        *encode_type,
                        ds,
                        item,
                        (false, None),
                    );
                    assert(decided_one(item, *encode_type, (false, None)) =~= Seq::<(
                        CodeRange,
                        (EntityType, Seq<u8>),
                    )>::empty());
                    assert(spec_encode_subs_decided(consumed, *encode_type, ds) + Seq::<(
                        CodeRange,
                        (EntityType, Seq<u8>),
                    )>::empty() =~= spec_encode_subs_decided(consumed, *encode_type, ds));
                    consumed = consumed.push(item);
                    ds = ds.push((false, None));
                    assert(whole =~= consumed + utf8_items(content@, next as int));
                }
                i = next;
            },
            Scanned::Truncated => {
                proof {
                    assert(whole =~= consumed);
                }
                i = next;
            },
        }
    }
    let r = EncodedData { inner_bytes: vstd::slice::slice_to_vec(content), entities };
    proof {
        assert(utf8_items(content@, n as int) =~= Seq::<Utf8Item>::empty());
        assert(whole =~= consumed);
        assert(r.subs_view() == spec_encode_subs_decided(whole, *encode_type, ds));
    }
    r
}

/// Encodes the code points of the character set into entities of the
/// allowed forms, producing a zero-copy view.
pub fn encode<'a>(content: &'a [u8], encode_type: &EncodeType, charset: &CharacterSet) -> (r:
    EncodedData)
    ensures
        r.wf(),
        r.inv(),
        r.source() == content@,
        r.subs_view() == spec_encode_subs(content@, *encode_type, *charset),
{
    let cs = *charset;
    let filter_fn = |ch: &char, et: &EncodeType| -> (verdict: (
        bool,
        Option<(EntityType, Vec<u8>)>,
    ))
        ensures
            decision_view(verdict) == spec_filter(cs, *ch, *et),
        { cs.filter(ch, et) };
    let r = encode_with(content, encode_type, filter_fn);
    proof {
        let items = utf8_items(content@, 0);
        let ds = choose|ds: Seq<(bool, Option<(EntityType, Seq<u8>)>)>|
            {
                &&& ds.len() == items.len()
                &&& (forall|k: int|
                    0 <= k < ds.len() && (#[trigger] items[k]) is Ch ==> exists|
                        out: (bool, Option<(EntityType, Vec<u8>)>),
                    |
                        call_ensures(filter_fn, (&items[k]->Ch_c, encode_type), out) && ds[k]
                            == decision_view(out))
                &&& r.subs_view() == #[trigger] spec_encode_subs_decided(
                    items,
                    *encode_type,
                    ds,
                )
            };
        let cds = charset_decisions(items, cs, *encode_type);
        assert forall|k: int| 0 <= k < items.len() && (#[trigger] items[k]) is Ch implies ds[k]
            == cds[k] by {
            let out = choose|out: (bool, Option<(EntityType, Vec<u8>)>)|
                call_ensures(filter_fn, (&items[k]->Ch_c, encode_type), out) && ds[k]
                    == decision_view(out);
            assert(decision_view(out) == spec_filter(cs, items[k]->Ch_c, *encode_type));
            assert(cds[k] == spec_filter(cs, items[k]->Ch_c, *encode_type));
        }
        lemma_encode_decided_congruent(items, *encode_type, ds, cds);
    }
    r
}

/// Like [`encode`], but writes the encoded logical bytes directly onto
/// the end of `data`.
pub fn encode_to(content: &[u8], encode_type: &EncodeType, charset: &CharacterSet, data: &mut Vec<
    u8,
>)
    ensures
        final(data)@ == old(data)@ + spec_encoded_bytes(content@, *encode_type, *charset),
{
    let encoded = encode(content, encode_type, charset);
    let mut bytes = encoded.into_bytes();
    proof {
        assert(encoded.byte_subs() =~= spec_encode_subs(content@, *encode_type, *charset)
            .map_values(
            |e: (CodeRange, (EntityType, Seq<u8>))| (e.0, entity_bytes(e.1.0, e.1.1)),
        ));
    }
    data.append(&mut bytes);
}

/// Like [`encode_with`], but writes the encoded logical bytes directly
/// onto the end of `data`.
pub fn encode_with_to<F: Fn(&char, &EncodeType) -> (bool, Option<(EntityType, Vec<u8>)>)>(
    content: &[u8],
    encode_type: &EncodeType,
    filter_fn: F,
    data: &mut Vec<u8>,
)
    requires
        forall|a: &char, b: &EncodeType| #[trigger] call_requires(filter_fn, (a, b)),
    ensures
        exists|ds: Seq<(bool, Option<(EntityType, Seq<u8>)>)>|
            {
                &&& ds.len() == utf8_items(content@, 0).len()
                &&& (forall|k: int|
                    0 <= k < ds.len() && (#[trigger] utf8_items(content@, 0)[k]) is Ch ==> exists|
                        out: (bool, Option<(EntityType, Vec<u8>)>),
                    |
                        call_ensures(
                            filter_fn,
                            (&utf8_items(content@, 0)[k]->Ch_c, encode_type),
                            out,
                        ) && ds[k] == decision_view(out))
                &&& final(data)@ == old(data)@ + splice_from(
                    content@,
                    (#[trigger] spec_encode_subs_decided(
                        utf8_items(content@, 0),
                        *encode_type,
                        ds,
                    )).map_values(
                        |e: (CodeRange, (EntityType, Seq<u8>))| (e.0, entity_bytes(e.1.0, e.1.1)),
                    ),
                    0,
                )
            },
{
    let encoded = encode_with(content, encode_type, filter_fn);
    let ghost items = utf8_items(content@, 0);
    let ghost ds = choose|ds: Seq<(bool, Option<(EntityType, Seq<u8>)>)>|
        {
            &&& ds.len() == items.len()
            &&& (forall|k: int|
                0 <= k < ds.len() && (#[trigger] items[k]) is Ch ==> exists|
                    out: (bool, Option<(EntityType, Vec<u8>)>),
                |
                    call_ensures(filter_fn, (&items[k]->Ch_c, encode_type), out) && ds[k]
                        == decision_view(out))
            &&& encoded.subs_view() == #[trigger] spec_encode_subs_decided(
                items,
                *encode_type,
                ds,
            )
        };
    let mut bytes = encoded.into_bytes();
    proof {
        assert(encoded.byte_subs() =~= spec_encode_subs_decided(items, *encode_type, ds)
            .map_values(
            |e: (CodeRange, (EntityType, Seq<u8>))| (e.0, entity_bytes(e.1.0, e.1.1)),
        ));
    }
    data.append(&mut bytes);
}

/// The characters [`encode_chars_with`] produces, one decision per
/// input character: an encodable character under a decided form set
/// becomes its entity text, every other character stands unchanged.
pub open spec fn spec_encode_chars_decided(cs: Seq<char>, ds: Seq<Option<EncodeType>>) -> Seq<
    char,
>
    decreases cs.len(),
{
    if cs.len() == 0 || cs.len() != ds.len() {
        seq![]
    } else {
        chars_decided_one(cs[0], ds[0]) + spec_encode_chars_decided(
            cs.drop_first(),
            ds.drop_first(),
        )
    }
}

/// What one character contributes under one decision.
pub open spec fn chars_decided_one(c: char, d: Option<EncodeType>) -> Seq<char> {
    match d {
        Some(et) => match spec_encode_char(c, et) {
            Some(p) => bytes_as_chars(entity_bytes(p.0, p.1)),
            None => seq![c],
        },
        None => seq![c],
    }
}

/// Appending one character and its decision appends that character's
/// contribution.
proof fn lemma_encode_chars_decided_push(
    cs: Seq<char>,
    ds: Seq<Option<EncodeType>>,
    c: char,
    d: Option<EncodeType>,
)
    requires
        cs.len() == ds.len(),
    ensures
        spec_encode_chars_decided(cs.push(c), ds.push(d)) == spec_encode_chars_decided(cs, ds)
            + chars_decided_one(c, d),
    decreases cs.len(),
{
    if cs.len() == 0 {
        assert(cs.push(c).drop_first() =~= Seq::<char>::empty());
        assert(ds.push(d).drop_first() =~= Seq::<Option<EncodeType>>::empty());
        assert(cs.push(c)[0] == c);
        assert(ds.push(d)[0] == d);
        assert(spec_encode_chars_decided(Seq::<char>::empty(), Seq::<Option<EncodeType>>::empty())
            =~= Seq::<char>::empty());
        assert(spec_encode_chars_decided(cs.push(c), ds.push(d)) =~= chars_decided_one(c, d));
        assert(spec_encode_chars_decided(cs, ds) + chars_decided_one(c, d) =~= chars_decided_one(
            c,
            d,
        ));
    } else {
        lemma_encode_chars_decided_push(cs.drop_first(), ds.drop_first(), c, d);
        assert(cs.push(c).drop_first() =~= cs.drop_first().push(c));
        assert(ds.push(d).drop_first() =~= ds.drop_first().push(d));
        assert(cs.push(c)[0] == cs[0]);
        assert(ds.push(d)[0] == ds[0]);
        assert(chars_decided_one(cs[0], ds[0]) + (spec_encode_chars_decided(
            cs.drop_first(),
            ds.drop_first(),
        ) + chars_decided_one(c, d)) =~= (chars_decided_one(cs[0], ds[0])
            + spec_encode_chars_decided(cs.drop_first(), ds.drop_first())) + chars_decided_one(
            c,
            d,
        ));
    }
}

/// Encodes a list of characters: the filter picks, per character, the
/// form set to encode it with, or leaves it unchanged; a character the
/// formatter cannot encode under the picked forms also stands
/// unchanged.
pub fn encode_chars_with<F: Fn(&char) -> Option<EncodeType>>(chars: &[char], filter_fn: F) -> (r:
    Vec<char>)
    requires
        forall|a: &char| #[trigger] call_requires(filter_fn, (a,)),
    ensures
        exists|ds: Seq<Option<EncodeType>>|
            {
                &&& ds.len() == chars@.len()
                &&& (forall|k: int|
                    0 <= k < ds.len() ==> #[trigger] call_ensures(
                        filter_fn,
                        (&chars@[k],),
                        ds[k],
                    ))
                &&& r@ == #[trigger] spec_encode_chars_decided(chars@, ds)
            },
{
    let table = build_by_code_table();
    let ghost mut consumed: Seq<char> = Seq::empty();
    let ghost mut ds: Seq<Option<EncodeType>> = Seq::empty();
    let n = chars.len();
    let mut out: Vec<char> = Vec::new();
    let mut i: usize = 0;
    while i < n
        invariant
            forall|a: &char| #[trigger] call_requires(filter_fn, (a,)),
            is_code_table(table@),
            0 <= i <= n,
            n == chars@.len(),
            consumed == chars@.subrange(0, i as int),
            ds.len() == i as int,
            forall|k: int|
                0 <= k < ds.len() ==> #[trigger] call_ensures(filter_fn, (&chars@[k],), ds[k]),
            out@ == spec_encode_chars_decided(consumed, ds),
        decreases n - i,
    {
        let c = chars[i];
        let verdict = filter_fn(&c);
        let ghost out0 = out@;
        match verdict {
            Some(et) => {
                match encode_char_with(&table, &c, &et) {
                    Some(ent) => {
                        ent.write_chars(&mut out);
                    },
                    None => {
                        out.push(c);
                    },
                }
            },
            None => {
                out.push(c);
            },
        }
        proof {
            lemma_encode_chars_decided_push(consumed, ds, c, verdict);
            assert(out@ =~= out0 + chars_decided_one(c, verdict));
            assert(c == chars@[i as int]);
            assert(call_ensures(filter_fn, (&c,), verdict));
            let ds0 = ds;
            let new_ds = ds0.push(verdict);
            assert forall|k: int|
                0 <= k < new_ds.len() implies #[trigger] call_ensures(
                filter_fn,
                (&chars@[k],),
                new_ds[k],
            ) by {
                if k < ds0.len() {
                    assert(new_ds[k] == ds0[k]);
                    assert(call_ensures(filter_fn, (&chars@[k],), ds0[k]));
                } else {
                    assert(chars@[k] == c);
                    assert(new_ds[k] == verdict);
                }
            }
            consumed = consumed.push(c);
            ds = new_ds;
            assert(consumed =~= chars@.subrange(0, i + 1 as int));
        }
        i = i + 1;
    }
    proof {
        assert(consumed =~= chars@);
        assert(out@ == spec_encode_chars_decided(chars@, ds));
    }
    out
}


impl EncodedData {
    /// An iterator over the logical bytes, each tagged with its
    /// position inside a substitution, if any.
    pub fn into_iter(&self) -> (it: crate::views::DataIter)
        requires
            self.wf(),
        ensures
            it.items_view() == crate::views::tagged_splice_from(
                self.source(),
                self.byte_subs(),
                0,
                0,
            ),
            it.position() == 0,
    {
        let ghost subs = self.byte_subs();
        let src_len = self.inner_bytes.len();
        let mut items: Vec<(u8, Option<(usize, usize)>)> = Vec::new();
        let n = self.entities.len();
        let mut k: usize = 0;
        let mut from: usize = 0;
        proof {
            assert(subs.skip(0) =~= subs);
        }
        while k < n
            invariant
                self.wf(),
                subs == self.byte_subs(),
                self.inner_bytes@.len() <= usize::MAX,
                0 <= k <= n,
                n == self.entities@.len(),
                k < n ==> from <= self.entities@[k as int].0.start,
                from <= self.inner_bytes@.len(),
                items@ + crate::views::tagged_splice_from(
                    self.inner_bytes@,
                    subs.skip(k as int),
                    from as int,
                    k as int,
                ) == crate::views::tagged_splice_from(self.inner_bytes@, subs, 0, 0),
            decreases n - k,
        {
            proof {
                assert(sub_ranges(subs)[k as int] == subs[k as int].0);
                assert(subs[k as int] == (self.entities@[k as int].0, self.entities@[k as int].1.bytes_view()));
                if k + 1 < n {
                    assert(sub_ranges(subs)[k as int + 1] == subs[k as int + 1].0);
                    assert(subs[k as int + 1] == (self.entities@[k as int + 1].0, self.entities@[k as int + 1].1.bytes_view()));
                }
            }
            let ghost items0 = items@;
            let e = &self.entities[k];
            crate::views::push_tagged_segment(
                &mut items,
                self.inner_bytes.as_slice(),
                from,
                e.0.start,
            );
            let ebytes = e.1.to_bytes();
            crate::views::push_tagged_entity(&mut items, &ebytes, k);
            proof {
                assert(self.entities@[k as int].0.end < self.inner_bytes@.len());
                assert(subs.skip(k as int)[0] == subs[k as int]);
                assert(subs.skip(k as int).drop_first() =~= subs.skip(k as int + 1));
                assert(crate::views::tagged_splice_from(
                    self.inner_bytes@,
                    subs.skip(k as int),
                    from as int,
                    k as int,
                ) == self.inner_bytes@.subrange(from as int, e.0.start as int).map_values(
                    |x: u8| (x, None::<(usize, usize)>),
                ) + Seq::new(
                    subs[k as int].1.len(),
                    |j: int| (subs[k as int].1[j], Some((k, j as usize))),
                ) + crate::views::tagged_splice_from(
                    self.inner_bytes@,
                    subs.skip(k as int + 1),
                    e.0.end + 1,
                    k as int + 1,
                ));
                assert(items@ =~= items0 + self.inner_bytes@.subrange(
                    from as int,
                    e.0.start as int,
                ).map_values(|x: u8| (x, None::<(usize, usize)>)) + Seq::new(
                    subs[k as int].1.len(),
                    |j: int| (subs[k as int].1[j], Some((k, j as usize))),
                ));
                assert(items@ + crate::views::tagged_splice_from(
                    self.inner_bytes@,
                    subs.skip(k as int + 1),
                    e.0.end + 1,
                    k as int + 1,
                ) =~= items0 + crate::views::tagged_splice_from(
                    self.inner_bytes@,
                    subs.skip(k as int),
                    from as int,
                    k as int,
                ));
            }
            from = e.0.end + 1;
            k = k + 1;
        }
        let ghost items0 = items@;
        crate::views::push_tagged_segment(&mut items, self.inner_bytes.as_slice(), from, src_len);
        proof {
            assert(subs.skip(n as int) =~= Seq::<(CodeRange, Seq<u8>)>::empty());
            assert(crate::views::tagged_splice_from(
                self.inner_bytes@,
                subs.skip(n as int),
                from as int,
                n as int,
            ) == self.inner_bytes@.subrange(
                from as int,
                self.inner_bytes@.len() as int,
            ).map_values(|x: u8| (x, None::<(usize, usize)>)));
            assert(items@ =~= items0 + self.inner_bytes@.subrange(
                from as int,
                self.inner_bytes@.len() as int,
            ).map_values(|x: u8| (x, None::<(usize, usize)>)));
        }
        crate::views::DataIter::new(items)
    }
}

} // verus!
