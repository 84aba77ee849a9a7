//! The library main module.
//!
//! It holds the public vocabulary of the codec — entity forms,
//! character sets, decode error kinds, the [`CharEntity`] record — the
//! entity recognizer [`Entity`], and the traits shared by the encoded
//! and decoded result views.

use vstd::prelude::*;
use vstd::string::StringExecFns;
use vstd::utf8::{char_u32_cast, decode_utf8, is_scalar, valid_utf8};

use crate::digits::{all_dec_digits, all_hex_digits, is_dec_digit, is_hex_digit, radix_val};
use crate::scan::scalar_to_char;
use crate::data::build_by_name_table;
use crate::search::{
    is_ascii_alnum, is_ascii_alpha, is_name_table, name_to_code, name_wf,
    spec_name_to_code,
};

pub use crate::decodes::{decode, decode_chars, decode_chars_to, decode_to, DecodedData};
pub use crate::encodes::{
    encode, encode_char, encode_chars_with, encode_to, encode_with, encode_with_to, CharacterSet,
    EncodeType, EncodedData,
};
pub use crate::views::DataIter;

verus! {

/// A failure surfaced when materializing coded data.
#[derive(Debug)]
pub enum HtmlEntityError {
    Decode(String),
    Encode(String),
}

/// Why one `&…;` token was rejected by the decoder. The offending
/// bytes always pass through unchanged.
#[derive(Clone, Copy, PartialEq, Eq, Structural, Debug)]
pub enum DecodeErrorKind {
    /// `&;` — nothing between the ampersand and the semicolon.
    EmptyEntity,
    /// The input ended inside an open entity.
    UnterminatedEntity,
    /// A second `&` appeared before any `;`.
    UnencodedAmpersand,
    /// A name holds a byte that is not an ASCII letter or digit, or the
    /// token starts with a byte that can open no entity form.
    MalformedName,
    /// A well-formed name that the entity table does not know.
    UnknownName,
    /// A numeric payload that is empty or holds an invalid digit.
    MalformedNumber,
    /// A numeric value outside the Unicode scalar range.
    OutOfRangeScalar,
}

/// The three textual forms of an entity.
#[derive(Clone, Copy, PartialEq, Eq, Structural, Debug)]
pub enum EntityType {
    Named,
    Hex,
    Decimal,
}

/// Relies on String::push: it appends exactly the given character.
#[verifier::external_body]
fn string_push_char(s: &mut String, c: char)
    ensures
        final(s)@ == old(s)@ + seq![c],
{
    s.push(c);
}

/// A byte run read as characters, byte for byte.
pub open spec fn bytes_as_chars(s: Seq<u8>) -> Seq<char> {
    s.map_values(|b: u8| b as char)
}

/// The prefix an entity form puts between `&` and its payload.
pub open spec fn entity_prefix(t: EntityType) -> Seq<u8> {
    match t {
        EntityType::Named => seq![],
        EntityType::Hex => seq![0x23u8, 0x78u8],
        EntityType::Decimal => seq![0x23u8],
    }
}

/// The full byte run of an entity: `&`, the form prefix, the payload,
/// and `;`.
pub open spec fn entity_bytes(t: EntityType, payload: Seq<u8>) -> Seq<u8> {
    seq![0x26u8] + entity_prefix(t) + payload + seq![0x3bu8]
}

/// One encoded entity: its form and its payload bytes (the part between
/// the sigils, with no `&`, `#`/`#x`, or `;`).
#[derive(Debug)]
pub struct CharEntity {
    entity_type: EntityType,
    entity_data: Vec<u8>,
}

impl CharEntity {
    /// The form of the entity.
    pub closed spec fn form(self) -> EntityType {
        self.entity_type
    }

    /// The payload bytes of the entity.
    pub closed spec fn payload(self) -> Seq<u8> {
        self.entity_data@
    }

    /// The full textual bytes of the entity.
    pub open spec fn bytes_view(self) -> Seq<u8> {
        entity_bytes(self.form(), self.payload())
    }

    /// Builds an entity record from a form and its payload bytes.
    pub fn new(entity_type: EntityType, entity_data: Vec<u8>) -> (r: CharEntity)
        ensures
            r.form() == entity_type,
            r.payload() == entity_data@,
    {
        CharEntity { entity_type, entity_data }
    }

    /// Length of the form prefix between `&` and the payload.
    pub fn prefix_len(&self) -> (n: usize)
        ensures
            n == entity_prefix(self.form()).len(),
    {
        match &self.entity_type {
            EntityType::Named => 0,
            EntityType::Hex => 2,
            EntityType::Decimal => 1,
        }
    }

    /// Appends the full textual bytes of the entity.
    pub fn write_bytes(&self, bytes: &mut Vec<u8>)
        ensures
            final(bytes)@ == old(bytes)@ + self.bytes_view(),
    {
        bytes.push(0x26);
        match &self.entity_type {
            EntityType::Named => {},
            EntityType::Hex => {
                bytes.push(0x23);
                bytes.push(0x78);
            },
            EntityType::Decimal => {
                bytes.push(0x23);
            },
        }
        bytes.extend_from_slice(self.entity_data.as_slice());
        bytes.push(0x3b);
        proof {
            assert(bytes@ =~= old(bytes)@ + self.bytes_view());
        }
    }

    /// Appends the entity text as characters, one per byte.
    pub fn write_chars(&self, chars: &mut Vec<char>)
        ensures
            final(chars)@ == old(chars)@ + bytes_as_chars(self.bytes_view()),
    {
        chars.push('&');
        match &self.entity_type {
            EntityType::Named => {},
            EntityType::Hex => {
                chars.push('#');
                chars.push('x');
            },
            EntityType::Decimal => {
                chars.push('#');
            },
        }
        let n = self.entity_data.len();
        let mut j: usize = 0;
        while j < n
            invariant
                0 <= j <= n,
                n == self.entity_data@.len(),
                chars@ == old(chars)@ + seq![0x26u8].map_values(|b: u8| b as char) + entity_prefix(
                    self.entity_type,
                ).map_values(|b: u8| b as char) + self.entity_data@.subrange(
                    0,
                    j as int,
                ).map_values(|b: u8| b as char),
            decreases n - j,
        {
            chars.push(self.entity_data[j] as char);
            proof {
                assert(self.entity_data@.subrange(0, j + 1 as int).map_values(|b: u8| b as char)
                    =~= self.entity_data@.subrange(0, j as int).map_values(|b: u8| b as char)
                    + seq![self.entity_data@[j as int] as char]);
            }
            j = j + 1;
        }
        chars.push(';');
        proof {
            assert(self.entity_data@.subrange(0, n as int) =~= self.entity_data@);
            assert(chars@ =~= old(chars)@ + bytes_as_chars(self.bytes_view()));
        }
    }

    /// Appends the entity text to a string, one character per byte.
    pub fn write_string(&self, code: &mut String)
        ensures
            final(code)@ == old(code)@ + bytes_as_chars(self.bytes_view()),
    {
        let chars = {
            let mut chars: Vec<char> = Vec::new();
            self.write_chars(&mut chars);
            chars
        };
        let n = chars.len();
        let mut j: usize = 0;
        while j < n
            invariant
                0 <= j <= n,
                n == chars@.len(),
                chars@ == bytes_as_chars(self.bytes_view()),
                code@ == old(code)@ + chars@.subrange(0, j as int),
            decreases n - j,
        {
            string_push_char(code, chars[j]);
            proof {
                assert(chars@.subrange(0, j + 1 as int) =~= chars@.subrange(0, j as int) + seq![
                    chars@[j as int],
                ]);
            }
            j = j + 1;
        }
        proof {
            assert(chars@.subrange(0, n as int) =~= chars@);
        }
    }

    /// The full textual bytes of the entity, as a fresh vector.
    pub fn to_bytes(&self) -> (r: Vec<u8>)
        ensures
            r@ == self.bytes_view(),
    {
        let mut bytes: Vec<u8> = Vec::new();
        self.write_bytes(&mut bytes);
        bytes
    }

    /// The entity text, one character per byte.
    pub fn to_string(&self) -> (r: String)
        ensures
            r@ == bytes_as_chars(self.bytes_view()),
    {
        let mut code = String::new();
        self.write_string(&mut code);
        code
    }

    /// Takes the payload bytes out of the entity.
    pub fn data(self) -> (r: Vec<u8>)
        ensures
            r@ == self.payload(),
    {
        self.entity_data
    }
}

/// Random access over a logical byte stream.
pub trait IBytesTrait {
    /// The structural well-formedness the value keeps; its constructors
    /// establish it.
    spec fn inv(&self) -> bool;

    /// The logical byte stream the value stands for.
    spec fn logical_bytes(&self) -> Seq<u8>;

    /// The length of the logical byte stream.
    fn bytes_len(&self) -> (n: usize)
        requires
            self.inv(),
        ensures
            n == self.logical_bytes().len(),
    ;

    /// The byte at a logical position, if the position is in bounds.
    fn byte(&self, index: usize) -> (r: Option<u8>)
        requires
            self.inv(),
        ensures
            index < self.logical_bytes().len() ==> r == Some(self.logical_bytes()[index as int]),
            index >= self.logical_bytes().len() ==> r is None,
    ;
}

impl IBytesTrait for CharEntity {
    open spec fn inv(&self) -> bool {
        true
    }

    open spec fn logical_bytes(&self) -> Seq<u8> {
        self.bytes_view()
    }

    fn bytes_len(&self) -> (n: usize) {
        let bytes = self.to_bytes();
        bytes.len()
    }

    fn byte(&self, index: usize) -> (r: Option<u8>) {
        let ghost bv = self.bytes_view();
        proof {
            assert(bv =~= seq![0x26u8] + entity_prefix(self.form()) + self.payload() + seq![
                0x3bu8,
            ]);
        }
        let prefix_len = self.prefix_len();
        if index == 0 {
            return Some(0x26);
        }
        if index <= prefix_len {
            // inside the form prefix: `#` alone, or `#` then `x`
            if index == 1 {
                return Some(0x23);
            }
            return Some(0x78);
        }
        let data_idx = index - 1 - prefix_len;
        if data_idx < self.entity_data.len() {
            proof {
                assert(bv[index as int] == self.payload()[data_idx as int]);
            }
            Some(self.entity_data[data_idx])
        } else if data_idx == self.entity_data.len() {
            proof {
                assert(bv[index as int] == 0x3b);
            }
            Some(0x3b)
        } else {
            None
        }
    }
}

/// Materialization of a coded-data view.
pub trait ICodedDataTrait: IBytesTrait {
    /// The characters of the view: each untouched segment is read by the
    /// tolerant UTF-8 walk and each substitution contributes its own
    /// characters; nothing when a segment holds a malformed run.
    spec fn logical_chars(&self) -> Option<Seq<char>>;

    /// Materializes the view as text. Fails exactly when the logical
    /// byte stream is not valid UTF-8.
    fn to_string(&self) -> (r: Result<String, HtmlEntityError>)
        requires
            self.inv(),
        ensures
            match r {
                Ok(s) => valid_utf8(self.logical_bytes()) && s@ == decode_utf8(
                    self.logical_bytes(),
                ),
                Err(_) => !valid_utf8(self.logical_bytes()),
            },
    ;

    /// Materializes the view as bytes.
    fn to_bytes(&self) -> (r: Vec<u8>)
        requires
            self.inv(),
        ensures
            r@ == self.logical_bytes(),
    ;

    /// Materializes the view as characters. Fails exactly when some
    /// untouched segment holds a malformed UTF-8 run.
    fn to_chars(&self) -> (r: Result<Vec<char>, HtmlEntityError>)
        requires
            self.inv(),
        ensures
            match r {
                Ok(cs) => self.logical_chars() == Some(cs@),
                Err(_) => self.logical_chars() is None,
            },
    ;
}

/// A numeric reference resolves exactly when its value is a Unicode
/// scalar: at most `0x10FFFF` and not a surrogate.
pub open spec fn spec_numeric_scalar(v: int) -> Result<char, DecodeErrorKind> {
    if 0 <= v <= 0x10FFFF && !(0xD800 <= v <= 0xDFFF) {
        Ok((v as u32) as char)
    } else {
        Err(DecodeErrorKind::OutOfRangeScalar)
    }
}

/// What the recognizer returns for the bytes strictly between `&` and
/// `;`: a named token resolves through the entity table; `#` digits and
/// `#x`/`#X` hex digits resolve as numeric references; anything else is
/// rejected with the matching error kind.
pub open spec fn spec_entity_decode(t: Seq<u8>) -> Result<char, DecodeErrorKind> {
    if t.len() == 0 {
        Err(DecodeErrorKind::EmptyEntity)
    } else if is_ascii_alpha(t[0]) {
        if !name_wf(t) {
            Err(DecodeErrorKind::MalformedName)
        } else {
            match spec_name_to_code(t) {
                Some(code) => Ok(code as char),
                None => Err(DecodeErrorKind::UnknownName),
            }
        }
    } else if t[0] == 0x23 {
        if t.len() >= 2 && is_dec_digit(t[1]) {
            if all_dec_digits(t.subrange(1, t.len() as int)) {
                spec_numeric_scalar(radix_val(t.subrange(1, t.len() as int), 10))
            } else {
                Err(DecodeErrorKind::MalformedNumber)
            }
        } else if t.len() >= 3 && (t[1] == 0x78 || t[1] == 0x58) {
            if all_hex_digits(t.subrange(2, t.len() as int)) {
                spec_numeric_scalar(radix_val(t.subrange(2, t.len() as int), 16))
            } else {
                Err(DecodeErrorKind::MalformedNumber)
            }
        } else {
            Err(DecodeErrorKind::MalformedNumber)
        }
    } else {
        Err(DecodeErrorKind::MalformedName)
    }
}

/// True when every byte of `b` is an ASCII letter or digit.
fn check_all_alnum(b: &[u8]) -> (r: bool)
    ensures
        r == forall|j: int| 0 <= j < b@.len() ==> is_ascii_alnum(#[trigger] b@[j]),
{
    let n = b.len();
    let mut j: usize = 0;
    while j < n
        invariant
            0 <= j <= n,
            n == b@.len(),
            forall|k: int| 0 <= k < j ==> is_ascii_alnum(#[trigger] b@[k]),
        decreases n - j,
    {
        let c = b[j];
        if !((0x41 <= c && c <= 0x5a) || (0x61 <= c && c <= 0x7a) || (0x30 <= c && c <= 0x39)) {
            assert(!is_ascii_alnum(b@[j as int]));
            return false;
        }
        j = j + 1;
    }
    true
}

/// True when every byte of `b` is a decimal digit.
fn check_all_dec(b: &[u8]) -> (r: bool)
    ensures
        r == all_dec_digits(b@),
{
    let n = b.len();
    let mut j: usize = 0;
    while j < n
        invariant
            0 <= j <= n,
            n == b@.len(),
            forall|k: int| 0 <= k < j ==> is_dec_digit(#[trigger] b@[k]),
        decreases n - j,
    {
        let c = b[j];
        if !(0x30 <= c && c <= 0x39) {
            assert(!is_dec_digit(b@[j as int]));
            return false;
        }
        j = j + 1;
    }
    true
}

/// True when every byte of `b` is a hexadecimal digit.
fn check_all_hex(b: &[u8]) -> (r: bool)
    ensures
        r == all_hex_digits(b@),
{
    let n = b.len();
    let mut j: usize = 0;
    while j < n
        invariant
            0 <= j <= n,
            n == b@.len(),
            forall|k: int| 0 <= k < j ==> is_hex_digit(#[trigger] b@[k]),
        decreases n - j,
    {
        let c = b[j];
        if !((0x30 <= c && c <= 0x39) || (0x61 <= c && c <= 0x66) || (0x41 <= c && c <= 0x46)) {
            assert(!is_hex_digit(b@[j as int]));
            return false;
        }
        j = j + 1;
    }
    true
}

/// Resolves a numeric payload, already checked to hold digits of the
/// base named by `hex`, to its character.
fn numbers_to_char(payload: &[u8], hex: bool) -> (r: Result<char, DecodeErrorKind>)
    requires
        hex ==> all_hex_digits(payload@),
        !hex ==> all_dec_digits(payload@),
    ensures
        r == spec_numeric_scalar(radix_val(payload@, if hex { 16int } else { 10int })),
{
    let ghost radix: int = if hex { 16int } else { 10int };
    let v = crate::digits::parse_digits_clamped(payload, hex);
    proof {
        crate::digits::lemma_radix_val_nonneg(payload@, radix);
    }
    if v <= 0x10FFFF && !(0xD800 <= v && v <= 0xDFFF) {
        proof {
            assert(v == radix_val(payload@, radix));
            assert(is_scalar(v));
        }
        let c = scalar_to_char(v);
        proof {
            char_u32_cast(c, v);
        }
        Ok(c)
    } else {
        proof {
            let true_val = radix_val(payload@, radix);
            if true_val <= 0x10FFFF {
                assert(v == true_val);
            }
        }
        Err(DecodeErrorKind::OutOfRangeScalar)
    }
}

/// Resolves the token between `&` and `;` against a prebuilt name
/// table.
pub(crate) fn entity_decode_with(table: &Vec<(Vec<u8>, u32)>, bytes: &[u8]) -> (r: Result<
    char,
    DecodeErrorKind,
>)
    requires
        is_name_table(table@),
    ensures
        r == spec_entity_decode(bytes@),
{
    let total = bytes.len();
    if total == 0 {
        return Err(DecodeErrorKind::EmptyEntity);
    }
    let first = bytes[0];
    if (0x41 <= first && first <= 0x5a) || (0x61 <= first && first <= 0x7a) {
        // named form
        if !check_all_alnum(bytes) {
            assert(!name_wf(bytes@));
            return Err(DecodeErrorKind::MalformedName);
        }
        assert(name_wf(bytes@));
        match name_to_code(table, bytes) {
            Some(code) => {
                proof {
                    crate::search::lemma_lookup_name_member(
                        crate::data::by_name_table(),
                        bytes@,
                    );
                    crate::search::lemma_name_table_codes_scalar();
                }
                let c = scalar_to_char(code);
                proof {
                    char_u32_cast(c, code);
                }
                Ok(c)
            },
            None => Err(DecodeErrorKind::UnknownName),
        }
    } else if first == 0x23 && total > 1 {
        let second = bytes[1];
        if 0x30 <= second && second <= 0x39 {
            // decimal form
            let payload = &bytes[1..total];
            if check_all_dec(payload) {
                numbers_to_char(payload, false)
            } else {
                Err(DecodeErrorKind::MalformedNumber)
            }
        } else if second == 0x78 || second == 0x58 {
            // hexadecimal form
            if total > 2 {
                let payload = &bytes[2..total];
                if check_all_hex(payload) {
                    numbers_to_char(payload, true)
                } else {
                    Err(DecodeErrorKind::MalformedNumber)
                }
            } else {
                Err(DecodeErrorKind::MalformedNumber)
            }
        } else {
            Err(DecodeErrorKind::MalformedNumber)
        }
    } else if first == 0x23 {
        Err(DecodeErrorKind::MalformedNumber)
    } else {
        Err(DecodeErrorKind::MalformedName)
    }
}

/// The entity recognizer: it resolves the interior of a `&…;` token.
#[derive(Default)]
pub struct Entity;

impl Entity {
    /// Decodes the bytes strictly between `&` and `;` into their
    /// character, or reports why the token is rejected.
    pub fn decode(bytes: &[u8]) -> (r: Result<char, DecodeErrorKind>)
        ensures
            r == spec_entity_decode(bytes@),
    {
        let table = build_by_name_table();
        entity_decode_with(&table, bytes)
    }

    /// Like `decode`, over characters: the token must consist of bytes,
    /// that is characters up to `0xFF`, and is then decoded as bytes.
    pub fn decode_chars(chars: &[char]) -> (r: Result<char, DecodeErrorKind>)
        ensures
            r == spec_entity_decode_chars(chars@),
    {
        let total = chars.len();
        if total == 0 {
            return Err(DecodeErrorKind::EmptyEntity);
        }
        let mut bytes: Vec<u8> = Vec::new();
        let mut i: usize = 0;
        while i < total
            invariant
                0 <= i <= total,
                total == chars@.len(),
                forall|k: int| 0 <= k < i ==> (#[trigger] chars@[k]) as u32 <= 0xFF,
                bytes@ == chars@.subrange(0, i as int).map_values(|c: char| (c as u32) as u8),
            decreases total - i,
        {
            let code = chars[i] as u32;
            if code > 0xFF {
                return Err(DecodeErrorKind::UnknownName);
            }
            bytes.push(code as u8);
            proof {
                assert(chars@.subrange(0, i + 1 as int).map_values(|c: char| (c as u32) as u8)
                    =~= chars@.subrange(0, i as int).map_values(|c: char| (c as u32) as u8)
                    + seq![(chars@[i as int] as u32) as u8]);
            }
            i = i + 1;
        }
        proof {
            assert(chars@.subrange(0, total as int) =~= chars@);
        }
        Entity::decode(bytes.as_slice())
    }
}

/// What `Entity::decode_chars` returns: the token characters must all
/// be bytes (up to `0xFF`); the bytes then resolve as in
/// [`spec_entity_decode`].
pub open spec fn spec_entity_decode_chars(cs: Seq<char>) -> Result<char, DecodeErrorKind> {
    if cs.len() == 0 {
        Err(DecodeErrorKind::EmptyEntity)
    } else if exists|k: int| 0 <= k < cs.len() && (#[trigger] cs[k]) as u32 > 0xFF {
        Err(DecodeErrorKind::UnknownName)
    } else {
        spec_entity_decode(cs.map_values(|c: char| (c as u32) as u8))
    }
}

} // verus!
