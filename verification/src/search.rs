//! Lookup machinery over the entity tables.
//!
//! The decoder resolves a name to its code point through the
//! name-ordered table; the encoder resolves a code point to its
//! preferred name through the code-ordered table. In both directions
//! the result is the first matching record, and the lemmas here relate
//! that rule to the order and well-formedness of the built-in tables.

use vstd::prelude::*;

use crate::data::{
    by_code_entry, by_code_table, by_name_entry, by_name_table, lemma_name_table_adjacent,
    table_len,
};

verus! {

/// True for an ASCII letter.
pub open spec fn is_ascii_alpha(b: u8) -> bool {
    ||| 0x41 <= b <= 0x5a
    ||| 0x61 <= b <= 0x7a
}

/// True for an ASCII letter or digit.
pub open spec fn is_ascii_alnum(b: u8) -> bool {
    ||| is_ascii_alpha(b)
    ||| 0x30 <= b <= 0x39
}

/// An entity name is non-empty, starts with a letter, and continues
/// with letters and digits.
pub open spec fn name_wf(s: Seq<u8>) -> bool {
    &&& s.len() >= 1
    &&& is_ascii_alpha(s[0])
    &&& forall|j: int| 0 <= j < s.len() ==> is_ascii_alnum(#[trigger] s[j])
}

/// True when `a` is at least as preferred a name as `b`: shorter, or of
/// equal length with lowercase never losing to uppercase.
pub open spec fn preferred_le(a: Seq<u8>, b: Seq<u8>) -> bool {
    ||| a.len() < b.len()
    ||| (a.len() == b.len() && (0x61 <= a[0] <= 0x7a || !(0x61 <= b[0] <= 0x7a)))
}

/// Strict lexicographic order on byte sequences.
pub open spec fn lex_lt(a: Seq<u8>, b: Seq<u8>) -> bool
    decreases a.len(),
{
    if b.len() == 0 {
        false
    } else if a.len() == 0 {
        true
    } else if a[0] < b[0] {
        true
    } else if a[0] > b[0] {
        false
    } else {
        lex_lt(a.drop_first(), b.drop_first())
    }
}

/// The lexicographic order is irreflexive.
pub proof fn lemma_lex_lt_irrefl(a: Seq<u8>)
    ensures
        !lex_lt(a, a),
    decreases a.len(),
{
    if a.len() > 0 {
        lemma_lex_lt_irrefl(a.drop_first());
    }
}

/// The lexicographic order is transitive.
pub proof fn lemma_lex_lt_trans(a: Seq<u8>, b: Seq<u8>, c: Seq<u8>)
    requires
        lex_lt(a, b),
        lex_lt(b, c),
    ensures
        lex_lt(a, c),
    decreases a.len(),
{
    if a.len() == 0 {
    } else {
        if a[0] == b[0] && b[0] == c[0] {
            lemma_lex_lt_trans(a.drop_first(), b.drop_first(), c.drop_first());
        }
    }
}

/// Two lexicographically ordered sequences differ.
pub proof fn lemma_lex_lt_neq(a: Seq<u8>, b: Seq<u8>)
    requires
        lex_lt(a, b),
    ensures
        a != b,
{
    if a == b {
        lemma_lex_lt_irrefl(a);
    }
}

/// In a run of records whose adjacent names are ordered, any earlier
/// name is ordered before any later one.
pub proof fn lemma_adjacent_sorted_pair(i: int, j: int)
    requires
        forall|k: int|
            0 <= k < table_len() - 1 ==> lex_lt(
                by_name_entry(k).0,
                #[trigger] by_name_entry(k + 1).0,
            ),
        0 <= i < j < table_len(),
    ensures
        lex_lt(by_name_entry(i).0, by_name_entry(j).0),
    decreases j - i,
{
    if j == i + 1 {
        assert(lex_lt(by_name_entry(i).0, by_name_entry(i + 1).0));
    } else {
        lemma_adjacent_sorted_pair(i, j - 1);
        assert(lex_lt(by_name_entry(j - 1).0, by_name_entry(j - 1 + 1).0));
        lemma_lex_lt_trans(by_name_entry(i).0, by_name_entry(j - 1).0, by_name_entry(j).0);
    }
}

/// Distinct records of the name-ordered table carry distinct names.
pub proof fn lemma_name_table_unique(i: int, j: int)
    requires
        0 <= i < table_len(),
        0 <= j < table_len(),
        i != j,
    ensures
        by_name_entry(i).0 != by_name_entry(j).0,
{
    lemma_name_table_adjacent();
    if i < j {
        lemma_adjacent_sorted_pair(i, j);
        lemma_lex_lt_neq(by_name_entry(i).0, by_name_entry(j).0);
    } else {
        lemma_adjacent_sorted_pair(j, i);
        lemma_lex_lt_neq(by_name_entry(j).0, by_name_entry(i).0);
    }
}

/// The code point the table assigns to a name: the first record of the
/// name-ordered run whose name matches.
pub open spec fn lookup_name_in(t: Seq<(Seq<u8>, u32)>, name: Seq<u8>) -> Option<u32>
    decreases t.len(),
{
    if t.len() == 0 {
        None
    } else if t[0].0 == name {
        Some(t[0].1)
    } else {
        lookup_name_in(t.drop_first(), name)
    }
}

/// The code point of `name` in the built-in table.
pub open spec fn spec_name_to_code(name: Seq<u8>) -> Option<u32> {
    lookup_name_in(by_name_table(), name)
}

/// The preferred name the table assigns to a code point: the first
/// record of the code-ordered run whose code matches.
pub open spec fn lookup_code_in(t: Seq<(Seq<u8>, u32)>, code: u32) -> Option<Seq<u8>>
    decreases t.len(),
{
    if t.len() == 0 {
        None
    } else if t[0].1 == code {
        Some(t[0].0)
    } else {
        lookup_code_in(t.drop_first(), code)
    }
}

/// The preferred name of `code` in the built-in table.
pub open spec fn spec_code_to_name(code: u32) -> Option<Seq<u8>> {
    lookup_code_in(by_code_table(), code)
}

/// A lookup that hits at position `i`, with no earlier match, returns
/// record `i`.
pub proof fn lemma_lookup_name_found(t: Seq<(Seq<u8>, u32)>, name: Seq<u8>, i: int)
    requires
        0 <= i < t.len(),
        t[i].0 == name,
        forall|k: int| 0 <= k < i ==> (#[trigger] t[k]).0 != name,
    ensures
        lookup_name_in(t, name) == Some(t[i].1),
    decreases t.len(),
{
    if i > 0 {
        lemma_lookup_name_found(t.drop_first(), name, i - 1);
    }
}

/// A lookup over a run without any match returns nothing.
pub proof fn lemma_lookup_name_absent(t: Seq<(Seq<u8>, u32)>, name: Seq<u8>)
    requires
        forall|k: int| 0 <= k < t.len() ==> (#[trigger] t[k]).0 != name,
    ensures
        lookup_name_in(t, name) is None,
    decreases t.len(),
{
    if t.len() > 0 {
        lemma_lookup_name_absent(t.drop_first(), name);
    }
}

/// A successful name lookup returns the code of some record with that name.
pub proof fn lemma_lookup_name_member(t: Seq<(Seq<u8>, u32)>, name: Seq<u8>)
    requires
        lookup_name_in(t, name) is Some,
    ensures
        exists|i: int|
            0 <= i < t.len() && (#[trigger] t[i]).0 == name && t[i].1 == lookup_name_in(
                t,
                name,
            ).unwrap(),
    decreases t.len(),
{
    if t.len() > 0 {
        if t[0].0 == name {
            assert(t[0].0 == name && t[0].1 == lookup_name_in(t, name).unwrap());
        } else {
            lemma_lookup_name_member(t.drop_first(), name);
            let j = choose|j: int|
                0 <= j < t.drop_first().len() && (#[trigger] t.drop_first()[j]).0 == name
                    && t.drop_first()[j].1 == lookup_name_in(t.drop_first(), name).unwrap();
            assert(t[j + 1].0 == name && t[j + 1].1 == lookup_name_in(t, name).unwrap());
        }
    }
}

/// A code lookup that hits at position `i`, with no earlier match,
/// returns record `i`.
pub proof fn lemma_lookup_code_found(t: Seq<(Seq<u8>, u32)>, code: u32, i: int)
    requires
        0 <= i < t.len(),
        t[i].1 == code,
        forall|k: int| 0 <= k < i ==> (#[trigger] t[k]).1 != code,
    ensures
        lookup_code_in(t, code) == Some(t[i].0),
    decreases t.len(),
{
    if i > 0 {
        lemma_lookup_code_found(t.drop_first(), code, i - 1);
    }
}

/// A code lookup over a run without any match returns nothing.
pub proof fn lemma_lookup_code_absent(t: Seq<(Seq<u8>, u32)>, code: u32)
    requires
        forall|k: int| 0 <= k < t.len() ==> (#[trigger] t[k]).1 != code,
    ensures
        lookup_code_in(t, code) is None,
    decreases t.len(),
{
    if t.len() > 0 {
        lemma_lookup_code_absent(t.drop_first(), code);
    }
}

/// A successful code lookup returns the name of some record with that code.
pub proof fn lemma_lookup_code_member(t: Seq<(Seq<u8>, u32)>, code: u32)
    requires
        lookup_code_in(t, code) is Some,
    ensures
        exists|i: int|
            0 <= i < t.len() && (#[trigger] t[i]).1 == code && t[i].0 == lookup_code_in(
                t,
                code,
            ).unwrap(),
    decreases t.len(),
{
    if t.len() > 0 {
        if t[0].1 == code {
            assert(t[0].1 == code && t[0].0 == lookup_code_in(t, code).unwrap());
        } else {
            lemma_lookup_code_member(t.drop_first(), code);
            let j = choose|j: int|
                0 <= j < t.drop_first().len() && (#[trigger] t.drop_first()[j]).1 == code
                    && t.drop_first()[j].0 == lookup_code_in(t.drop_first(), code).unwrap();
            assert(t[j + 1].1 == code && t[j + 1].0 == lookup_code_in(t, code).unwrap());
        }
    }
}

/// The name the encoder picks for a code point decodes back to that
/// code point: the tables hold the same records, and names are unique.
pub proof fn lemma_code_name_round_trip(code: u32)
    requires
        spec_code_to_name(code) is Some,
    ensures
        spec_name_to_code(spec_code_to_name(code).unwrap()) == Some(code),
{
    let name = spec_code_to_name(code).unwrap();
    lemma_lookup_code_member(by_code_table(), code);
    let i = choose|i: int|
        0 <= i < by_code_table().len() && (#[trigger] by_code_table()[i]).1 == code
            && by_code_table()[i].0 == name;
    crate::data::lemma_tables_same_records();
    let m = choose|m: int|
        0 <= m < table_len() && (#[trigger] by_code_entry(i)).0 == by_name_entry(m).0
            && by_code_entry(i).1 == by_name_entry(m).1;
    assert(by_name_entry(m).0 == name && by_name_entry(m).1 == code);
    assert forall|k: int| 0 <= k < m implies (#[trigger] by_name_table()[k]).0 != name by {
        lemma_name_table_unique(k, m);
    }
    lemma_lookup_name_found(by_name_table(), name, m);
}

/// Every code point in the name-ordered table is a Unicode scalar.
pub proof fn lemma_name_table_codes_scalar()
    ensures
        forall|k: int|
            0 <= k < table_len() ==> vstd::utf8::is_scalar((#[trigger] by_name_entry(k)).1),
{
    assert(forall|k: int|
        0 <= k < table_len() ==> vstd::utf8::is_scalar((#[trigger] by_name_entry(k)).1));
}

/// True when the two byte runs hold the same bytes.
pub fn bytes_eq(a: &[u8], b: &[u8]) -> (r: bool)
    ensures
        r == (a@ == b@),
{
    if a.len() != b.len() {
        assert(a@ != b@);
        return false;
    }
    let n = a.len();
    let mut i: usize = 0;
    while i < n
        invariant
            0 <= i <= n,
            n == a@.len() && n == b@.len(),
            forall|k: int| 0 <= k < i ==> a@[k] == b@[k],
        decreases n - i,
    {
        if a[i] != b[i] {
            assert(a@ != b@);
            return false;
        }
        i = i + 1;
    }
    proof {
        assert(a@ =~= b@);
    }
    true
}

/// True when `t` holds the records of the name-ordered table.
pub open spec fn is_name_table(t: Seq<(Vec<u8>, u32)>) -> bool {
    &&& t.len() == table_len()
    &&& forall|i: int|
        0 <= i < t.len() ==> (#[trigger] t[i]).0@ == by_name_entry(i).0 && t[i].1
            == by_name_entry(i).1
}

/// True when `t` holds the records of the code-ordered table.
pub open spec fn is_code_table(t: Seq<(Vec<u8>, u32)>) -> bool {
    &&& t.len() == table_len()
    &&& forall|i: int|
        0 <= i < t.len() ==> (#[trigger] t[i]).0@ == by_code_entry(i).0 && t[i].1
            == by_code_entry(i).1
}

/// Resolves an entity name to its code point: the first matching record
/// of the name-ordered table.
pub fn name_to_code(table: &Vec<(Vec<u8>, u32)>, name: &[u8]) -> (r: Option<u32>)
    requires
        is_name_table(table@),
    ensures
        r == spec_name_to_code(name@),
{
    let n = table.len();
    let mut i: usize = 0;
    while i < n
        invariant
            0 <= i <= n,
            is_name_table(table@),
            n == table@.len(),
            forall|k: int| 0 <= k < i ==> (#[trigger] by_name_table()[k]).0 != name@,
        decreases n - i,
    {
        let e = &table[i];
        if bytes_eq(e.0.as_slice(), name) {
            proof {
                lemma_lookup_name_found(by_name_table(), name@, i as int);
            }
            return Some(e.1);
        }
        i = i + 1;
    }
    proof {
        lemma_lookup_name_absent(by_name_table(), name@);
    }
    None
}

/// Resolves a code point to its preferred entity name: the first
/// matching record of the code-ordered table.
pub fn code_to_name(table: &Vec<(Vec<u8>, u32)>, code: u32) -> (r: Option<Vec<u8>>)
    requires
        is_code_table(table@),
    ensures
        match r {
            Some(name) => spec_code_to_name(code) == Some(name@),
            None => spec_code_to_name(code) is None,
        },
{
    let n = table.len();
    let mut i: usize = 0;
    while i < n
        invariant
            0 <= i <= n,
            is_code_table(table@),
            n == table@.len(),
            forall|k: int| 0 <= k < i ==> (#[trigger] by_code_table()[k]).1 != code,
        decreases n - i,
    {
        let e = &table[i];
        if e.1 == code {
            proof {
                lemma_lookup_code_found(by_code_table(), code, i as int);
            }
            return Some(vstd::slice::slice_to_vec(e.0.as_slice()));
        }
        i = i + 1;
    }
    proof {
        lemma_lookup_code_absent(by_code_table(), code);
    }
    None
}

} // verus!
