//! Shared machinery of the result views: materializers and the logical
//! byte iterator.

use vstd::prelude::*;
use vstd::string::StringExecFns;
use vstd::utf8::{decode_utf8, valid_utf8};

use crate::entity::HtmlEntityError;
use crate::scan::{
    chars_of_good, is_valid_utf8, items_all_ch, lemma_chars_of_good_concat, scan_next, utf8_items,
    Scanned, Utf8Item,
};

verus! {

/// Relies on String::from_utf8: a byte vector that is valid UTF-8 is
/// accepted and decodes to its characters.
#[verifier::external_body]
fn string_from_valid_utf8(bytes: Vec<u8>) -> (s: String)
    requires
        valid_utf8(bytes@),
    ensures
        s@ == decode_utf8(bytes@),
{
    String::from_utf8(bytes).unwrap()
}

/// Turns materialized logical bytes into text; fails exactly when they
/// are not valid UTF-8.
pub(crate) fn bytes_to_string(bytes: Vec<u8>) -> (r: Result<String, HtmlEntityError>)
    ensures
        match r {
            Ok(s) => valid_utf8(bytes@) && s@ == decode_utf8(bytes@),
            Err(_) => !valid_utf8(bytes@),
        },
{
    if is_valid_utf8(bytes.as_slice()) {
        Ok(string_from_valid_utf8(bytes))
    } else {
        Err(
            HtmlEntityError::Decode(
                String::from_str("the materialized bytes are not valid utf-8 text"),
            ),
        )
    }
}

/// Appends the characters of one untouched segment, read by the
/// tolerant UTF-8 walk; reports whether the whole segment was walked
/// without a malformed run.
pub(crate) fn bytes_to_chars(s: &[u8], data: &mut Vec<char>) -> (ok: bool)
    ensures
        ok == items_all_ch(utf8_items(s@, 0)),
        final(data)@ == old(data)@ + chars_of_good(utf8_items(s@, 0)),
{
    let ghost whole = utf8_items(s@, 0);
    let ghost mut consumed: Seq<Utf8Item> = Seq::empty();
    let n = s.len();
    let mut i: usize = 0;
    proof {
        assert(consumed + utf8_items(s@, 0) =~= utf8_items(s@, 0));
    }
    while i < n
        invariant
            0 <= i <= n,
            n == s@.len(),
            whole == utf8_items(s@, 0),
            whole == consumed + utf8_items(s@, i as int),
            items_all_ch(consumed),
            data@ == old(data)@ + chars_of_good(consumed),
        decreases n - i,
    {
        let (sc, next) = scan_next(s, i);
        match sc {
            Scanned::Char { c, start, end } => {
                data.push(c);
                proof {
                    let item = Utf8Item::Ch { c, start: start as int, end: end as int };
                    lemma_chars_of_good_concat(consumed, seq![item] + utf8_items(s@, next as int));
                    lemma_chars_of_good_concat(
                        consumed.push(item),
                        utf8_items(s@, next as int),
                    );
                    assert(consumed.push(item) =~= consumed + seq![item]);
                    lemma_chars_of_good_concat(consumed, seq![item]);
                    assert(seq![item].drop_first() =~= Seq::<Utf8Item>::empty());
                    assert(chars_of_good(Seq::<Utf8Item>::empty()) == Seq::<char>::empty());
                    assert(chars_of_good(seq![item]) =~= seq![c]);
                    assert(whole =~= consumed.push(item) + utf8_items(s@, next as int));
                    consumed = consumed.push(item);
                }
                i = next;
            },
            Scanned::Malformed { start, end } => {
                proof {
                    let item = Utf8Item::Bad { start: start as int, end: end as int };
                    let rest = seq![item] + utf8_items(s@, next as int);
                    assert(whole == consumed + rest);
                    assert(rest[0] is Bad);
                    assert(whole[consumed.len() as int] is Bad);
                    assert(!items_all_ch(whole));
                    lemma_chars_of_good_concat(consumed, rest);
                    assert(chars_of_good(rest) =~= Seq::<char>::empty());
                    assert(chars_of_good(whole) =~= chars_of_good(consumed));
                }
                return false;
            },
            Scanned::Truncated => {
                proof {
                    assert(whole =~= consumed);
                }
                i = next;
            },
        }
    }
    proof {
        assert(utf8_items(s@, n as int) =~= Seq::<Utf8Item>::empty());
        assert(whole =~= consumed);
    }
    true
}

/// The logical byte stream of a view, tagged: an untouched byte
/// carries nothing, a replacement byte carries the index of its
/// substitution — counting from `k` — and its offset inside the
/// replacement.
pub open spec fn tagged_splice_from(
    src: Seq<u8>,
    subs: Seq<(crate::CodeRange, Seq<u8>)>,
    from: int,
    k: int,
) -> Seq<(u8, Option<(usize, usize)>)>
    decreases subs.len(),
{
    if subs.len() == 0 {
        src.subrange(from, src.len() as int).map_values(|b: u8| (b, None::<(usize, usize)>))
    } else {
        src.subrange(from, subs[0].0.start as int).map_values(|b: u8| (b, None::<(usize, usize)>))
            + Seq::new(subs[0].1.len(), |j: int| (subs[0].1[j], Some((k as usize, j as usize))))
            + tagged_splice_from(src, subs.drop_first(), subs[0].0.end + 1, k + 1)
    }
}

/// Appends the bytes `src[a..b]`, untagged.
pub(crate) fn push_tagged_segment(
    out: &mut Vec<(u8, Option<(usize, usize)>)>,
    src: &[u8],
    a: usize,
    b: usize,
)
    requires
        a <= b <= src@.len(),
    ensures
        final(out)@ == old(out)@ + src@.subrange(a as int, b as int).map_values(
            |x: u8| (x, None::<(usize, usize)>),
        ),
{
    let mut i = a;
    while i < b
        invariant
            a <= i <= b <= src@.len(),
            out@ == old(out)@ + src@.subrange(a as int, i as int).map_values(
                |x: u8| (x, None::<(usize, usize)>),
            ),
        decreases b - i,
    {
        out.push((src[i], None));
        proof {
            assert(src@.subrange(a as int, i + 1 as int).map_values(
                |x: u8| (x, None::<(usize, usize)>),
            ) =~= src@.subrange(a as int, i as int).map_values(
                |x: u8| (x, None::<(usize, usize)>),
            ) + seq![(src@[i as int], None::<(usize, usize)>)]);
        }
        i = i + 1;
    }
}

/// Appends the bytes of one replacement, tagged with its substitution
/// index `k` and the offset of each byte.
pub(crate) fn push_tagged_entity(
    out: &mut Vec<(u8, Option<(usize, usize)>)>,
    bytes: &Vec<u8>,
    k: usize,
)
    ensures
        final(out)@ == old(out)@ + Seq::new(
            bytes@.len(),
            |j: int| (bytes@[j], Some((k, j as usize))),
        ),
{
    let n = bytes.len();
    let mut j: usize = 0;
    while j < n
        invariant
            0 <= j <= n,
            n == bytes@.len(),
            out@ == old(out)@ + Seq::new(j as nat, |m: int| (bytes@[m], Some((k, m as usize)))),
        decreases n - j,
    {
        out.push((bytes[j], Some((k, j))));
        proof {
            assert(Seq::new((j + 1) as nat, |m: int| (bytes@[m], Some((k, m as usize)))) =~= Seq::new(
                j as nat,
                |m: int| (bytes@[m], Some((k, m as usize))),
            ) + seq![(bytes@[j as int], Some((k, j as usize)))]);
        }
        j = j + 1;
    }
}

/// An iterator over the logical byte stream of a coded-data view. Each
/// step yields the byte together with its position inside a
/// substitution — the substitution's index and the offset in its
/// replacement bytes — or nothing for an untouched byte.
pub struct DataIter {
    items: Vec<(u8, Option<(usize, usize)>)>,
    pos: usize,
}

impl DataIter {
    /// The tagged logical bytes the iterator walks.
    pub closed spec fn items_view(self) -> Seq<(u8, Option<(usize, usize)>)> {
        self.items@
    }

    /// How many items were already yielded.
    pub closed spec fn position(self) -> int {
        self.pos as int
    }

    /// Builds an iterator over precomputed tagged bytes.
    pub(crate) fn new(items: Vec<(u8, Option<(usize, usize)>)>) -> (r: DataIter)
        ensures
            r.items_view() == items@,
            r.position() == 0,
    {
        DataIter { items, pos: 0 }
    }

    /// Yields the next tagged logical byte, left to right.
    pub fn next(&mut self) -> (r: Option<(u8, Option<(usize, usize)>)>)
        ensures
            final(self).items_view() == old(self).items_view(),
            old(self).position() < old(self).items_view().len() ==> {
                &&& r == Some(old(self).items_view()[old(self).position()])
                &&& final(self).position() == old(self).position() + 1
            },
            old(self).position() >= old(self).items_view().len() ==> {
                &&& r is None
                &&& final(self).position() == old(self).position()
            },
    {
        if self.pos < self.items.len() {
            let item = self.items[self.pos];
            self.pos = self.pos + 1;
            Some(item)
        } else {
            None
        }
    }
}

} // verus!
