//! The decode pipeline.
//!
//! The decoder scans a byte stream for `&…;` runs. Between an `&` and
//! the first following `;` or `&` lies a candidate token: a `;` closes
//! it and hands it to the recognizer, a second `&` restarts the scan at
//! the later ampersand, and the end of the input leaves it
//! unterminated. A resolved token becomes a substitution carrying the
//! decoded character; every rejected token is recorded as an error and
//! its bytes pass through unchanged. [`spec_decode_subs`] and
//! [`spec_decode_errs`] state that walk mathematically, and every
//! public function of the pipeline is specified against them.

use vstd::prelude::*;
use vstd::utf8::{decode_utf8, encode_scalar, valid_utf8};

use crate::entity::{
    entity_decode_with, spec_entity_decode, DecodeErrorKind, HtmlEntityError, IBytesTrait,
    ICodedDataTrait,
};
use crate::scan::char_to_utf8_bytes;
use crate::data::build_by_name_table;
use crate::search::is_name_table;
use crate::splice::{chars_splice_from, ranges_wf, splice_from, sub_ranges};
use crate::CodeRange;

verus! {

/// Position of the first `;` or `&` at or after `j`, or the input
/// length when there is none.
pub open spec fn find_term(s: Seq<u8>, j: int) -> int
    decreases s.len() - j,
{
    if j < 0 || j >= s.len() {
        s.len() as int
    } else if s[j] == 0x3b || s[j] == 0x26 {
        j
    } else {
        find_term(s, j + 1)
    }
}

/// The terminator position lies between the scan start and the input
/// length, no terminator byte lies before it, and it points at a
/// terminator byte whenever it is inside the input.
pub proof fn lemma_find_term_props(s: Seq<u8>, j: int)
    requires
        0 <= j <= s.len(),
    ensures
        j <= find_term(s, j) <= s.len(),
        forall|m: int| j <= m < find_term(s, j) ==> s[m] != 0x3b && s[m] != 0x26,
        find_term(s, j) < s.len() ==> (s[find_term(s, j)] == 0x3b || s[find_term(s, j)] == 0x26),
    decreases s.len() - j,
{
    if j < s.len() && !(s[j] == 0x3b || s[j] == 0x26) {
        lemma_find_term_props(s, j + 1);
    }
}

/// A position that carries a terminator, with none before it, is the
/// terminator position; so is the input length when no byte from the
/// scan start on is a terminator.
pub proof fn lemma_find_term_is(s: Seq<u8>, j: int, k: int)
    requires
        0 <= j <= k <= s.len(),
        forall|m: int| j <= m < k ==> s[m] != 0x3b && s[m] != 0x26,
        k < s.len() ==> (s[k] == 0x3b || s[k] == 0x26),
    ensures
        find_term(s, j) == k,
    decreases k - j,
{
    if j < k {
        lemma_find_term_is(s, j + 1, k);
    }
}

/// The substitutions the decoder records: one per `&…;` token that the
/// recognizer resolves, covering the token bytes including both sigils.
pub open spec fn spec_decode_subs(s: Seq<u8>, i: int) -> Seq<(CodeRange, char)>
    decreases s.len() - i,
    via spec_decode_subs_dec
{
    if i < 0 || i >= s.len() {
        seq![]
    } else if s[i] != 0x26 {
        spec_decode_subs(s, i + 1)
    } else {
        let j = find_term(s, i + 1);
        if j >= s.len() {
            seq![]
        } else if s[j] == 0x26 {
            spec_decode_subs(s, j)
        } else if j == i + 1 {
            spec_decode_subs(s, j + 1)
        } else {
            match spec_entity_decode(s.subrange(i + 1, j)) {
                Ok(c) => seq![(CodeRange { start: i as usize, end: j as usize }, c)]
                    + spec_decode_subs(s, j + 1),
                Err(_) => spec_decode_subs(s, j + 1),
            }
        }
    }
}

#[via_fn]
proof fn spec_decode_subs_dec(s: Seq<u8>, i: int) {
    if 0 <= i < s.len() && s[i] == 0x26 {
        lemma_find_term_props(s, i + 1);
    }
}

/// The errors the decoder records: an empty token, a rejected token, a
/// restarted ampersand, or an unterminated tail.
pub open spec fn spec_decode_errs(s: Seq<u8>, i: int) -> Seq<(CodeRange, DecodeErrorKind)>
    decreases s.len() - i,
    via spec_decode_errs_dec
{
    if i < 0 || i >= s.len() {
        seq![]
    } else if s[i] != 0x26 {
        spec_decode_errs(s, i + 1)
    } else {
        let j = find_term(s, i + 1);
        if j >= s.len() {
            seq![
                (
                    CodeRange { start: i as usize, end: (s.len() - 1) as usize },
                    DecodeErrorKind::UnterminatedEntity,
                ),
            ]
        } else if s[j] == 0x26 {
            seq![
                (CodeRange { start: i as usize, end: i as usize }, DecodeErrorKind::UnencodedAmpersand),
            ] + spec_decode_errs(s, j)
        } else if j == i + 1 {
            seq![(CodeRange { start: i as usize, end: j as usize }, DecodeErrorKind::EmptyEntity)]
                + spec_decode_errs(s, j + 1)
        } else {
            match spec_entity_decode(s.subrange(i + 1, j)) {
                Ok(_) => spec_decode_errs(s, j + 1),
                Err(k) => seq![(CodeRange { start: i as usize, end: j as usize }, k)]
                    + spec_decode_errs(s, j + 1),
            }
        }
    }
}

#[via_fn]
proof fn spec_decode_errs_dec(s: Seq<u8>, i: int) {
    if 0 <= i < s.len() && s[i] == 0x26 {
        lemma_find_term_props(s, i + 1);
    }
}

/// The decoded byte stream from position `i`, written as the walk
/// produces it: resolved tokens become the UTF-8 bytes of their
/// character, everything else passes through.
pub open spec fn spec_decode_out(s: Seq<u8>, i: int) -> Seq<u8>
    decreases s.len() - i,
    via spec_decode_out_dec
{
    if i < 0 || i >= s.len() {
        seq![]
    } else if s[i] != 0x26 {
        seq![s[i]] + spec_decode_out(s, i + 1)
    } else {
        let j = find_term(s, i + 1);
        if j >= s.len() {
            s.subrange(i, s.len() as int)
        } else if s[j] == 0x26 {
            s.subrange(i, j) + spec_decode_out(s, j)
        } else if j == i + 1 {
            s.subrange(i, j + 1) + spec_decode_out(s, j + 1)
        } else {
            match spec_entity_decode(s.subrange(i + 1, j)) {
                Ok(c) => encode_scalar(c as u32) + spec_decode_out(s, j + 1),
                Err(_) => s.subrange(i, j + 1) + spec_decode_out(s, j + 1),
            }
        }
    }
}

#[via_fn]
proof fn spec_decode_out_dec(s: Seq<u8>, i: int) {
    if 0 <= i < s.len() && s[i] == 0x26 {
        lemma_find_term_props(s, i + 1);
    }
}

/// Every substitution the walk from `i` records lies between `i` and
/// the end of the input, and later substitutions cover strictly later
/// ranges.
#[verifier::rlimit(100)]
#[verifier::spinoff_prover]
pub proof fn lemma_decode_subs_shape(s: Seq<u8>, i: int)
    requires
        0 <= i <= s.len(),
        s.len() <= usize::MAX,
    ensures
        forall|k: int|
            0 <= k < spec_decode_subs(s, i).len() ==> {
                let r = (#[trigger] spec_decode_subs(s, i)[k]).0;
                i <= r.start <= r.end < s.len()
            },
        forall|k: int|
            0 <= k < spec_decode_subs(s, i).len() - 1 ==> (#[trigger] spec_decode_subs(s, i)[k]).0.end
                < spec_decode_subs(s, i)[k + 1].0.start,
    decreases s.len() - i,
{
    if i >= s.len() {
    } else if s[i] != 0x26 {
        lemma_decode_subs_shape(s, i + 1);
        assert(spec_decode_subs(s, i) == spec_decode_subs(s, i + 1));
        assert forall|k: int| 0 <= k < spec_decode_subs(s, i).len() implies {
            let r = (#[trigger] spec_decode_subs(s, i)[k]).0;
            i <= r.start <= r.end < s.len()
        } by {
            assert(i + 1 <= spec_decode_subs(s, i + 1)[k].0.start <= spec_decode_subs(
                s,
                i + 1,
            )[k].0.end < s.len());
        }
        assert forall|k: int| 0 <= k < spec_decode_subs(s, i).len() - 1 implies (
        #[trigger] spec_decode_subs(s, i)[k]).0.end < spec_decode_subs(s, i)[k + 1].0.start by {
            assert(spec_decode_subs(s, i + 1)[k].0.end < spec_decode_subs(s, i + 1)[k
                + 1].0.start);
        }
    } else {
        lemma_find_term_props(s, i + 1);
        let j = find_term(s, i + 1);
        if j >= s.len() {
        } else if s[j] == 0x26 {
            lemma_decode_subs_shape(s, j);
            assert(spec_decode_subs(s, i) == spec_decode_subs(s, j));
            assert forall|k: int| 0 <= k < spec_decode_subs(s, i).len() implies {
                let r = (#[trigger] spec_decode_subs(s, i)[k]).0;
                i <= r.start <= r.end < s.len()
            } by {
                assert(j <= spec_decode_subs(s, j)[k].0.start <= spec_decode_subs(
                    s,
                    j,
                )[k].0.end < s.len());
            }
            assert forall|k: int| 0 <= k < spec_decode_subs(s, i).len() - 1 implies (
            #[trigger] spec_decode_subs(s, i)[k]).0.end < spec_decode_subs(s, i)[k
                + 1].0.start by {
                assert(spec_decode_subs(s, j)[k].0.end < spec_decode_subs(s, j)[k + 1].0.start);
            }
        } else if j == i + 1 {
            lemma_decode_subs_shape(s, j + 1);
            assert(spec_decode_subs(s, i) == spec_decode_subs(s, j + 1));
            assert forall|k: int| 0 <= k < spec_decode_subs(s, i).len() implies {
                let r = (#[trigger] spec_decode_subs(s, i)[k]).0;
                i <= r.start <= r.end < s.len()
            } by {
                assert(j + 1 <= spec_decode_subs(s, j + 1)[k].0.start <= spec_decode_subs(
                    s,
                    j + 1,
                )[k].0.end < s.len());
            }
            assert forall|k: int| 0 <= k < spec_decode_subs(s, i).len() - 1 implies (
            #[trigger] spec_decode_subs(s, i)[k]).0.end < spec_decode_subs(s, i)[k
                + 1].0.start by {
                assert(spec_decode_subs(s, j + 1)[k].0.end < spec_decode_subs(s, j + 1)[k
                    + 1].0.start);
            }
        } else {
            lemma_decode_subs_shape(s, j + 1);
            match spec_entity_decode(s.subrange(i + 1, j)) {
                Ok(c) => {
                    let head = (CodeRange { start: i as usize, end: j as usize }, c);
                    let tail = spec_decode_subs(s, j + 1);
                    let whole = spec_decode_subs(s, i);
                    assert(whole == seq![head] + tail);
                    assert(forall|k: int|
                        1 <= k < whole.len() ==> #[trigger] whole[k] == tail[k - 1]);
                    assert(whole[0] == head);
                    assert(head.0.start == i && head.0.end == j);
                    assert forall|k: int| 0 <= k < whole.len() implies {
                        let r = (#[trigger] whole[k]).0;
                        i <= r.start <= r.end < s.len()
                    } by {
                        if k >= 1 {
                            assert(whole[k] == tail[k - 1]);
                            assert(j + 1 <= tail[k - 1].0.start <= tail[k - 1].0.end < s.len());
                        }
                    }
                    assert forall|k: int| 0 <= k < whole.len() - 1 implies (#[trigger] whole[k]).0.end
                        < whole[k + 1].0.start by {
                        if k == 0 {
                            assert(whole[1] == tail[0]);
                            assert(tail[0].0.start >= j + 1);
                        } else {
                            assert(whole[k] == tail[k - 1]);
                            assert(whole[k + 1] == tail[k]);
                        }
                    }
                },
                Err(_) => {
                    assert(spec_decode_subs(s, i) == spec_decode_subs(s, j + 1));
                    assert forall|k: int| 0 <= k < spec_decode_subs(s, i).len() implies {
                        let r = (#[trigger] spec_decode_subs(s, i)[k]).0;
                        i <= r.start <= r.end < s.len()
                    } by {
                        assert(j + 1 <= spec_decode_subs(s, j + 1)[k].0.start
                            <= spec_decode_subs(s, j + 1)[k].0.end < s.len());
                    }
                    assert forall|k: int| 0 <= k < spec_decode_subs(s, i).len() - 1 implies (
                    #[trigger] spec_decode_subs(s, i)[k]).0.end < spec_decode_subs(s, i)[k
                        + 1].0.start by {
                        assert(spec_decode_subs(s, j + 1)[k].0.end < spec_decode_subs(
                            s,
                            j + 1,
                        )[k + 1].0.start);
                    }
                },
            }
        }
    }
}

/// A splice may pass over untouched bytes: when every substitution
/// starts at or after `m`, the bytes between `from` and `m` come out
/// verbatim.
pub proof fn lemma_splice_advance(
    src: Seq<u8>,
    subs: Seq<(CodeRange, Seq<u8>)>,
    from: int,
    m: int,
)
    requires
        0 <= from <= m <= src.len(),
        subs.len() > 0 ==> m <= subs[0].0.start <= src.len(),
    ensures
        splice_from(src, subs, from) == src.subrange(from, m) + splice_from(src, subs, m),
{
    if subs.len() == 0 {
        assert(src.subrange(from, src.len() as int) =~= src.subrange(from, m) + src.subrange(
            m,
            src.len() as int,
        ));
    } else {
        assert(src.subrange(from, subs[0].0.start as int) =~= src.subrange(from, m)
            + src.subrange(m, subs[0].0.start as int));
        assert(splice_from(src, subs, from) =~= src.subrange(from, m) + splice_from(
            src,
            subs,
            m,
        ));
    }
}

/// The spliced substitutions of the walk from `i` are exactly the
/// decoded byte stream from `i`.
#[verifier::rlimit(100)]
#[verifier::spinoff_prover]
pub proof fn lemma_decode_splice_link(s: Seq<u8>, i: int)
    requires
        0 <= i <= s.len(),
        s.len() <= usize::MAX,
    ensures
        splice_from(
            s,
            spec_decode_subs(s, i).map_values(
                |e: (CodeRange, char)| (e.0, encode_scalar(e.1 as u32)),
            ),
            i,
        ) == spec_decode_out(s, i),
    decreases s.len() - i,
{
    let m = |e: (CodeRange, char)| (e.0, encode_scalar(e.1 as u32));
    let subs = spec_decode_subs(s, i).map_values(m);
    if i >= s.len() {
        assert(subs =~= Seq::<(CodeRange, Seq<u8>)>::empty());
        assert(splice_from(s, subs, i) =~= Seq::<u8>::empty());
    } else if s[i] != 0x26 {
        lemma_decode_splice_link(s, i + 1);
        lemma_decode_subs_shape(s, i + 1);
        assert(subs =~= spec_decode_subs(s, i + 1).map_values(m));
        if subs.len() > 0 {
            assert(spec_decode_subs(s, i + 1)[0].0.start >= i + 1);
            assert(subs[0].0 == spec_decode_subs(s, i + 1)[0].0);
        }
        lemma_splice_advance(s, subs, i, i + 1);
        assert(s.subrange(i, i + 1) =~= seq![s[i]]);
    } else {
        lemma_find_term_props(s, i + 1);
        let j = find_term(s, i + 1);
        if j >= s.len() {
            assert(subs =~= Seq::<(CodeRange, Seq<u8>)>::empty());
            assert(splice_from(s, subs, i) == s.subrange(i, s.len() as int));
        } else if s[j] == 0x26 {
            lemma_decode_splice_link(s, j);
            lemma_decode_subs_shape(s, j);
            assert(subs =~= spec_decode_subs(s, j).map_values(m));
            if subs.len() > 0 {
                assert(spec_decode_subs(s, j)[0].0.start >= j);
                assert(subs[0].0 == spec_decode_subs(s, j)[0].0);
            }
            lemma_splice_advance(s, subs, i, j);
        } else if j == i + 1 {
            lemma_decode_splice_link(s, j + 1);
            lemma_decode_subs_shape(s, j + 1);
            assert(subs =~= spec_decode_subs(s, j + 1).map_values(m));
            if subs.len() > 0 {
                assert(spec_decode_subs(s, j + 1)[0].0.start >= j + 1);
                assert(subs[0].0 == spec_decode_subs(s, j + 1)[0].0);
            }
            lemma_splice_advance(s, subs, i, j + 1);
        } else {
            lemma_decode_splice_link(s, j + 1);
            lemma_decode_subs_shape(s, j + 1);
            let tail = spec_decode_subs(s, j + 1).map_values(m);
            match spec_entity_decode(s.subrange(i + 1, j)) {
                Ok(c) => {
                    let head = (CodeRange { start: i as usize, end: j as usize }, c);
                    assert(spec_decode_subs(s, i) == seq![head] + spec_decode_subs(s, j + 1));
                    assert(subs =~= seq![m(head)] + tail);
                    assert(subs[0] == m(head));
                    assert(subs.drop_first() =~= tail);
                    assert(splice_from(s, subs, i) == s.subrange(i, i as int) + encode_scalar(
                        c as u32,
                    ) + splice_from(s, tail, j + 1));
                    assert(s.subrange(i, i as int) =~= Seq::<u8>::empty());
                    assert(splice_from(s, subs, i) =~= encode_scalar(c as u32) + splice_from(
                        s,
                        tail,
                        j + 1,
                    ));
                },
                Err(_) => {
                    assert(subs =~= tail);
                    if subs.len() > 0 {
                        assert(spec_decode_subs(s, j + 1)[0].0.start >= j + 1);
                        assert(subs[0].0 == spec_decode_subs(s, j + 1)[0].0);
                    }
                    lemma_splice_advance(s, subs, i, j + 1);
                },
            }
        }
    }
}

/// The decoded logical byte stream: each substitution replaced by the
/// UTF-8 encoding of its character, everything else untouched.
pub open spec fn spec_decoded_bytes(s: Seq<u8>) -> Seq<u8> {
    splice_from(
        s,
        spec_decode_subs(s, 0).map_values(
            |e: (CodeRange, char)| (e.0, encode_scalar(e.1 as u32)),
        ),
        0,
    )
}

/// The result view of [`decode`]: the original input plus the decoded
/// substitutions and the recorded errors.
#[derive(Debug)]
pub struct DecodedData {
    inner_bytes: Vec<u8>,
    entities: Vec<(CodeRange, (char, Vec<u8>))>,
    errors: Vec<(CodeRange, DecodeErrorKind)>,
}

impl DecodedData {
    /// The input bytes the view was decoded from.
    pub closed spec fn source(self) -> Seq<u8> {
        self.inner_bytes@
    }

    /// The recorded substitutions: range and decoded character.
    pub closed spec fn subs_view(self) -> Seq<(CodeRange, char)> {
        self.entities@.map_values(|e: (CodeRange, (char, Vec<u8>))| (e.0, e.1.0))
    }

    /// The recorded errors.
    pub closed spec fn errors_view(self) -> Seq<(CodeRange, DecodeErrorKind)> {
        self.errors@
    }

    /// The substitutions with their replacement bytes.
    pub closed spec fn byte_subs(self) -> Seq<(CodeRange, Seq<u8>)> {
        self.entities@.map_values(|e: (CodeRange, (char, Vec<u8>))| (e.0, e.1.1@))
    }

    /// The substitutions with their replacement characters.
    pub closed spec fn char_subs(self) -> Seq<(CodeRange, Seq<char>)> {
        self.entities@.map_values(|e: (CodeRange, (char, Vec<u8>))| (e.0, seq![e.1.0]))
    }

    /// The view is well formed: the substitution ranges are in bounds,
    /// strictly increasing and non-overlapping, and each substitution
    /// carries the UTF-8 bytes of its character.
    pub closed spec fn wf(self) -> bool {
        &&& ranges_wf(sub_ranges(self.byte_subs()), 0, self.inner_bytes@.len() as int)
        &&& forall|k: int|
            0 <= k < self.entities@.len() ==> (#[trigger] self.entities@[k]).1.1@ == encode_scalar(
                self.entities@[k].1.0 as u32,
            )
    }

    /// True when no error was recorded.
    pub fn is_ok(&self) -> (r: bool)
        ensures
            r == (self.errors_view().len() == 0),
    {
        self.errors.is_empty()
    }

    /// The recorded errors, each with the byte range it covers.
    pub fn get_errors(&self) -> (r: &Vec<(CodeRange, DecodeErrorKind)>)
        ensures
            r@ == self.errors_view(),
    {
        &self.errors
    }

    /// Number of decoded entities.
    pub fn entity_count(&self) -> (n: usize)
        ensures
            n == self.subs_view().len(),
    {
        self.entities.len()
    }

    /// Detaches the view from its substitution list: the logical bytes
    /// are materialized into the view and the substitutions cleared.
    /// The recorded errors stay as they were.
    pub fn to_owned(&mut self)
        requires
            old(self).wf(),
        ensures
            final(self).wf(),
            final(self).logical_bytes() == old(self).logical_bytes(),
            final(self).subs_view().len() == 0,
            final(self).errors_view() == old(self).errors_view(),
    {
        if !self.entities.is_empty() {
            let bytes = decoded_splice(&self.inner_bytes, &self.entities);
            self.inner_bytes = bytes;
            self.entities.clear();
            proof {
                assert(self.byte_subs() =~= Seq::<(CodeRange, Seq<u8>)>::empty());
                crate::splice::lemma_splice_empty(self.inner_bytes@);
            }
        } else {
            proof {
                assert(self.byte_subs() =~= Seq::<(CodeRange, Seq<u8>)>::empty());
                crate::splice::lemma_splice_empty(self.inner_bytes@);
                assert(old(self).byte_subs() =~= Seq::<(CodeRange, Seq<u8>)>::empty());
                crate::splice::lemma_splice_empty(old(self).inner_bytes@);
            }
        }
    }

    /// The logical bytes, consuming the view.
    pub fn into_bytes(self) -> (r: Vec<u8>)
        requires
            self.wf(),
        ensures
            r@ == self.logical_bytes(),
    {
        if self.entities.is_empty() {
            proof {
                assert(self.byte_subs() =~= Seq::<(CodeRange, Seq<u8>)>::empty());
                crate::splice::lemma_splice_empty(self.inner_bytes@);
            }
            return self.inner_bytes;
        }
        decoded_splice(&self.inner_bytes, &self.entities)
    }

    /// The logical bytes, as a fresh vector.
    pub fn bytes(&self) -> (r: Vec<u8>)
        requires
            self.wf(),
        ensures
            r@ == self.logical_bytes(),
    {
        decoded_splice(&self.inner_bytes, &self.entities)
    }
}

impl IBytesTrait for DecodedData {
    closed spec fn inv(&self) -> bool {
        self.wf()
    }

    closed spec fn logical_bytes(&self) -> Seq<u8> {
        splice_from(self.inner_bytes@, self.byte_subs(), 0)
    }

    fn bytes_len(&self) -> (n: usize) {
        let bytes = decoded_splice(&self.inner_bytes, &self.entities);
        bytes.len()
    }

    fn byte(&self, index: usize) -> (r: Option<u8>) {
        decoded_byte_at(&self.inner_bytes, &self.entities, index)
    }
}

impl ICodedDataTrait for DecodedData {
    closed spec fn logical_chars(&self) -> Option<Seq<char>> {
        chars_splice_from(self.inner_bytes@, self.char_subs(), 0)
    }

    fn to_string(&self) -> (r: Result<String, HtmlEntityError>) {
        crate::views::bytes_to_string(self.to_bytes())
    }

    fn to_bytes(&self) -> (r: Vec<u8>) {
        decoded_splice(&self.inner_bytes, &self.entities)
    }

    fn to_chars(&self) -> (r: Result<Vec<char>, HtmlEntityError>) {
        let ghost src = self.inner_bytes@;
        let ghost subs = self.char_subs();
        let src_len = self.inner_bytes.len();
        let mut out: Vec<char> = Vec::new();
        let n = self.entities.len();
        let mut k: usize = 0;
        let mut from: usize = 0;
        proof {
            assert(subs.skip(0) =~= subs);
        }
        while k < n
            invariant
                self.wf(),
                src == self.inner_bytes@,
                subs == self.char_subs(),
                src.len() <= usize::MAX,
                0 <= k <= n,
                n == self.entities@.len(),
                k < n ==> from <= self.entities@[k as int].0.start,
                from <= src.len(),
                match chars_splice_from(src, subs.skip(k as int), from as int) {
                    Some(tail) => chars_splice_from(src, subs, 0) == Some(out@ + tail),
                    None => chars_splice_from(src, subs, 0) is None,
                },
            decreases n - k,
        {
            proof {
                assert(subs[k as int] == (self.entities@[k as int].0, seq![
                    self.entities@[k as int].1.0,
                ]));
                assert(sub_ranges(self.byte_subs())[k as int] == self.byte_subs()[k as int].0);
                assert(self.byte_subs()[k as int] == (self.entities@[k as int].0,
                    self.entities@[k as int].1.1@));
                if k + 1 < n {
                    assert(sub_ranges(self.byte_subs())[k as int + 1] == self.byte_subs()[k as int
                        + 1].0);
                    assert(self.byte_subs()[k as int + 1] == (self.entities@[k as int + 1].0,
                        self.entities@[k as int + 1].1.1@));
                }
                assert(subs.skip(k as int)[0] == subs[k as int]);
                assert(subs.skip(k as int).drop_first() =~= subs.skip(k as int + 1));
                assert(self.entities@[k as int].0.end < src.len());
            }
            let ghost out0 = out@;
            let e = &self.entities[k];
            let seg = &self.inner_bytes.as_slice()[from..e.0.start];
            let ok = crate::views::bytes_to_chars(seg, &mut out);
            proof {
                assert(seg@ == src.subrange(from as int, e.0.start as int));
            }
            if !ok {
                proof {
                    assert(crate::scan::segment_chars(src.subrange(from as int, e.0.start as int))
                        is None);
                    assert(chars_splice_from(src, subs.skip(k as int), from as int) is None);
                }
                return Err(
                    HtmlEntityError::Decode(
                        <String as vstd::string::StringExecFns>::from_str(
                            "the bytes between substitutions are not decodable",
                        ),
                    ),
                );
            }
            out.push(e.1.0);
            proof {
                let seg_chars = crate::scan::chars_of_good(
                    crate::scan::utf8_items(src.subrange(from as int, e.0.start as int), 0),
                );
                assert(crate::scan::segment_chars(src.subrange(from as int, e.0.start as int))
                    == Some(seg_chars));
                assert(out@ =~= out0 + seg_chars + seq![e.1.0]);
                if chars_splice_from(src, subs.skip(k as int + 1), e.0.end + 1) is Some {
                    let tail2 = chars_splice_from(src, subs.skip(k as int + 1), e.0.end + 1).unwrap();
                    assert(chars_splice_from(src, subs.skip(k as int), from as int) == Some(
                        seg_chars + seq![e.1.0] + tail2,
                    ));
                    assert(out0 + (seg_chars + seq![e.1.0] + tail2) =~= out@ + tail2);
                } else {
                    assert(chars_splice_from(src, subs.skip(k as int), from as int) is None);
                }
            }
            from = e.0.end + 1;
            k = k + 1;
        }
        let ghost out0 = out@;
        let tail = &self.inner_bytes.as_slice()[from..src_len];
        let ok = crate::views::bytes_to_chars(tail, &mut out);
        proof {
            assert(subs.skip(n as int) =~= Seq::<(CodeRange, Seq<char>)>::empty());
            assert(tail@ == src.subrange(from as int, src.len() as int));
        }
        if !ok {
            return Err(
                HtmlEntityError::Decode(
                    <String as vstd::string::StringExecFns>::from_str(
                        "the bytes after the last substitution are not decodable",
                    ),
                ),
            );
        }
        proof {
            let seg_chars = crate::scan::chars_of_good(
                crate::scan::utf8_items(src.subrange(from as int, src.len() as int), 0),
            );
            assert(chars_splice_from(src, subs.skip(n as int), from as int) == Some(seg_chars));
            assert(out@ =~= out0 + seg_chars);
        }
        Ok(out)
    }
}

/// Random access into a decoded view without materializing it: walks
/// the substitution list, counting logical positions.
#[verifier::rlimit(50)]
fn decoded_byte_at(
    src: &Vec<u8>,
    entities: &Vec<(CodeRange, (char, Vec<u8>))>,
    index: usize,
) -> (r: Option<u8>)
    requires
        ranges_wf(
            sub_ranges(
                entities@.map_values(|e: (CodeRange, (char, Vec<u8>))| (e.0, e.1.1@)),
            ),
            0,
            src@.len() as int,
        ),
    ensures
        ({
            let logical = splice_from(
                src@,
                entities@.map_values(|e: (CodeRange, (char, Vec<u8>))| (e.0, e.1.1@)),
                0,
            );
            &&& index < logical.len() ==> r == Some(logical[index as int])
            &&& index >= logical.len() ==> r is None
        }),
{
    let ghost subs = entities@.map_values(|e: (CodeRange, (char, Vec<u8>))| (e.0, e.1.1@));
    let ghost logical = splice_from(src@, subs, 0);
    let src_len = src.len();
    let n = entities.len();
    let mut k: usize = 0;
    let mut from: usize = 0;
    let mut rem: usize = index;
    proof {
        assert(subs.skip(0) =~= subs);
    }
    while k < n
        invariant
            subs == entities@.map_values(|e: (CodeRange, (char, Vec<u8>))| (e.0, e.1.1@)),
            logical == splice_from(src@, subs, 0),
            ranges_wf(sub_ranges(subs), 0, src@.len() as int),
            src@.len() <= usize::MAX,
            0 <= k <= n,
            n == entities@.len(),
            k < n ==> from <= entities@[k as int].0.start,
            from <= src@.len(),
            rem <= index,
            logical.len() - index == splice_from(src@, subs.skip(k as int), from as int).len()
                - rem,
            rem < splice_from(src@, subs.skip(k as int), from as int).len() ==> logical[
                index as int
            ] == splice_from(src@, subs.skip(k as int), from as int)[rem as int],
        decreases n - k,
    {
        proof {
            assert(sub_ranges(subs)[k as int] == subs[k as int].0);
            assert(subs[k as int] == (entities@[k as int].0, entities@[k as int].1.1@));
            if k + 1 < n {
                assert(sub_ranges(subs)[k as int + 1] == subs[k as int + 1].0);
                assert(subs[k as int + 1] == (
                    entities@[k as int + 1].0,
                    entities@[k as int + 1].1.1@,
                ));
            }
            assert(subs.skip(k as int)[0] == subs[k as int]);
            assert(subs.skip(k as int).drop_first() =~= subs.skip(k as int + 1));
            assert(entities@[k as int].0.end < src@.len());
        }
        let e = &entities[k];
        let ghost cur = splice_from(src@, subs.skip(k as int), from as int);
        proof {
            assert(cur == src@.subrange(from as int, e.0.start as int) + entities@[k as int].1.1@
                + splice_from(src@, subs.skip(k as int + 1), e.0.end + 1));
        }
        let gap = e.0.start - from;
        if rem < gap {
            proof {
                assert(cur[rem as int] == src@.subrange(from as int, e.0.start as int)[
                    rem as int
                ]);
                assert(index < logical.len());
            }
            return Some(src[from + rem]);
        }
        let repl_len = e.1.1.len();
        if rem - gap < repl_len {
            proof {
                assert(cur[rem as int] == entities@[k as int].1.1@[rem - gap]);
                assert(index < logical.len());
            }
            return Some(e.1.1[rem - gap]);
        }
        proof {
            let rem2 = rem - gap - repl_len;
            let tail = splice_from(src@, subs.skip(k as int + 1), e.0.end + 1);
            assert(cur.len() == gap + repl_len + tail.len());
            if rem2 < tail.len() {
                assert(cur[rem as int] == tail[rem2 as int]);
            }
        }
        rem = rem - gap - repl_len;
        from = e.0.end + 1;
        k = k + 1;
    }
    proof {
        assert(subs.skip(n as int) =~= Seq::<(CodeRange, Seq<u8>)>::empty());
        assert(splice_from(src@, subs.skip(n as int), from as int) == src@.subrange(
            from as int,
            src@.len() as int,
        ));
    }
    if rem < src_len - from {
        proof {
            assert(src@.subrange(from as int, src@.len() as int)[rem as int] == src@[from
                + rem]);
            assert(index < logical.len());
        }
        Some(src[from + rem])
    } else {
        proof {
            assert(index >= logical.len());
        }
        None
    }
}

/// Materializes a decoded view: input bytes with each substitution
/// range replaced by the stored UTF-8 bytes.
#[verifier::rlimit(50)]
fn decoded_splice(src: &Vec<u8>, entities: &Vec<(CodeRange, (char, Vec<u8>))>) -> (out: Vec<u8>)
    requires
        ranges_wf(
            sub_ranges(
                entities@.map_values(|e: (CodeRange, (char, Vec<u8>))| (e.0, e.1.1@)),
            ),
            0,
            src@.len() as int,
        ),
    ensures
        out@ == splice_from(
            src@,
            entities@.map_values(|e: (CodeRange, (char, Vec<u8>))| (e.0, e.1.1@)),
            0,
        ),
{
    let ghost subs = entities@.map_values(|e: (CodeRange, (char, Vec<u8>))| (e.0, e.1.1@));
    let src_len = src.len();
    let mut out: Vec<u8> = Vec::new();
    let n = entities.len();
    let mut k: usize = 0;
    let mut from: usize = 0;
    proof {
        assert(subs.skip(0) =~= subs);
    }
    while k < n
        invariant
            subs == entities@.map_values(|e: (CodeRange, (char, Vec<u8>))| (e.0, e.1.1@)),
            ranges_wf(sub_ranges(subs), 0, src@.len() as int),
            src@.len() <= usize::MAX,
            0 <= k <= n,
            n == entities@.len(),
            k < n ==> from <= entities@[k as int].0.start,
            from <= src@.len(),
            out@ + splice_from(src@, subs.skip(k as int), from as int) == splice_from(
                src@,
                subs,
                0,
            ),
        decreases n - k,
    {
        proof {
            assert(sub_ranges(subs)[k as int] == subs[k as int].0);
            assert(subs[k as int] == (entities@[k as int].0, entities@[k as int].1.1@));
            if k + 1 < n {
                assert(sub_ranges(subs)[k as int + 1] == subs[k as int + 1].0);
                assert(subs[k as int + 1] == (
                    entities@[k as int + 1].0,
                    entities@[k as int + 1].1.1@,
                ));
            }
        }
        let ghost out0 = out@;
        let e = &entities[k];
        out.extend_from_slice(&src.as_slice()[from..e.0.start]);
        out.extend_from_slice(e.1.1.as_slice());
        proof {
            assert(entities@[k as int].0.end < src@.len());
            assert(subs.skip(k as int)[0] == subs[k as int]);
            assert(subs.skip(k as int).drop_first() =~= subs.skip(k as int + 1));
            assert(splice_from(src@, subs.skip(k as int), from as int) == src@.subrange(
                from as int,
                e.0.start as int,
            ) + entities@[k as int].1.1@ + splice_from(
                src@,
                subs.skip(k as int + 1),
                e.0.end + 1,
            ));
            assert(out@ =~= out0 + src@.subrange(from as int, e.0.start as int)
                + entities@[k as int].1.1@);
            assert(out@ + splice_from(src@, subs.skip(k as int + 1), e.0.end + 1) =~= out0
                + splice_from(src@, subs.skip(k as int), from as int));
        }
        from = e.0.end + 1;
        k = k + 1;
    }
    let ghost out0 = out@;
    out.extend_from_slice(&src.as_slice()[from..src_len]);
    proof {
        assert(subs.skip(n as int) =~= Seq::<(CodeRange, Seq<u8>)>::empty());
        assert(splice_from(src@, subs.skip(n as int), from as int) == src@.subrange(
            from as int,
            src@.len() as int,
        ));
        assert(out@ =~= out0 + src@.subrange(from as int, src@.len() as int));
    }
    out
}

/// Decodes the html entities in the given bytes into a zero-copy view:
/// the substitutions hold every resolved `&…;` token, and the errors
/// every rejected one; rejected bytes pass through unchanged.
#[verifier::rlimit(100)]
#[verifier::spinoff_prover]
pub fn decode(content: &[u8]) -> (r: DecodedData)
    ensures
        r.wf(),
        r.inv(),
        r.source() == content@,
        r.subs_view() == spec_decode_subs(content@, 0),
        r.errors_view() == spec_decode_errs(content@, 0),
        r.byte_subs() == spec_decode_subs(content@, 0).map_values(
            |e: (CodeRange, char)| (e.0, encode_scalar(e.1 as u32)),
        ),
        r.char_subs() == spec_decode_subs(content@, 0).map_values(
            |e: (CodeRange, char)| (e.0, seq![e.1]),
        ),
        r.logical_bytes() == spec_decoded_bytes(content@),
        r.logical_chars() == chars_splice_from(
            content@,
            spec_decode_subs(content@, 0).map_values(|e: (CodeRange, char)| (e.0, seq![e.1])),
            0,
        ),
{
    let table = build_by_name_table();
    let n = content.len();
    let mut entities: Vec<(CodeRange, (char, Vec<u8>))> = Vec::new();
    let mut errors: Vec<(CodeRange, DecodeErrorKind)> = Vec::new();
    let mut i: usize = 0;
    while i < n
        invariant
            is_name_table(table@),
            0 <= i <= n,
            n == content@.len(),
            spec_decode_subs(content@, 0) == entities@.map_values(
                |e: (CodeRange, (char, Vec<u8>))| (e.0, e.1.0),
            ) + spec_decode_subs(content@, i as int),
            spec_decode_errs(content@, 0) == errors@ + spec_decode_errs(content@, i as int),
            forall|k: int|
                0 <= k < entities@.len() ==> (#[trigger] entities@[k]).0.start
                    <= entities@[k].0.end < i,
            forall|k: int|
                0 <= k < entities@.len() - 1 ==> (#[trigger] entities@[k]).0.end
                    < entities@[k + 1].0.start,
            forall|k: int|
                0 <= k < entities@.len() ==> (#[trigger] entities@[k]).1.1@ == encode_scalar(
                    entities@[k].1.0 as u32,
                ),
        decreases n - i,
    {
        let b = content[i];
        if b != 0x26 {
            i = i + 1;
        } else {
            // scan for the first `;` or `&` after the opening ampersand
            let mut j = i + 1;
            let mut found = false;
            while j < n && !found
                invariant
                    i + 1 <= j <= n,
                    n == content@.len(),
                    forall|m: int| i + 1 <= m < j ==> content@[m] != 0x3b && content@[m] != 0x26,
                    found ==> j < n && (content@[j as int] == 0x3b || content@[j as int] == 0x26),
                decreases n - j, (if found { 0int } else { 1int }),
            {
                let c = content[j];
                if c == 0x3b || c == 0x26 {
                    found = true;
                } else {
                    j = j + 1;
                }
            }
            proof {
                if found {
                    lemma_find_term_is(content@, i as int + 1, j as int);
                } else {
                    lemma_find_term_is(content@, i as int + 1, n as int);
                }
            }
            if !found {
                // the input ended inside an open entity
                errors.push(
                    (
                        CodeRange { start: i, end: n - 1 },
                        DecodeErrorKind::UnterminatedEntity,
                    ),
                );
                proof {
                    assert(spec_decode_subs(content@, i as int) =~= Seq::<(
                        CodeRange,
                        char,
                    )>::empty());
                    assert(spec_decode_subs(content@, 0) =~= entities@.map_values(
                        |e: (CodeRange, (char, Vec<u8>))| (e.0, e.1.0),
                    ) + spec_decode_subs(content@, n as int));
                    assert(errors@ =~= errors@.subrange(0, errors@.len() - 1)
                        + spec_decode_errs(content@, i as int));
                    assert(spec_decode_errs(content@, 0) =~= errors@ + spec_decode_errs(
                        content@,
                        n as int,
                    ));
                }
                i = n;
            } else {
                let c = content[j];
                if c == 0x26 {
                    // a second ampersand restarts the entity scan
                    errors.push(
                        (
                            CodeRange { start: i, end: i },
                            DecodeErrorKind::UnencodedAmpersand,
                        ),
                    );
                    proof {
                        assert(spec_decode_errs(content@, 0) =~= errors@ + spec_decode_errs(
                            content@,
                            j as int,
                        ));
                    }
                    i = j;
                } else if j == i + 1 {
                    // `&;`
                    errors.push((CodeRange { start: i, end: j }, DecodeErrorKind::EmptyEntity));
                    proof {
                        assert(spec_decode_errs(content@, 0) =~= errors@ + spec_decode_errs(
                            content@,
                            j as int + 1,
                        ));
                    }
                    i = j + 1;
                } else {
                    let token = &content[i + 1..j];
                    match entity_decode_with(&table, token) {
                        Ok(ch) => {
                            let utf8 = char_to_utf8_bytes(ch);
                            entities.push((CodeRange { start: i, end: j }, (ch, utf8)));
                            proof {
                                assert(entities@.map_values(
                                    |e: (CodeRange, (char, Vec<u8>))| (e.0, e.1.0),
                                ) =~= entities@.subrange(0, entities@.len() - 1).map_values(
                                    |e: (CodeRange, (char, Vec<u8>))| (e.0, e.1.0),
                                ) + seq![(CodeRange { start: i, end: j }, ch)]);
                                assert(spec_decode_subs(content@, 0) =~= entities@.map_values(
                                    |e: (CodeRange, (char, Vec<u8>))| (e.0, e.1.0),
                                ) + spec_decode_subs(content@, j as int + 1));
                            }
                            i = j + 1;
                        },
                        Err(kind) => {
                            errors.push((CodeRange { start: i, end: j }, kind));
                            proof {
                                assert(spec_decode_errs(content@, 0) =~= errors@
                                    + spec_decode_errs(content@, j as int + 1));
                            }
                            i = j + 1;
                        },
                    }
                }
            }
        }
    }
    let r = DecodedData {
        inner_bytes: vstd::slice::slice_to_vec(content),
        entities,
        errors,
    };
    proof {
        assert(spec_decode_subs(content@, n as int) =~= Seq::<(CodeRange, char)>::empty());
        assert(spec_decode_errs(content@, n as int) =~= Seq::<(
            CodeRange,
            DecodeErrorKind,
        )>::empty());
        assert(r.subs_view() =~= r.subs_view() + spec_decode_subs(content@, n as int));
        assert(r.errors_view() =~= r.errors_view() + spec_decode_errs(content@, n as int));
        assert(r.byte_subs() =~= spec_decode_subs(content@, 0).map_values(
            |e: (CodeRange, char)| (e.0, encode_scalar(e.1 as u32)),
        ));
        assert(r.char_subs() =~= spec_decode_subs(content@, 0).map_values(
            |e: (CodeRange, char)| (e.0, seq![e.1]),
        ));
    }
    r
}

/// Like [`decode`], but writes the decoded logical bytes directly onto
/// the end of `data`.
pub fn decode_to(content: &[u8], data: &mut Vec<u8>)
    ensures
        final(data)@ == old(data)@ + spec_decoded_bytes(content@),
{
    let decoded = decode(content);
    let mut bytes = decoded.to_bytes();
    proof {
        assert(decoded.byte_subs() =~= spec_decode_subs(content@, 0).map_values(
            |e: (CodeRange, char)| (e.0, encode_scalar(e.1 as u32)),
        ));
    }
    data.append(&mut bytes);
}

/// Position of the first `;` or `&` character at or after `j`, or the
/// input length when there is none.
pub open spec fn find_term_chars(cs: Seq<char>, j: int) -> int
    decreases cs.len() - j,
{
    if j < 0 || j >= cs.len() {
        cs.len() as int
    } else if cs[j] == ';' || cs[j] == '&' {
        j
    } else {
        find_term_chars(cs, j + 1)
    }
}

/// The terminator position lies between the scan start and the input
/// length, no terminator character lies before it, and it points at a
/// terminator whenever it is inside the input.
pub proof fn lemma_find_term_chars_props(cs: Seq<char>, j: int)
    requires
        0 <= j <= cs.len(),
    ensures
        j <= find_term_chars(cs, j) <= cs.len(),
        forall|m: int| j <= m < find_term_chars(cs, j) ==> cs[m] != ';' && cs[m] != '&',
        find_term_chars(cs, j) < cs.len() ==> (cs[find_term_chars(cs, j)] == ';' || cs[
            find_term_chars(cs, j)
        ] == '&'),
    decreases cs.len() - j,
{
    if j < cs.len() && !(cs[j] == ';' || cs[j] == '&') {
        lemma_find_term_chars_props(cs, j + 1);
    }
}

/// A position that carries a terminator, with none before it, is the
/// terminator position; so is the input length when no terminator
/// follows the scan start.
pub proof fn lemma_find_term_chars_is(cs: Seq<char>, j: int, k: int)
    requires
        0 <= j <= k <= cs.len(),
        forall|m: int| j <= m < k ==> cs[m] != ';' && cs[m] != '&',
        k < cs.len() ==> (cs[k] == ';' || cs[k] == '&'),
    ensures
        find_term_chars(cs, j) == k,
    decreases k - j,
{
    if j < k {
        lemma_find_term_chars_is(cs, j + 1, k);
    }
}

/// True when every character of the token is an ASCII byte.
pub open spec fn chars_ascii(cs: Seq<char>) -> bool {
    forall|k: int| 0 <= k < cs.len() ==> (#[trigger] cs[k]) as u32 <= 0x7F
}

/// The token characters read as bytes.
pub open spec fn chars_to_bytes(cs: Seq<char>) -> Seq<u8> {
    cs.map_values(|c: char| (c as u32) as u8)
}

/// What a character-domain token between `&` and `;` resolves to: its
/// characters must be ASCII, and the bytes must then resolve through
/// the recognizer; otherwise the token stands.
pub open spec fn char_token_decode(token: Seq<char>) -> Option<char> {
    if chars_ascii(token) {
        match spec_entity_decode(chars_to_bytes(token)) {
            Ok(c) => Some(c),
            Err(_) => None,
        }
    } else {
        None
    }
}

/// The decoded character stream of the character-domain walk from
/// position `i`: resolved `&…;` tokens become their character, and
/// everything else — including every rejected token — stands
/// unchanged.
pub open spec fn spec_decode_chars_from(cs: Seq<char>, i: int) -> Seq<char>
    decreases cs.len() - i,
    via spec_decode_chars_from_dec
{
    if i < 0 || i >= cs.len() {
        seq![]
    } else if cs[i] != '&' {
        seq![cs[i]] + spec_decode_chars_from(cs, i + 1)
    } else {
        let j = find_term_chars(cs, i + 1);
        if j >= cs.len() {
            cs.subrange(i, cs.len() as int)
        } else if cs[j] == '&' {
            cs.subrange(i, j) + spec_decode_chars_from(cs, j)
        } else if j == i + 1 {
            cs.subrange(i, j + 1) + spec_decode_chars_from(cs, j + 1)
        } else {
            match char_token_decode(cs.subrange(i + 1, j)) {
                Some(c) => seq![c] + spec_decode_chars_from(cs, j + 1),
                None => cs.subrange(i, j + 1) + spec_decode_chars_from(cs, j + 1),
            }
        }
    }
}

#[via_fn]
proof fn spec_decode_chars_from_dec(cs: Seq<char>, i: int) {
    if 0 <= i < cs.len() && cs[i] == '&' {
        lemma_find_term_chars_props(cs, i + 1);
    }
}

/// Reads an entity token of ASCII characters as bytes; a character
/// beyond ASCII rejects the token.
fn tr_chars_to_utf8_bytes(chars: &[char]) -> (r: Option<Vec<u8>>)
    ensures
        match r {
            Some(b) => chars_ascii(chars@) && b@ == chars_to_bytes(chars@),
            None => !chars_ascii(chars@),
        },
{
    let n = chars.len();
    let mut bytes: Vec<u8> = Vec::new();
    let mut i: usize = 0;
    while i < n
        invariant
            0 <= i <= n,
            n == chars@.len(),
            forall|k: int| 0 <= k < i ==> (#[trigger] chars@[k]) as u32 <= 0x7F,
            bytes@ == chars@.subrange(0, i as int).map_values(|c: char| (c as u32) as u8),
        decreases n - i,
    {
        let c = chars[i];
        if (c as u32) > 0x7F {
            return None;
        }
        bytes.push((c as u32) as u8);
        proof {
            assert(chars@.subrange(0, i + 1 as int).map_values(|c: char| (c as u32) as u8)
                =~= chars@.subrange(0, i as int).map_values(|c: char| (c as u32) as u8) + seq![
                (chars@[i as int] as u32) as u8,
            ]);
        }
        i = i + 1;
    }
    proof {
        assert(chars@.subrange(0, n as int) =~= chars@);
    }
    Some(bytes)
}

/// The character-domain decode walk, against a prebuilt name table,
/// appending onto `data`.
fn decode_chars_core(table: &Vec<(Vec<u8>, u32)>, chars: &[char], data: &mut Vec<char>)
    requires
        is_name_table(table@),
    ensures
        final(data)@ == old(data)@ + spec_decode_chars_from(chars@, 0),
{
    let ghost cs = chars@;
    let n = chars.len();
    let mut i: usize = 0;
    while i < n
        invariant
            is_name_table(table@),
            cs == chars@,
            0 <= i <= n,
            n == cs.len(),
            data@ + spec_decode_chars_from(cs, i as int) == old(data)@ + spec_decode_chars_from(
                cs,
                0,
            ),
        decreases n - i,
    {
        let ghost data0 = data@;
        let c = chars[i];
        if c != '&' {
            data.push(c);
            proof {
                assert(spec_decode_chars_from(cs, i as int) == seq![cs[i as int]]
                    + spec_decode_chars_from(cs, i as int + 1));
                assert(data@ + spec_decode_chars_from(cs, i as int + 1) =~= data0
                    + spec_decode_chars_from(cs, i as int));
            }
            i = i + 1;
        } else {
            let mut j = i + 1;
            let mut found = false;
            while j < n && !found
                invariant
                    cs == chars@,
                    i + 1 <= j <= n,
                    n == cs.len(),
                    forall|m: int| i + 1 <= m < j ==> cs[m] != ';' && cs[m] != '&',
                    found ==> j < n && (cs[j as int] == ';' || cs[j as int] == '&'),
                decreases n - j, (if found { 0int } else { 1int }),
            {
                let t = chars[j];
                if t == ';' || t == '&' {
                    found = true;
                } else {
                    j = j + 1;
                }
            }
            proof {
                if found {
                    lemma_find_term_chars_is(cs, i as int + 1, j as int);
                } else {
                    lemma_find_term_chars_is(cs, i as int + 1, n as int);
                }
            }
            if !found {
                // the input ended inside an open entity: it stands
                out_chars_range(data, chars, i, n);
                proof {
                    assert(spec_decode_chars_from(cs, i as int) == cs.subrange(
                        i as int,
                        n as int,
                    ));
                    assert(spec_decode_chars_from(cs, n as int) =~= Seq::<char>::empty());
                    assert(data@ + spec_decode_chars_from(cs, n as int) =~= data0
                        + spec_decode_chars_from(cs, i as int));
                }
                i = n;
            } else {
                let t = chars[j];
                if t == '&' {
                    // a second ampersand restarts the entity scan
                    out_chars_range(data, chars, i, j);
                    proof {
                        assert(spec_decode_chars_from(cs, i as int) == cs.subrange(
                            i as int,
                            j as int,
                        ) + spec_decode_chars_from(cs, j as int));
                        assert(data@ + spec_decode_chars_from(cs, j as int) =~= data0
                            + spec_decode_chars_from(cs, i as int));
                    }
                    i = j;
                } else if j == i + 1 {
                    // `&;` stands
                    out_chars_range(data, chars, i, j + 1);
                    proof {
                        assert(spec_decode_chars_from(cs, i as int) == cs.subrange(
                            i as int,
                            j as int + 1,
                        ) + spec_decode_chars_from(cs, j as int + 1));
                        assert(data@ + spec_decode_chars_from(cs, j as int + 1) =~= data0
                            + spec_decode_chars_from(cs, i as int));
                    }
                    i = j + 1;
                } else {
                    let token = &chars[i + 1..j];
                    let mut resolved: Option<char> = None;
                    match tr_chars_to_utf8_bytes(token) {
                        Some(bytes) => {
                            match crate::entity::entity_decode_with(table, bytes.as_slice()) {
                                Ok(ch) => {
                                    resolved = Some(ch);
                                },
                                Err(_) => {},
                            }
                        },
                        None => {},
                    }
                    proof {
                        assert(token@ == cs.subrange(i as int + 1, j as int));
                        match resolved {
                            Some(ch) => {
                                assert(char_token_decode(cs.subrange(i as int + 1, j as int))
                                    == Some(ch));
                            },
                            None => {
                                assert(char_token_decode(cs.subrange(i as int + 1, j as int))
                                    is None);
                            },
                        }
                    }
                    match resolved {
                        Some(ch) => {
                            data.push(ch);
                            proof {
                                assert(spec_decode_chars_from(cs, i as int) == seq![ch]
                                    + spec_decode_chars_from(cs, j as int + 1));
                                assert(data@ + spec_decode_chars_from(cs, j as int + 1) =~= data0
                                    + spec_decode_chars_from(cs, i as int));
                            }
                        },
                        None => {
                            out_chars_range(data, chars, i, j + 1);
                            proof {
                                assert(spec_decode_chars_from(cs, i as int) == cs.subrange(
                                    i as int,
                                    j as int + 1,
                                ) + spec_decode_chars_from(cs, j as int + 1));
                                assert(data@ + spec_decode_chars_from(cs, j as int + 1) =~= data0
                                    + spec_decode_chars_from(cs, i as int));
                            }
                        },
                    }
                    i = j + 1;
                }
            }
        }
    }
    proof {
        assert(spec_decode_chars_from(cs, n as int) =~= Seq::<char>::empty());
        assert(data@ =~= data@ + spec_decode_chars_from(cs, n as int));
    }
}

/// Appends the characters `src[a..b]` onto `out`.
fn out_chars_range(out: &mut Vec<char>, src: &[char], a: usize, b: usize)
    requires
        a <= b <= src@.len(),
    ensures
        final(out)@ == old(out)@ + src@.subrange(a as int, b as int),
{
    let piece = &src[a..b];
    let mut v = vstd::slice::slice_to_vec(piece);
    out.append(&mut v);
}

/// Decodes the html entities in a list of characters: every resolved
/// `&…;` token becomes its character, everything else stands.
pub fn decode_chars(chars: &[char]) -> (r: Vec<char>)
    ensures
        r@ == spec_decode_chars_from(chars@, 0),
{
    let mut data: Vec<char> = Vec::new();
    decode_chars_to(chars, &mut data);
    data
}

/// Like [`decode_chars`], but writes the characters directly onto the
/// end of `data`.
pub fn decode_chars_to(chars: &[char], data: &mut Vec<char>)
    ensures
        final(data)@ == old(data)@ + spec_decode_chars_from(chars@, 0),
{
    let table = build_by_name_table();
    decode_chars_core(&table, chars, data);
}


impl DecodedData {
    /// An iterator over the logical bytes, each tagged with its
    /// position inside a substitution, if any.
    pub fn into_iter(&self) -> (it: crate::views::DataIter)
        requires
            self.wf(),
        ensures
            it.items_view() == crate::views::tagged_splice_from(
                self.source(),
                self.byte_subs(),
                0,
                0,
            ),
            it.position() == 0,
    {
        let ghost subs = self.byte_subs();
        let src_len = self.inner_bytes.len();
        let mut items: Vec<(u8, Option<(usize, usize)>)> = Vec::new();
        let n = self.entities.len();
        let mut k: usize = 0;
        let mut from: usize = 0;
        proof {
            assert(subs.skip(0) =~= subs);
        }
        while k < n
            invariant
                self.wf(),
                subs == self.byte_subs(),
                self.inner_bytes@.len() <= usize::MAX,
                0 <= k <= n,
                n == self.entities@.len(),
                k < n ==> from <= self.entities@[k as int].0.start,
                from <= self.inner_bytes@.len(),
                items@ + crate::views::tagged_splice_from(
                    self.inner_bytes@,
                    subs.skip(k as int),
                    from as int,
                    k as int,
                ) == crate::views::tagged_splice_from(self.inner_bytes@, subs, 0, 0),
            decreases n - k,
        {
            proof {
                assert(sub_ranges(subs)[k as int] == subs[k as int].0);
                assert(subs[k as int] == (self.entities@[k as int].0, self.entities@[k as int].1.1@));
                if k + 1 < n {
                    assert(sub_ranges(subs)[k as int + 1] == subs[k as int + 1].0);
                    assert(subs[k as int + 1] == (self.entities@[k as int + 1].0, self.entities@[k as int + 1].1.1@));
                }
            }
            let ghost items0 = items@;
            let e = &self.entities[k];
            crate::views::push_tagged_segment(
                &mut items,
                self.inner_bytes.as_slice(),
                from,
                e.0.start,
            );
            
            crate::views::push_tagged_entity(&mut items, &e.1.1, k);
            proof {
                assert(self.entities@[k as int].0.end < self.inner_bytes@.len());
                assert(subs.skip(k as int)[0] == subs[k as int]);
                assert(subs.skip(k as int).drop_first() =~= subs.skip(k as int + 1));
                assert(crate::views::tagged_splice_from(
                    self.inner_bytes@,
                    subs.skip(k as int),
                    from as int,
                    k as int,
                ) == self.inner_bytes@.subrange(from as int, e.0.start as int).map_values(
                    |x: u8| (x, None::<(usize, usize)>),
                ) + Seq::new(
                    subs[k as int].1.len(),
                    |j: int| (subs[k as int].1[j], Some((k, j as usize))),
                ) + crate::views::tagged_splice_from(
                    self.inner_bytes@,
                    subs.skip(k as int + 1),
                    e.0.end + 1,
                    k as int + 1,
                ));
                assert(items@ =~= items0 + self.inner_bytes@.subrange(
                    from as int,
                    e.0.start as int,
                ).map_values(|x: u8| (x, None::<(usize, usize)>)) + Seq::new(
                    subs[k as int].1.len(),
                    |j: int| (subs[k as int].1[j], Some((k, j as usize))),
                ));
                assert(items@ + crate::views::tagged_splice_from(
                    self.inner_bytes@,
                    subs.skip(k as int + 1),
                    e.0.end + 1,
                    k as int + 1,
                ) =~= items0 + crate::views::tagged_splice_from(
                    self.inner_bytes@,
                    subs.skip(k as int),
                    from as int,
                    k as int,
                ));
            }
            from = e.0.end + 1;
            k = k + 1;
        }
        let ghost items0 = items@;
        crate::views::push_tagged_segment(&mut items, self.inner_bytes.as_slice(), from, src_len);
        proof {
            assert(subs.skip(n as int) =~= Seq::<(CodeRange, Seq<u8>)>::empty());
            assert(crate::views::tagged_splice_from(
                self.inner_bytes@,
                subs.skip(n as int),
                from as int,
                n as int,
            ) == self.inner_bytes@.subrange(
                from as int,
                self.inner_bytes@.len() as int,
            ).map_values(|x: u8| (x, None::<(usize, usize)>)));
            assert(items@ =~= items0 + self.inner_bytes@.subrange(
                from as int,
                self.inner_bytes@.len() as int,
            ).map_values(|x: u8| (x, None::<(usize, usize)>)));
        }
        crate::views::DataIter::new(items)
    }
}

} // verus!
