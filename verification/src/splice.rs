//! The logical byte stream of a coded-data view.
//!
//! A view holds the original input together with an ordered run of
//! non-overlapping substitutions, each replacing an inclusive byte
//! range of the input. The logical stream splices the replacements
//! into the untouched input bytes; everything a view exposes is
//! specified against [`splice_from`].

use vstd::prelude::*;

use crate::CodeRange;

verus! {

/// True when the ranges are in bounds of an input of length `len`,
/// each range is non-empty, and the ranges are strictly increasing and
/// non-overlapping, with the first one no earlier than `from`.
pub open spec fn ranges_wf(subs: Seq<CodeRange>, from: int, len: int) -> bool {
    &&& forall|k: int|
        0 <= k < subs.len() ==> (#[trigger] subs[k]).start <= subs[k].end < len
    &&& forall|k: int|
        0 <= k < subs.len() - 1 ==> (#[trigger] subs[k]).end < subs[k + 1].start
    &&& (subs.len() > 0 ==> from <= subs[0].start)
    &&& 0 <= from <= len
}

/// The spliced byte stream: the input bytes from `from` on, with each
/// substitution's range replaced by its bytes.
pub open spec fn splice_from(src: Seq<u8>, subs: Seq<(CodeRange, Seq<u8>)>, from: int) -> Seq<u8>
    recommends
        ranges_wf(subs.map_values(|e: (CodeRange, Seq<u8>)| e.0), from, src.len() as int),
    decreases subs.len(),
{
    if subs.len() == 0 {
        src.subrange(from, src.len() as int)
    } else {
        src.subrange(from, subs[0].0.start as int) + subs[0].1 + splice_from(
            src,
            subs.drop_first(),
            subs[0].0.end + 1,
        )
    }
}

/// Dropping the ranges of a substitution run.
pub open spec fn sub_ranges(subs: Seq<(CodeRange, Seq<u8>)>) -> Seq<CodeRange> {
    subs.map_values(|e: (CodeRange, Seq<u8>)| e.0)
}

/// The spliced character stream: every untouched segment is read by the
/// tolerant UTF-8 walk, every substitution contributes its own
/// characters; nothing when some segment holds a malformed run.
pub open spec fn chars_splice_from(
    src: Seq<u8>,
    subs: Seq<(CodeRange, Seq<char>)>,
    from: int,
) -> Option<Seq<char>>
    decreases subs.len(),
{
    if subs.len() == 0 {
        crate::scan::segment_chars(src.subrange(from, src.len() as int))
    } else {
        match crate::scan::segment_chars(src.subrange(from, subs[0].0.start as int)) {
            Some(cs) => match chars_splice_from(src, subs.drop_first(), subs[0].0.end + 1) {
                Some(tail) => Some(cs + subs[0].1 + tail),
                None => None,
            },
            None => None,
        }
    }
}

/// A run with no substitutions leaves the input unchanged.
pub proof fn lemma_splice_empty(src: Seq<u8>)
    ensures
        splice_from(src, Seq::<(CodeRange, Seq<u8>)>::empty(), 0) == src,
{
    assert(splice_from(src, Seq::<(CodeRange, Seq<u8>)>::empty(), 0) =~= src);
}

} // verus!
