//! The built-in entity tables.
//!
//! An entity record pairs an ASCII name (without the surrounding `&`
//! and `;`) with its Unicode code point. The same records are kept in
//! two orders: by code point, with the preferred name first among
//! names that share a code point (shortest name first, lowercase
//! before uppercase at equal length), for the encoder; and strictly
//! sorted by name bytes, for the decoder.

use vstd::prelude::*;

use crate::search::{lex_lt, name_wf, preferred_le};

verus! {

/// Number of records in each table.
pub open spec fn table_len() -> int {
    65
}

/// Record `i` of the code-ordered table.
pub open spec fn by_code_entry(i: int) -> (Seq<u8>, u32) {
    if i == 0 {  // Tab
        (seq![0x54u8, 0x61u8, 0x62u8], 9u32)
    } else if i == 1 {  // NewLine
        (seq![0x4eu8, 0x65u8, 0x77u8, 0x4cu8, 0x69u8, 0x6eu8, 0x65u8], 10u32)
    } else if i == 2 {  // quot
        (seq![0x71u8, 0x75u8, 0x6fu8, 0x74u8], 34u32)
    } else if i == 3 {  // QUOT
        (seq![0x51u8, 0x55u8, 0x4fu8, 0x54u8], 34u32)
    } else if i == 4 {  // amp
        (seq![0x61u8, 0x6du8, 0x70u8], 38u32)
    } else if i == 5 {  // AMP
        (seq![0x41u8, 0x4du8, 0x50u8], 38u32)
    } else if i == 6 {  // apos
        (seq![0x61u8, 0x70u8, 0x6fu8, 0x73u8], 39u32)
    } else if i == 7 {  // lt
        (seq![0x6cu8, 0x74u8], 60u32)
    } else if i == 8 {  // LT
        (seq![0x4cu8, 0x54u8], 60u32)
    } else if i == 9 {  // gt
        (seq![0x67u8, 0x74u8], 62u32)
    } else if i == 10 {  // GT
        (seq![0x47u8, 0x54u8], 62u32)
    } else if i == 11 {  // nbsp
        (seq![0x6eu8, 0x62u8, 0x73u8, 0x70u8], 160u32)
    } else if i == 12 {  // iexcl
        (seq![0x69u8, 0x65u8, 0x78u8, 0x63u8, 0x6cu8], 161u32)
    } else if i == 13 {  // cent
        (seq![0x63u8, 0x65u8, 0x6eu8, 0x74u8], 162u32)
    } else if i == 14 {  // pound
        (seq![0x70u8, 0x6fu8, 0x75u8, 0x6eu8, 0x64u8], 163u32)
    } else if i == 15 {  // yen
        (seq![0x79u8, 0x65u8, 0x6eu8], 165u32)
    } else if i == 16 {  // sect
        (seq![0x73u8, 0x65u8, 0x63u8, 0x74u8], 167u32)
    } else if i == 17 {  // copy
        (seq![0x63u8, 0x6fu8, 0x70u8, 0x79u8], 169u32)
    } else if i == 18 {  // laquo
        (seq![0x6cu8, 0x61u8, 0x71u8, 0x75u8, 0x6fu8], 171u32)
    } else if i == 19 {  // reg
        (seq![0x72u8, 0x65u8, 0x67u8], 174u32)
    } else if i == 20 {  // deg
        (seq![0x64u8, 0x65u8, 0x67u8], 176u32)
    } else if i == 21 {  // plusmn
        (seq![0x70u8, 0x6cu8, 0x75u8, 0x73u8, 0x6du8, 0x6eu8], 177u32)
    } else if i == 22 {  // micro
        (seq![0x6du8, 0x69u8, 0x63u8, 0x72u8, 0x6fu8], 181u32)
    } else if i == 23 {  // para
        (seq![0x70u8, 0x61u8, 0x72u8, 0x61u8], 182u32)
    } else if i == 24 {  // middot
        (seq![0x6du8, 0x69u8, 0x64u8, 0x64u8, 0x6fu8, 0x74u8], 183u32)
    } else if i == 25 {  // raquo
        (seq![0x72u8, 0x61u8, 0x71u8, 0x75u8, 0x6fu8], 187u32)
    } else if i == 26 {  // iquest
        (seq![0x69u8, 0x71u8, 0x75u8, 0x65u8, 0x73u8, 0x74u8], 191u32)
    } else if i == 27 {  // times
        (seq![0x74u8, 0x69u8, 0x6du8, 0x65u8, 0x73u8], 215u32)
    } else if i == 28 {  // szlig
        (seq![0x73u8, 0x7au8, 0x6cu8, 0x69u8, 0x67u8], 223u32)
    } else if i == 29 {  // agrave
        (seq![0x61u8, 0x67u8, 0x72u8, 0x61u8, 0x76u8, 0x65u8], 224u32)
    } else if i == 30 {  // ccedil
        (seq![0x63u8, 0x63u8, 0x65u8, 0x64u8, 0x69u8, 0x6cu8], 231u32)
    } else if i == 31 {  // eacute
        (seq![0x65u8, 0x61u8, 0x63u8, 0x75u8, 0x74u8, 0x65u8], 233u32)
    } else if i == 32 {  // ntilde
        (seq![0x6eu8, 0x74u8, 0x69u8, 0x6cu8, 0x64u8, 0x65u8], 241u32)
    } else if i == 33 {  // divide
        (seq![0x64u8, 0x69u8, 0x76u8, 0x69u8, 0x64u8, 0x65u8], 247u32)
    } else if i == 34 {  // uuml
        (seq![0x75u8, 0x75u8, 0x6du8, 0x6cu8], 252u32)
    } else if i == 35 {  // alpha
        (seq![0x61u8, 0x6cu8, 0x70u8, 0x68u8, 0x61u8], 945u32)
    } else if i == 36 {  // beta
        (seq![0x62u8, 0x65u8, 0x74u8, 0x61u8], 946u32)
    } else if i == 37 {  // gamma
        (seq![0x67u8, 0x61u8, 0x6du8, 0x6du8, 0x61u8], 947u32)
    } else if i == 38 {  // delta
        (seq![0x64u8, 0x65u8, 0x6cu8, 0x74u8, 0x61u8], 948u32)
    } else if i == 39 {  // pi
        (seq![0x70u8, 0x69u8], 960u32)
    } else if i == 40 {  // sigma
        (seq![0x73u8, 0x69u8, 0x67u8, 0x6du8, 0x61u8], 963u32)
    } else if i == 41 {  // omega
        (seq![0x6fu8, 0x6du8, 0x65u8, 0x67u8, 0x61u8], 969u32)
    } else if i == 42 {  // ndash
        (seq![0x6eu8, 0x64u8, 0x61u8, 0x73u8, 0x68u8], 8211u32)
    } else if i == 43 {  // mdash
        (seq![0x6du8, 0x64u8, 0x61u8, 0x73u8, 0x68u8], 8212u32)
    } else if i == 44 {  // lsquo
        (seq![0x6cu8, 0x73u8, 0x71u8, 0x75u8, 0x6fu8], 8216u32)
    } else if i == 45 {  // rsquo
        (seq![0x72u8, 0x73u8, 0x71u8, 0x75u8, 0x6fu8], 8217u32)
    } else if i == 46 {  // ldquo
        (seq![0x6cu8, 0x64u8, 0x71u8, 0x75u8, 0x6fu8], 8220u32)
    } else if i == 47 {  // rdquo
        (seq![0x72u8, 0x64u8, 0x71u8, 0x75u8, 0x6fu8], 8221u32)
    } else if i == 48 {  // dagger
        (seq![0x64u8, 0x61u8, 0x67u8, 0x67u8, 0x65u8, 0x72u8], 8224u32)
    } else if i == 49 {  // bull
        (seq![0x62u8, 0x75u8, 0x6cu8, 0x6cu8], 8226u32)
    } else if i == 50 {  // hellip
        (seq![0x68u8, 0x65u8, 0x6cu8, 0x6cu8, 0x69u8, 0x70u8], 8230u32)
    } else if i == 51 {  // permil
        (seq![0x70u8, 0x65u8, 0x72u8, 0x6du8, 0x69u8, 0x6cu8], 8240u32)
    } else if i == 52 {  // euro
        (seq![0x65u8, 0x75u8, 0x72u8, 0x6fu8], 8364u32)
    } else if i == 53 {  // image
        (seq![0x69u8, 0x6du8, 0x61u8, 0x67u8, 0x65u8], 8465u32)
    } else if i == 54 {  // copysr
        (seq![0x63u8, 0x6fu8, 0x70u8, 0x79u8, 0x73u8, 0x72u8], 8471u32)
    } else if i == 55 {  // trade
        (seq![0x74u8, 0x72u8, 0x61u8, 0x64u8, 0x65u8], 8482u32)
    } else if i == 56 {  // larr
        (seq![0x6cu8, 0x61u8, 0x72u8, 0x72u8], 8592u32)
    } else if i == 57 {  // uarr
        (seq![0x75u8, 0x61u8, 0x72u8, 0x72u8], 8593u32)
    } else if i == 58 {  // rarr
        (seq![0x72u8, 0x61u8, 0x72u8, 0x72u8], 8594u32)
    } else if i == 59 {  // darr
        (seq![0x64u8, 0x61u8, 0x72u8, 0x72u8], 8595u32)
    } else if i == 60 {  // minus
        (seq![0x6du8, 0x69u8, 0x6eu8, 0x75u8, 0x73u8], 8722u32)
    } else if i == 61 {  // infin
        (seq![0x69u8, 0x6eu8, 0x66u8, 0x69u8, 0x6eu8], 8734u32)
    } else if i == 62 {  // ne
        (seq![0x6eu8, 0x65u8], 8800u32)
    } else if i == 63 {  // le
        (seq![0x6cu8, 0x65u8], 8804u32)
    } else if i == 64 {  // ge
        (seq![0x67u8, 0x65u8], 8805u32)
    } else {
        (seq![], 0u32)
    }
}

/// Record `i` of the name-ordered table.
pub open spec fn by_name_entry(i: int) -> (Seq<u8>, u32) {
    if i == 0 {  // AMP
        (seq![0x41u8, 0x4du8, 0x50u8], 38u32)
    } else if i == 1 {  // GT
        (seq![0x47u8, 0x54u8], 62u32)
    } else if i == 2 {  // LT
        (seq![0x4cu8, 0x54u8], 60u32)
    } else if i == 3 {  // NewLine
        (seq![0x4eu8, 0x65u8, 0x77u8, 0x4cu8, 0x69u8, 0x6eu8, 0x65u8], 10u32)
    } else if i == 4 {  // QUOT
        (seq![0x51u8, 0x55u8, 0x4fu8, 0x54u8], 34u32)
    } else if i == 5 {  // Tab
        (seq![0x54u8, 0x61u8, 0x62u8], 9u32)
    } else if i == 6 {  // agrave
        (seq![0x61u8, 0x67u8, 0x72u8, 0x61u8, 0x76u8, 0x65u8], 224u32)
    } else if i == 7 {  // alpha
        (seq![0x61u8, 0x6cu8, 0x70u8, 0x68u8, 0x61u8], 945u32)
    } else if i == 8 {  // amp
        (seq![0x61u8, 0x6du8, 0x70u8], 38u32)
    } else if i == 9 {  // apos
        (seq![0x61u8, 0x70u8, 0x6fu8, 0x73u8], 39u32)
    } else if i == 10 {  // beta
        (seq![0x62u8, 0x65u8, 0x74u8, 0x61u8], 946u32)
    } else if i == 11 {  // bull
        (seq![0x62u8, 0x75u8, 0x6cu8, 0x6cu8], 8226u32)
    } else if i == 12 {  // ccedil
        (seq![0x63u8, 0x63u8, 0x65u8, 0x64u8, 0x69u8, 0x6cu8], 231u32)
    } else if i == 13 {  // cent
        (seq![0x63u8, 0x65u8, 0x6eu8, 0x74u8], 162u32)
    } else if i == 14 {  // copy
        (seq![0x63u8, 0x6fu8, 0x70u8, 0x79u8], 169u32)
    } else if i == 15 {  // copysr
        (seq![0x63u8, 0x6fu8, 0x70u8, 0x79u8, 0x73u8, 0x72u8], 8471u32)
    } else if i == 16 {  // dagger
        (seq![0x64u8, 0x61u8, 0x67u8, 0x67u8, 0x65u8, 0x72u8], 8224u32)
    } else if i == 17 {  // darr
        (seq![0x64u8, 0x61u8, 0x72u8, 0x72u8], 8595u32)
    } else if i == 18 {  // deg
        (seq![0x64u8, 0x65u8, 0x67u8], 176u32)
    } else if i == 19 {  // delta
        (seq![0x64u8, 0x65u8, 0x6cu8, 0x74u8, 0x61u8], 948u32)
    } else if i == 20 {  // divide
        (seq![0x64u8, 0x69u8, 0x76u8, 0x69u8, 0x64u8, 0x65u8], 247u32)
    } else if i == 21 {  // eacute
        (seq![0x65u8, 0x61u8, 0x63u8, 0x75u8, 0x74u8, 0x65u8], 233u32)
    } else if i == 22 {  // euro
        (seq![0x65u8, 0x75u8, 0x72u8, 0x6fu8], 8364u32)
    } else if i == 23 {  // gamma
        (seq![0x67u8, 0x61u8, 0x6du8, 0x6du8, 0x61u8], 947u32)
    } else if i == 24 {  // ge
        (seq![0x67u8, 0x65u8], 8805u32)
    } else if i == 25 {  // gt
        (seq![0x67u8, 0x74u8], 62u32)
    } else if i == 26 {  // hellip
        (seq![0x68u8, 0x65u8, 0x6cu8, 0x6cu8, 0x69u8, 0x70u8], 8230u32)
    } else if i == 27 {  // iexcl
        (seq![0x69u8, 0x65u8, 0x78u8, 0x63u8, 0x6cu8], 161u32)
    } else if i == 28 {  // image
        (seq![0x69u8, 0x6du8, 0x61u8, 0x67u8, 0x65u8], 8465u32)
    } else if i == 29 {  // infin
        (seq![0x69u8, 0x6eu8, 0x66u8, 0x69u8, 0x6eu8], 8734u32)
    } else if i == 30 {  // iquest
        (seq![0x69u8, 0x71u8, 0x75u8, 0x65u8, 0x73u8, 0x74u8], 191u32)
    } else if i == 31 {  // laquo
        (seq![0x6cu8, 0x61u8, 0x71u8, 0x75u8, 0x6fu8], 171u32)
    } else if i == 32 {  // larr
        (seq![0x6cu8, 0x61u8, 0x72u8, 0x72u8], 8592u32)
    } else if i == 33 {  // ldquo
        (seq![0x6cu8, 0x64u8, 0x71u8, 0x75u8, 0x6fu8], 8220u32)
    } else if i == 34 {  // le
        (seq![0x6cu8, 0x65u8], 8804u32)
    } else if i == 35 {  // lsquo
        (seq![0x6cu8, 0x73u8, 0x71u8, 0x75u8, 0x6fu8], 8216u32)
    } else if i == 36 {  // lt
        (seq![0x6cu8, 0x74u8], 60u32)
    } else if i == 37 {  // mdash
        (seq![0x6du8, 0x64u8, 0x61u8, 0x73u8, 0x68u8], 8212u32)
    } else if i == 38 {  // micro
        (seq![0x6du8, 0x69u8, 0x63u8, 0x72u8, 0x6fu8], 181u32)
    } else if i == 39 {  // middot
        (seq![0x6du8, 0x69u8, 0x64u8, 0x64u8, 0x6fu8, 0x74u8], 183u32)
    } else if i == 40 {  // minus
        (seq![0x6du8, 0x69u8, 0x6eu8, 0x75u8, 0x73u8], 8722u32)
    } else if i == 41 {  // nbsp
        (seq![0x6eu8, 0x62u8, 0x73u8, 0x70u8], 160u32)
    } else if i == 42 {  // ndash
        (seq![0x6eu8, 0x64u8, 0x61u8, 0x73u8, 0x68u8], 8211u32)
    } else if i == 43 {  // ne
        (seq![0x6eu8, 0x65u8], 8800u32)
    } else if i == 44 {  // ntilde
        (seq![0x6eu8, 0x74u8, 0x69u8, 0x6cu8, 0x64u8, 0x65u8], 241u32)
    } else if i == 45 {  // omega
        (seq![0x6fu8, 0x6du8, 0x65u8, 0x67u8, 0x61u8], 969u32)
    } else if i == 46 {  // para
        (seq![0x70u8, 0x61u8, 0x72u8, 0x61u8], 182u32)
    } else if i == 47 {  // permil
        (seq![0x70u8, 0x65u8, 0x72u8, 0x6du8, 0x69u8, 0x6cu8], 8240u32)
    } else if i == 48 {  // pi
        (seq![0x70u8, 0x69u8], 960u32)
    } else if i == 49 {  // plusmn
        (seq![0x70u8, 0x6cu8, 0x75u8, 0x73u8, 0x6du8, 0x6eu8], 177u32)
    } else if i == 50 {  // pound
        (seq![0x70u8, 0x6fu8, 0x75u8, 0x6eu8, 0x64u8], 163u32)
    } else if i == 51 {  // quot
        (seq![0x71u8, 0x75u8, 0x6fu8, 0x74u8], 34u32)
    } else if i == 52 {  // raquo
        (seq![0x72u8, 0x61u8, 0x71u8, 0x75u8, 0x6fu8], 187u32)
    } else if i == 53 {  // rarr
        (seq![0x72u8, 0x61u8, 0x72u8, 0x72u8], 8594u32)
    } else if i == 54 {  // rdquo
        (seq![0x72u8, 0x64u8, 0x71u8, 0x75u8, 0x6fu8], 8221u32)
    } else if i == 55 {  // reg
        (seq![0x72u8, 0x65u8, 0x67u8], 174u32)
    } else if i == 56 {  // rsquo
        (seq![0x72u8, 0x73u8, 0x71u8, 0x75u8, 0x6fu8], 8217u32)
    } else if i == 57 {  // sect
        (seq![0x73u8, 0x65u8, 0x63u8, 0x74u8], 167u32)
    } else if i == 58 {  // sigma
        (seq![0x73u8, 0x69u8, 0x67u8, 0x6du8, 0x61u8], 963u32)
    } else if i == 59 {  // szlig
        (seq![0x73u8, 0x7au8, 0x6cu8, 0x69u8, 0x67u8], 223u32)
    } else if i == 60 {  // times
        (seq![0x74u8, 0x69u8, 0x6du8, 0x65u8, 0x73u8], 215u32)
    } else if i == 61 {  // trade
        (seq![0x74u8, 0x72u8, 0x61u8, 0x64u8, 0x65u8], 8482u32)
    } else if i == 62 {  // uarr
        (seq![0x75u8, 0x61u8, 0x72u8, 0x72u8], 8593u32)
    } else if i == 63 {  // uuml
        (seq![0x75u8, 0x75u8, 0x6du8, 0x6cu8], 252u32)
    } else if i == 64 {  // yen
        (seq![0x79u8, 0x65u8, 0x6eu8], 165u32)
    } else {
        (seq![], 0u32)
    }
}

/// The table ordered by code point, preferred name first.
pub open spec fn by_code_table() -> Seq<(Seq<u8>, u32)> {
    Seq::new(table_len() as nat, |i: int| by_code_entry(i))
}

/// The table strictly ordered by name bytes.
pub open spec fn by_name_table() -> Seq<(Seq<u8>, u32)> {
    Seq::new(table_len() as nat, |i: int| by_name_entry(i))
}

/// Builds a 2-byte name.
fn name2(b0: u8, b1: u8) -> (v: Vec<u8>)
    ensures
        v@ == seq![b0, b1],
{
    let mut v: Vec<u8> = Vec::new();
    v.push(b0);
    v.push(b1);
    proof {
        assert(v@ =~= seq![b0, b1]);
    }
    v
}

/// Builds a 3-byte name.
fn name3(b0: u8, b1: u8, b2: u8) -> (v: Vec<u8>)
    ensures
        v@ == seq![b0, b1, b2],
{
    let mut v: Vec<u8> = Vec::new();
    v.push(b0);
    v.push(b1);
    v.push(b2);
    proof {
        assert(v@ =~= seq![b0, b1, b2]);
    }
    v
}

/// Builds a 4-byte name.
fn name4(b0: u8, b1: u8, b2: u8, b3: u8) -> (v: Vec<u8>)
    ensures
        v@ == seq![b0, b1, b2, b3],
{
    let mut v: Vec<u8> = Vec::new();
    v.push(b0);
    v.push(b1);
    v.push(b2);
    v.push(b3);
    proof {
        assert(v@ =~= seq![b0, b1, b2, b3]);
    }
    v
}

/// Builds a 5-byte name.
fn name5(b0: u8, b1: u8, b2: u8, b3: u8, b4: u8) -> (v: Vec<u8>)
    ensures
        v@ == seq![b0, b1, b2, b3, b4],
{
    let mut v: Vec<u8> = Vec::new();
    v.push(b0);
    v.push(b1);
    v.push(b2);
    v.push(b3);
    v.push(b4);
    proof {
        assert(v@ =~= seq![b0, b1, b2, b3, b4]);
    }
    v
}

/// Builds a 6-byte name.
fn name6(b0: u8, b1: u8, b2: u8, b3: u8, b4: u8, b5: u8) -> (v: Vec<u8>)
    ensures
        v@ == seq![b0, b1, b2, b3, b4, b5],
{
    let mut v: Vec<u8> = Vec::new();
    v.push(b0);
    v.push(b1);
    v.push(b2);
    v.push(b3);
    v.push(b4);
    v.push(b5);
    proof {
        assert(v@ =~= seq![b0, b1, b2, b3, b4, b5]);
    }
    v
}

/// Builds a 7-byte name.
fn name7(b0: u8, b1: u8, b2: u8, b3: u8, b4: u8, b5: u8, b6: u8) -> (v: Vec<u8>)
    ensures
        v@ == seq![b0, b1, b2, b3, b4, b5, b6],
{
    let mut v: Vec<u8> = Vec::new();
    v.push(b0);
    v.push(b1);
    v.push(b2);
    v.push(b3);
    v.push(b4);
    v.push(b5);
    v.push(b6);
    proof {
        assert(v@ =~= seq![b0, b1, b2, b3, b4, b5, b6]);
    }
    v
}

/// Builds record `i` of the code-ordered table.
fn by_code_entry_exec(i: usize) -> (e: (Vec<u8>, u32))
    requires
        i < 65,
    ensures
        e.0@ == by_code_entry(i as int).0,
        e.1 == by_code_entry(i as int).1,
{
    if i == 0 {
        (name3(0x54, 0x61, 0x62), 9)
    } else if i == 1 {
        (name7(0x4e, 0x65, 0x77, 0x4c, 0x69, 0x6e, 0x65), 10)
    } else if i == 2 {
        (name4(0x71, 0x75, 0x6f, 0x74), 34)
    } else if i == 3 {
        (name4(0x51, 0x55, 0x4f, 0x54), 34)
    } else if i == 4 {
        (name3(0x61, 0x6d, 0x70), 38)
    } else if i == 5 {
        (name3(0x41, 0x4d, 0x50), 38)
    } else if i == 6 {
        (name4(0x61, 0x70, 0x6f, 0x73), 39)
    } else if i == 7 {
        (name2(0x6c, 0x74), 60)
    } else if i == 8 {
        (name2(0x4c, 0x54), 60)
    } else if i == 9 {
        (name2(0x67, 0x74), 62)
    } else if i == 10 {
        (name2(0x47, 0x54), 62)
    } else if i == 11 {
        (name4(0x6e, 0x62, 0x73, 0x70), 160)
    } else if i == 12 {
        (name5(0x69, 0x65, 0x78, 0x63, 0x6c), 161)
    } else if i == 13 {
        (name4(0x63, 0x65, 0x6e, 0x74), 162)
    } else if i == 14 {
        (name5(0x70, 0x6f, 0x75, 0x6e, 0x64), 163)
    } else if i == 15 {
        (name3(0x79, 0x65, 0x6e), 165)
    } else if i == 16 {
        (name4(0x73, 0x65, 0x63, 0x74), 167)
    } else if i == 17 {
        (name4(0x63, 0x6f, 0x70, 0x79), 169)
    } else if i == 18 {
        (name5(0x6c, 0x61, 0x71, 0x75, 0x6f), 171)
    } else if i == 19 {
        (name3(0x72, 0x65, 0x67), 174)
    } else if i == 20 {
        (name3(0x64, 0x65, 0x67), 176)
    } else if i == 21 {
        (name6(0x70, 0x6c, 0x75, 0x73, 0x6d, 0x6e), 177)
    } else if i == 22 {
        (name5(0x6d, 0x69, 0x63, 0x72, 0x6f), 181)
    } else if i == 23 {
        (name4(0x70, 0x61, 0x72, 0x61), 182)
    } else if i == 24 {
        (name6(0x6d, 0x69, 0x64, 0x64, 0x6f, 0x74), 183)
    } else if i == 25 {
        (name5(0x72, 0x61, 0x71, 0x75, 0x6f), 187)
    } else if i == 26 {
        (name6(0x69, 0x71, 0x75, 0x65, 0x73, 0x74), 191)
    } else if i == 27 {
        (name5(0x74, 0x69, 0x6d, 0x65, 0x73), 215)
    } else if i == 28 {
        (name5(0x73, 0x7a, 0x6c, 0x69, 0x67), 223)
    } else if i == 29 {
        (name6(0x61, 0x67, 0x72, 0x61, 0x76, 0x65), 224)
    } else if i == 30 {
        (name6(0x63, 0x63, 0x65, 0x64, 0x69, 0x6c), 231)
    } else if i == 31 {
        (name6(0x65, 0x61, 0x63, 0x75, 0x74, 0x65), 233)
    } else if i == 32 {
        (name6(0x6e, 0x74, 0x69, 0x6c, 0x64, 0x65), 241)
    } else if i == 33 {
        (name6(0x64, 0x69, 0x76, 0x69, 0x64, 0x65), 247)
    } else if i == 34 {
        (name4(0x75, 0x75, 0x6d, 0x6c), 252)
    } else if i == 35 {
        (name5(0x61, 0x6c, 0x70, 0x68, 0x61), 945)
    } else if i == 36 {
        (name4(0x62, 0x65, 0x74, 0x61), 946)
    } else if i == 37 {
        (name5(0x67, 0x61, 0x6d, 0x6d, 0x61), 947)
    } else if i == 38 {
        (name5(0x64, 0x65, 0x6c, 0x74, 0x61), 948)
    } else if i == 39 {
        (name2(0x70, 0x69), 960)
    } else if i == 40 {
        (name5(0x73, 0x69, 0x67, 0x6d, 0x61), 963)
    } else if i == 41 {
        (name5(0x6f, 0x6d, 0x65, 0x67, 0x61), 969)
    } else if i == 42 {
        (name5(0x6e, 0x64, 0x61, 0x73, 0x68), 8211)
    } else if i == 43 {
        (name5(0x6d, 0x64, 0x61, 0x73, 0x68), 8212)
    } else if i == 44 {
        (name5(0x6c, 0x73, 0x71, 0x75, 0x6f), 8216)
    } else if i == 45 {
        (name5(0x72, 0x73, 0x71, 0x75, 0x6f), 8217)
    } else if i == 46 {
        (name5(0x6c, 0x64, 0x71, 0x75, 0x6f), 8220)
    } else if i == 47 {
        (name5(0x72, 0x64, 0x71, 0x75, 0x6f), 8221)
    } else if i == 48 {
        (name6(0x64, 0x61, 0x67, 0x67, 0x65, 0x72), 8224)
    } else if i == 49 {
        (name4(0x62, 0x75, 0x6c, 0x6c), 8226)
    } else if i == 50 {
        (name6(0x68, 0x65, 0x6c, 0x6c, 0x69, 0x70), 8230)
    } else if i == 51 {
        (name6(0x70, 0x65, 0x72, 0x6d, 0x69, 0x6c), 8240)
    } else if i == 52 {
        (name4(0x65, 0x75, 0x72, 0x6f), 8364)
    } else if i == 53 {
        (name5(0x69, 0x6d, 0x61, 0x67, 0x65), 8465)
    } else if i == 54 {
        (name6(0x63, 0x6f, 0x70, 0x79, 0x73, 0x72), 8471)
    } else if i == 55 {
        (name5(0x74, 0x72, 0x61, 0x64, 0x65), 8482)
    } else if i == 56 {
        (name4(0x6c, 0x61, 0x72, 0x72), 8592)
    } else if i == 57 {
        (name4(0x75, 0x61, 0x72, 0x72), 8593)
    } else if i == 58 {
        (name4(0x72, 0x61, 0x72, 0x72), 8594)
    } else if i == 59 {
        (name4(0x64, 0x61, 0x72, 0x72), 8595)
    } else if i == 60 {
        (name5(0x6d, 0x69, 0x6e, 0x75, 0x73), 8722)
    } else if i == 61 {
        (name5(0x69, 0x6e, 0x66, 0x69, 0x6e), 8734)
    } else if i == 62 {
        (name2(0x6e, 0x65), 8800)
    } else if i == 63 {
        (name2(0x6c, 0x65), 8804)
    } else if i == 64 {
        (name2(0x67, 0x65), 8805)
    } else {
        (Vec::new(), 0)
    }
}

/// Builds record `i` of the name-ordered table.
fn by_name_entry_exec(i: usize) -> (e: (Vec<u8>, u32))
    requires
        i < 65,
    ensures
        e.0@ == by_name_entry(i as int).0,
        e.1 == by_name_entry(i as int).1,
{
    if i == 0 {
        (name3(0x41, 0x4d, 0x50), 38)
    } else if i == 1 {
        (name2(0x47, 0x54), 62)
    } else if i == 2 {
        (name2(0x4c, 0x54), 60)
    } else if i == 3 {
        (name7(0x4e, 0x65, 0x77, 0x4c, 0x69, 0x6e, 0x65), 10)
    } else if i == 4 {
        (name4(0x51, 0x55, 0x4f, 0x54), 34)
    } else if i == 5 {
        (name3(0x54, 0x61, 0x62), 9)
    } else if i == 6 {
        (name6(0x61, 0x67, 0x72, 0x61, 0x76, 0x65), 224)
    } else if i == 7 {
        (name5(0x61, 0x6c, 0x70, 0x68, 0x61), 945)
    } else if i == 8 {
        (name3(0x61, 0x6d, 0x70), 38)
    } else if i == 9 {
        (name4(0x61, 0x70, 0x6f, 0x73), 39)
    } else if i == 10 {
        (name4(0x62, 0x65, 0x74, 0x61), 946)
    } else if i == 11 {
        (name4(0x62, 0x75, 0x6c, 0x6c), 8226)
    } else if i == 12 {
        (name6(0x63, 0x63, 0x65, 0x64, 0x69, 0x6c), 231)
    } else if i == 13 {
        (name4(0x63, 0x65, 0x6e, 0x74), 162)
    } else if i == 14 {
        (name4(0x63, 0x6f, 0x70, 0x79), 169)
    } else if i == 15 {
        (name6(0x63, 0x6f, 0x70, 0x79, 0x73, 0x72), 8471)
    } else if i == 16 {
        (name6(0x64, 0x61, 0x67, 0x67, 0x65, 0x72), 8224)
    } else if i == 17 {
        (name4(0x64, 0x61, 0x72, 0x72), 8595)
    } else if i == 18 {
        (name3(0x64, 0x65, 0x67), 176)
    } else if i == 19 {
        (name5(0x64, 0x65, 0x6c, 0x74, 0x61), 948)
    } else if i == 20 {
        (name6(0x64, 0x69, 0x76, 0x69, 0x64, 0x65), 247)
    } else if i == 21 {
        (name6(0x65, 0x61, 0x63, 0x75, 0x74, 0x65), 233)
    } else if i == 22 {
        (name4(0x65, 0x75, 0x72, 0x6f), 8364)
    } else if i == 23 {
        (name5(0x67, 0x61, 0x6d, 0x6d, 0x61), 947)
    } else if i == 24 {
        (name2(0x67, 0x65), 8805)
    } else if i == 25 {
        (name2(0x67, 0x74), 62)
    } else if i == 26 {
        (name6(0x68, 0x65, 0x6c, 0x6c, 0x69, 0x70), 8230)
    } else if i == 27 {
        (name5(0x69, 0x65, 0x78, 0x63, 0x6c), 161)
    } else if i == 28 {
        (name5(0x69, 0x6d, 0x61, 0x67, 0x65), 8465)
    } else if i == 29 {
        (name5(0x69, 0x6e, 0x66, 0x69, 0x6e), 8734)
    } else if i == 30 {
        (name6(0x69, 0x71, 0x75, 0x65, 0x73, 0x74), 191)
    } else if i == 31 {
        (name5(0x6c, 0x61, 0x71, 0x75, 0x6f), 171)
    } else if i == 32 {
        (name4(0x6c, 0x61, 0x72, 0x72), 8592)
    } else if i == 33 {
        (name5(0x6c, 0x64, 0x71, 0x75, 0x6f), 8220)
    } else if i == 34 {
        (name2(0x6c, 0x65), 8804)
    } else if i == 35 {
        (name5(0x6c, 0x73, 0x71, 0x75, 0x6f), 8216)
    } else if i == 36 {
        (name2(0x6c, 0x74), 60)
    } else if i == 37 {
        (name5(0x6d, 0x64, 0x61, 0x73, 0x68), 8212)
    } else if i == 38 {
        (name5(0x6d, 0x69, 0x63, 0x72, 0x6f), 181)
    } else if i == 39 {
        (name6(0x6d, 0x69, 0x64, 0x64, 0x6f, 0x74), 183)
    } else if i == 40 {
        (name5(0x6d, 0x69, 0x6e, 0x75, 0x73), 8722)
    } else if i == 41 {
        (name4(0x6e, 0x62, 0x73, 0x70), 160)
    } else if i == 42 {
        (name5(0x6e, 0x64, 0x61, 0x73, 0x68), 8211)
    } else if i == 43 {
        (name2(0x6e, 0x65), 8800)
    } else if i == 44 {
        (name6(0x6e, 0x74, 0x69, 0x6c, 0x64, 0x65), 241)
    } else if i == 45 {
        (name5(0x6f, 0x6d, 0x65, 0x67, 0x61), 969)
    } else if i == 46 {
        (name4(0x70, 0x61, 0x72, 0x61), 182)
    } else if i == 47 {
        (name6(0x70, 0x65, 0x72, 0x6d, 0x69, 0x6c), 8240)
    } else if i == 48 {
        (name2(0x70, 0x69), 960)
    } else if i == 49 {
        (name6(0x70, 0x6c, 0x75, 0x73, 0x6d, 0x6e), 177)
    } else if i == 50 {
        (name5(0x70, 0x6f, 0x75, 0x6e, 0x64), 163)
    } else if i == 51 {
        (name4(0x71, 0x75, 0x6f, 0x74), 34)
    } else if i == 52 {
        (name5(0x72, 0x61, 0x71, 0x75, 0x6f), 187)
    } else if i == 53 {
        (name4(0x72, 0x61, 0x72, 0x72), 8594)
    } else if i == 54 {
        (name5(0x72, 0x64, 0x71, 0x75, 0x6f), 8221)
    } else if i == 55 {
        (name3(0x72, 0x65, 0x67), 174)
    } else if i == 56 {
        (name5(0x72, 0x73, 0x71, 0x75, 0x6f), 8217)
    } else if i == 57 {
        (name4(0x73, 0x65, 0x63, 0x74), 167)
    } else if i == 58 {
        (name5(0x73, 0x69, 0x67, 0x6d, 0x61), 963)
    } else if i == 59 {
        (name5(0x73, 0x7a, 0x6c, 0x69, 0x67), 223)
    } else if i == 60 {
        (name5(0x74, 0x69, 0x6d, 0x65, 0x73), 215)
    } else if i == 61 {
        (name5(0x74, 0x72, 0x61, 0x64, 0x65), 8482)
    } else if i == 62 {
        (name4(0x75, 0x61, 0x72, 0x72), 8593)
    } else if i == 63 {
        (name4(0x75, 0x75, 0x6d, 0x6c), 252)
    } else if i == 64 {
        (name3(0x79, 0x65, 0x6e), 165)
    } else {
        (Vec::new(), 0)
    }
}

/// Every record of the code-ordered table also stands in the
/// name-ordered table: the two tables hold the same records.
pub proof fn lemma_tables_same_records()
    ensures
        forall|k: int|
            0 <= k < table_len() ==> exists|m: int|
                0 <= m < table_len() && (#[trigger] by_code_entry(k)).0 == by_name_entry(m).0
                    && by_code_entry(k).1 == by_name_entry(m).1,
{
        assert(by_code_entry(0).0 =~= by_name_entry(5).0 && by_code_entry(0).1 == by_name_entry(5).1);
        assert(by_code_entry(1).0 =~= by_name_entry(3).0 && by_code_entry(1).1 == by_name_entry(3).1);
        assert(by_code_entry(2).0 =~= by_name_entry(51).0 && by_code_entry(2).1 == by_name_entry(51).1);
        assert(by_code_entry(3).0 =~= by_name_entry(4).0 && by_code_entry(3).1 == by_name_entry(4).1);
        assert(by_code_entry(4).0 =~= by_name_entry(8).0 && by_code_entry(4).1 == by_name_entry(8).1);
        assert(by_code_entry(5).0 =~= by_name_entry(0).0 && by_code_entry(5).1 == by_name_entry(0).1);
        assert(by_code_entry(6).0 =~= by_name_entry(9).0 && by_code_entry(6).1 == by_name_entry(9).1);
        assert(by_code_entry(7).0 =~= by_name_entry(36).0 && by_code_entry(7).1 == by_name_entry(36).1);
        assert(by_code_entry(8).0 =~= by_name_entry(2).0 && by_code_entry(8).1 == by_name_entry(2).1);
        assert(by_code_entry(9).0 =~= by_name_entry(25).0 && by_code_entry(9).1 == by_name_entry(25).1);
        assert(by_code_entry(10).0 =~= by_name_entry(1).0 && by_code_entry(10).1 == by_name_entry(1).1);
        assert(by_code_entry(11).0 =~= by_name_entry(41).0 && by_code_entry(11).1 == by_name_entry(41).1);
        assert(by_code_entry(12).0 =~= by_name_entry(27).0 && by_code_entry(12).1 == by_name_entry(27).1);
        assert(by_code_entry(13).0 =~= by_name_entry(13).0 && by_code_entry(13).1 == by_name_entry(13).1);
        assert(by_code_entry(14).0 =~= by_name_entry(50).0 && by_code_entry(14).1 == by_name_entry(50).1);
        assert(by_code_entry(15).0 =~= by_name_entry(64).0 && by_code_entry(15).1 == by_name_entry(64).1);
        assert(by_code_entry(16).0 =~= by_name_entry(57).0 && by_code_entry(16).1 == by_name_entry(57).1);
        assert(by_code_entry(17).0 =~= by_name_entry(14).0 && by_code_entry(17).1 == by_name_entry(14).1);
        assert(by_code_entry(18).0 =~= by_name_entry(31).0 && by_code_entry(18).1 == by_name_entry(31).1);
        assert(by_code_entry(19).0 =~= by_name_entry(55).0 && by_code_entry(19).1 == by_name_entry(55).1);
        assert(by_code_entry(20).0 =~= by_name_entry(18).0 && by_code_entry(20).1 == by_name_entry(18).1);
        assert(by_code_entry(21).0 =~= by_name_entry(49).0 && by_code_entry(21).1 == by_name_entry(49).1);
        assert(by_code_entry(22).0 =~= by_name_entry(38).0 && by_code_entry(22).1 == by_name_entry(38).1);
        assert(by_code_entry(23).0 =~= by_name_entry(46).0 && by_code_entry(23).1 == by_name_entry(46).1);
        assert(by_code_entry(24).0 =~= by_name_entry(39).0 && by_code_entry(24).1 == by_name_entry(39).1);
        assert(by_code_entry(25).0 =~= by_name_entry(52).0 && by_code_entry(25).1 == by_name_entry(52).1);
        assert(by_code_entry(26).0 =~= by_name_entry(30).0 && by_code_entry(26).1 == by_name_entry(30).1);
        assert(by_code_entry(27).0 =~= by_name_entry(60).0 && by_code_entry(27).1 == by_name_entry(60).1);
        assert(by_code_entry(28).0 =~= by_name_entry(59).0 && by_code_entry(28).1 == by_name_entry(59).1);
        assert(by_code_entry(29).0 =~= by_name_entry(6).0 && by_code_entry(29).1 == by_name_entry(6).1);
        assert(by_code_entry(30).0 =~= by_name_entry(12).0 && by_code_entry(30).1 == by_name_entry(12).1);
        assert(by_code_entry(31).0 =~= by_name_entry(21).0 && by_code_entry(31).1 == by_name_entry(21).1);
        assert(by_code_entry(32).0 =~= by_name_entry(44).0 && by_code_entry(32).1 == by_name_entry(44).1);
        assert(by_code_entry(33).0 =~= by_name_entry(20).0 && by_code_entry(33).1 == by_name_entry(20).1);
        assert(by_code_entry(34).0 =~= by_name_entry(63).0 && by_code_entry(34).1 == by_name_entry(63).1);
        assert(by_code_entry(35).0 =~= by_name_entry(7).0 && by_code_entry(35).1 == by_name_entry(7).1);
        assert(by_code_entry(36).0 =~= by_name_entry(10).0 && by_code_entry(36).1 == by_name_entry(10).1);
        assert(by_code_entry(37).0 =~= by_name_entry(23).0 && by_code_entry(37).1 == by_name_entry(23).1);
        assert(by_code_entry(38).0 =~= by_name_entry(19).0 && by_code_entry(38).1 == by_name_entry(19).1);
        assert(by_code_entry(39).0 =~= by_name_entry(48).0 && by_code_entry(39).1 == by_name_entry(48).1);
        assert(by_code_entry(40).0 =~= by_name_entry(58).0 && by_code_entry(40).1 == by_name_entry(58).1);
        assert(by_code_entry(41).0 =~= by_name_entry(45).0 && by_code_entry(41).1 == by_name_entry(45).1);
        assert(by_code_entry(42).0 =~= by_name_entry(42).0 && by_code_entry(42).1 == by_name_entry(42).1);
        assert(by_code_entry(43).0 =~= by_name_entry(37).0 && by_code_entry(43).1 == by_name_entry(37).1);
        assert(by_code_entry(44).0 =~= by_name_entry(35).0 && by_code_entry(44).1 == by_name_entry(35).1);
        assert(by_code_entry(45).0 =~= by_name_entry(56).0 && by_code_entry(45).1 == by_name_entry(56).1);
        assert(by_code_entry(46).0 =~= by_name_entry(33).0 && by_code_entry(46).1 == by_name_entry(33).1);
        assert(by_code_entry(47).0 =~= by_name_entry(54).0 && by_code_entry(47).1 == by_name_entry(54).1);
        assert(by_code_entry(48).0 =~= by_name_entry(16).0 && by_code_entry(48).1 == by_name_entry(16).1);
        assert(by_code_entry(49).0 =~= by_name_entry(11).0 && by_code_entry(49).1 == by_name_entry(11).1);
        assert(by_code_entry(50).0 =~= by_name_entry(26).0 && by_code_entry(50).1 == by_name_entry(26).1);
        assert(by_code_entry(51).0 =~= by_name_entry(47).0 && by_code_entry(51).1 == by_name_entry(47).1);
        assert(by_code_entry(52).0 =~= by_name_entry(22).0 && by_code_entry(52).1 == by_name_entry(22).1);
        assert(by_code_entry(53).0 =~= by_name_entry(28).0 && by_code_entry(53).1 == by_name_entry(28).1);
        assert(by_code_entry(54).0 =~= by_name_entry(15).0 && by_code_entry(54).1 == by_name_entry(15).1);
        assert(by_code_entry(55).0 =~= by_name_entry(61).0 && by_code_entry(55).1 == by_name_entry(61).1);
        assert(by_code_entry(56).0 =~= by_name_entry(32).0 && by_code_entry(56).1 == by_name_entry(32).1);
        assert(by_code_entry(57).0 =~= by_name_entry(62).0 && by_code_entry(57).1 == by_name_entry(62).1);
        assert(by_code_entry(58).0 =~= by_name_entry(53).0 && by_code_entry(58).1 == by_name_entry(53).1);
        assert(by_code_entry(59).0 =~= by_name_entry(17).0 && by_code_entry(59).1 == by_name_entry(17).1);
        assert(by_code_entry(60).0 =~= by_name_entry(40).0 && by_code_entry(60).1 == by_name_entry(40).1);
        assert(by_code_entry(61).0 =~= by_name_entry(29).0 && by_code_entry(61).1 == by_name_entry(29).1);
        assert(by_code_entry(62).0 =~= by_name_entry(43).0 && by_code_entry(62).1 == by_name_entry(43).1);
        assert(by_code_entry(63).0 =~= by_name_entry(34).0 && by_code_entry(63).1 == by_name_entry(34).1);
        assert(by_code_entry(64).0 =~= by_name_entry(24).0 && by_code_entry(64).1 == by_name_entry(24).1);
}


/// Builds the code-ordered table; its records are those of
/// [`by_code_table`].
pub fn build_by_code_table() -> (t: Vec<(Vec<u8>, u32)>)
    ensures
        t@.len() == table_len(),
        forall|i: int|
            0 <= i < t@.len() ==> (#[trigger] t@[i]).0@ == by_code_entry(i).0 && t@[i].1
                == by_code_entry(i).1,
{
    let mut t: Vec<(Vec<u8>, u32)> = Vec::new();
    let mut i: usize = 0;
    while i < 65
        invariant
            0 <= i <= 65,
            t@.len() == i,
            forall|k: int|
                0 <= k < i as int ==> (#[trigger] t@[k]).0@ == by_code_entry(k).0 && t@[k].1
                    == by_code_entry(k).1,
        decreases 65 - i,
    {
        let e = by_code_entry_exec(i);
        t.push(e);
        i = i + 1;
    }
    t
}

/// Builds the name-ordered table; its records are those of
/// [`by_name_table`].
pub fn build_by_name_table() -> (t: Vec<(Vec<u8>, u32)>)
    ensures
        t@.len() == table_len(),
        forall|i: int|
            0 <= i < t@.len() ==> (#[trigger] t@[i]).0@ == by_name_entry(i).0 && t@[i].1
                == by_name_entry(i).1,
{
    let mut t: Vec<(Vec<u8>, u32)> = Vec::new();
    let mut i: usize = 0;
    while i < 65
        invariant
            0 <= i <= 65,
            t@.len() == i,
            forall|k: int|
                0 <= k < i as int ==> (#[trigger] t@[k]).0@ == by_name_entry(k).0 && t@[k].1
                    == by_name_entry(k).1,
        decreases 65 - i,
    {
        let e = by_name_entry_exec(i);
        t.push(e);
        i = i + 1;
    }
    t
}

/// Adjacent records of the name-ordered table are in strictly
/// ascending name order.
pub proof fn lemma_name_table_adjacent()
    ensures
        forall|k: int|
            0 <= k < table_len() - 1 ==> lex_lt(
                by_name_entry(k).0,
                #[trigger] by_name_entry(k + 1).0,
            ),
{
    reveal_with_fuel(lex_lt, 9);
    assert(lex_lt(by_name_entry(0).0, by_name_entry(1).0));
    assert(lex_lt(by_name_entry(1).0, by_name_entry(2).0));
    assert(lex_lt(by_name_entry(2).0, by_name_entry(3).0));
    assert(lex_lt(by_name_entry(3).0, by_name_entry(4).0));
    assert(lex_lt(by_name_entry(4).0, by_name_entry(5).0));
    assert(lex_lt(by_name_entry(5).0, by_name_entry(6).0));
    assert(lex_lt(by_name_entry(6).0, by_name_entry(7).0));
    assert(lex_lt(by_name_entry(7).0, by_name_entry(8).0));
    assert(lex_lt(by_name_entry(8).0, by_name_entry(9).0));
    assert(lex_lt(by_name_entry(9).0, by_name_entry(10).0));
    assert(lex_lt(by_name_entry(10).0, by_name_entry(11).0));
    assert(lex_lt(by_name_entry(11).0, by_name_entry(12).0));
    assert(lex_lt(by_name_entry(12).0, by_name_entry(13).0));
    assert(lex_lt(by_name_entry(13).0, by_name_entry(14).0));
    assert(lex_lt(by_name_entry(14).0, by_name_entry(15).0));
    assert(lex_lt(by_name_entry(15).0, by_name_entry(16).0));
    assert(lex_lt(by_name_entry(16).0, by_name_entry(17).0));
    assert(lex_lt(by_name_entry(17).0, by_name_entry(18).0));
    assert(lex_lt(by_name_entry(18).0, by_name_entry(19).0));
    assert(lex_lt(by_name_entry(19).0, by_name_entry(20).0));
    assert(lex_lt(by_name_entry(20).0, by_name_entry(21).0));
    assert(lex_lt(by_name_entry(21).0, by_name_entry(22).0));
    assert(lex_lt(by_name_entry(22).0, by_name_entry(23).0));
    assert(lex_lt(by_name_entry(23).0, by_name_entry(24).0));
    assert(lex_lt(by_name_entry(24).0, by_name_entry(25).0));
    assert(lex_lt(by_name_entry(25).0, by_name_entry(26).0));
    assert(lex_lt(by_name_entry(26).0, by_name_entry(27).0));
    assert(lex_lt(by_name_entry(27).0, by_name_entry(28).0));
    assert(lex_lt(by_name_entry(28).0, by_name_entry(29).0));
    assert(lex_lt(by_name_entry(29).0, by_name_entry(30).0));
    assert(lex_lt(by_name_entry(30).0, by_name_entry(31).0));
    assert(lex_lt(by_name_entry(31).0, by_name_entry(32).0));
    assert(lex_lt(by_name_entry(32).0, by_name_entry(33).0));
    assert(lex_lt(by_name_entry(33).0, by_name_entry(34).0));
    assert(lex_lt(by_name_entry(34).0, by_name_entry(35).0));
    assert(lex_lt(by_name_entry(35).0, by_name_entry(36).0));
    assert(lex_lt(by_name_entry(36).0, by_name_entry(37).0));
    assert(lex_lt(by_name_entry(37).0, by_name_entry(38).0));
    assert(lex_lt(by_name_entry(38).0, by_name_entry(39).0));
    assert(lex_lt(by_name_entry(39).0, by_name_entry(40).0));
    assert(lex_lt(by_name_entry(40).0, by_name_entry(41).0));
    assert(lex_lt(by_name_entry(41).0, by_name_entry(42).0));
    assert(lex_lt(by_name_entry(42).0, by_name_entry(43).0));
    assert(lex_lt(by_name_entry(43).0, by_name_entry(44).0));
    assert(lex_lt(by_name_entry(44).0, by_name_entry(45).0));
    assert(lex_lt(by_name_entry(45).0, by_name_entry(46).0));
    assert(lex_lt(by_name_entry(46).0, by_name_entry(47).0));
    assert(lex_lt(by_name_entry(47).0, by_name_entry(48).0));
    assert(lex_lt(by_name_entry(48).0, by_name_entry(49).0));
    assert(lex_lt(by_name_entry(49).0, by_name_entry(50).0));
    assert(lex_lt(by_name_entry(50).0, by_name_entry(51).0));
    assert(lex_lt(by_name_entry(51).0, by_name_entry(52).0));
    assert(lex_lt(by_name_entry(52).0, by_name_entry(53).0));
    assert(lex_lt(by_name_entry(53).0, by_name_entry(54).0));
    assert(lex_lt(by_name_entry(54).0, by_name_entry(55).0));
    assert(lex_lt(by_name_entry(55).0, by_name_entry(56).0));
    assert(lex_lt(by_name_entry(56).0, by_name_entry(57).0));
    assert(lex_lt(by_name_entry(57).0, by_name_entry(58).0));
    assert(lex_lt(by_name_entry(58).0, by_name_entry(59).0));
    assert(lex_lt(by_name_entry(59).0, by_name_entry(60).0));
    assert(lex_lt(by_name_entry(60).0, by_name_entry(61).0));
    assert(lex_lt(by_name_entry(61).0, by_name_entry(62).0));
    assert(lex_lt(by_name_entry(62).0, by_name_entry(63).0));
    assert(lex_lt(by_name_entry(63).0, by_name_entry(64).0));
}

/// Along the code-ordered table, code points never decrease, and among
/// neighbours that share a code point the earlier name is at least as
/// preferred: shorter, or lowercase at equal length.
pub proof fn lemma_code_table_adjacent_order()
    ensures
        forall|k: int|
            0 <= k < table_len() - 1 ==> (#[trigger] by_code_entry(k)).1 <= by_code_entry(
                k + 1,
            ).1,
        forall|k: int|
            0 <= k < table_len() - 1 && (#[trigger] by_code_entry(k)).1 == by_code_entry(k + 1).1
                ==> preferred_le(by_code_entry(k).0, by_code_entry(k + 1).0),
{
}

/// Every name in the code-ordered table is a well-formed entity name.
pub proof fn lemma_code_table_names_wf()
    ensures
        forall|k: int| 0 <= k < table_len() ==> name_wf((#[trigger] by_code_entry(k)).0),
{
    assert(name_wf(by_code_entry(0).0));
    assert(name_wf(by_code_entry(1).0));
    assert(name_wf(by_code_entry(2).0));
    assert(name_wf(by_code_entry(3).0));
    assert(name_wf(by_code_entry(4).0));
    assert(name_wf(by_code_entry(5).0));
    assert(name_wf(by_code_entry(6).0));
    assert(name_wf(by_code_entry(7).0));
    assert(name_wf(by_code_entry(8).0));
    assert(name_wf(by_code_entry(9).0));
    assert(name_wf(by_code_entry(10).0));
    assert(name_wf(by_code_entry(11).0));
    assert(name_wf(by_code_entry(12).0));
    assert(name_wf(by_code_entry(13).0));
    assert(name_wf(by_code_entry(14).0));
    assert(name_wf(by_code_entry(15).0));
    assert(name_wf(by_code_entry(16).0));
    assert(name_wf(by_code_entry(17).0));
    assert(name_wf(by_code_entry(18).0));
    assert(name_wf(by_code_entry(19).0));
    assert(name_wf(by_code_entry(20).0));
    assert(name_wf(by_code_entry(21).0));
    assert(name_wf(by_code_entry(22).0));
    assert(name_wf(by_code_entry(23).0));
    assert(name_wf(by_code_entry(24).0));
    assert(name_wf(by_code_entry(25).0));
    assert(name_wf(by_code_entry(26).0));
    assert(name_wf(by_code_entry(27).0));
    assert(name_wf(by_code_entry(28).0));
    assert(name_wf(by_code_entry(29).0));
    assert(name_wf(by_code_entry(30).0));
    assert(name_wf(by_code_entry(31).0));
    assert(name_wf(by_code_entry(32).0));
    assert(name_wf(by_code_entry(33).0));
    assert(name_wf(by_code_entry(34).0));
    assert(name_wf(by_code_entry(35).0));
    assert(name_wf(by_code_entry(36).0));
    assert(name_wf(by_code_entry(37).0));
    assert(name_wf(by_code_entry(38).0));
    assert(name_wf(by_code_entry(39).0));
    assert(name_wf(by_code_entry(40).0));
    assert(name_wf(by_code_entry(41).0));
    assert(name_wf(by_code_entry(42).0));
    assert(name_wf(by_code_entry(43).0));
    assert(name_wf(by_code_entry(44).0));
    assert(name_wf(by_code_entry(45).0));
    assert(name_wf(by_code_entry(46).0));
    assert(name_wf(by_code_entry(47).0));
    assert(name_wf(by_code_entry(48).0));
    assert(name_wf(by_code_entry(49).0));
    assert(name_wf(by_code_entry(50).0));
    assert(name_wf(by_code_entry(51).0));
    assert(name_wf(by_code_entry(52).0));
    assert(name_wf(by_code_entry(53).0));
    assert(name_wf(by_code_entry(54).0));
    assert(name_wf(by_code_entry(55).0));
    assert(name_wf(by_code_entry(56).0));
    assert(name_wf(by_code_entry(57).0));
    assert(name_wf(by_code_entry(58).0));
    assert(name_wf(by_code_entry(59).0));
    assert(name_wf(by_code_entry(60).0));
    assert(name_wf(by_code_entry(61).0));
    assert(name_wf(by_code_entry(62).0));
    assert(name_wf(by_code_entry(63).0));
    assert(name_wf(by_code_entry(64).0));
}

} // verus!
