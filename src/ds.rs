//! DS (delegation signer) data as an operator writes it on a command line:
//! `keyTag algorithm digestType digest`, separated by white space.

use vstd::prelude::*;
use crate::text::{is_white_space, parse_unsigned, to_chars, unsigned_of, white_space};

verus! {

/// One DS record of a domain's secure DNS data.
#[derive(Debug, PartialEq, Eq)]
pub struct DsDatum {
    pub key_tag: Option<u32>,
    pub algorithm: Option<u8>,
    pub digest: Option<String>,
    pub digest_type: Option<u8>,
}

/// An error in the arguments that describe server data.
#[derive(Debug, PartialEq, Eq)]
pub enum RdapServerError {
    InvalidArg(String),
}

/// `s[a..b]` is a word of `s`: a longest run of characters that are not white space.
pub open spec fn is_word(s: Seq<char>, a: int, b: int) -> bool {
    &&& 0 <= a < b <= s.len()
    &&& (a == 0 || is_white_space(s[a - 1]))
    &&& (b == s.len() || is_white_space(s[b]))
    &&& forall|k: int| a <= k < b ==> !is_white_space(#[trigger] s[k])
}

/// `ws` bounds, in order, every word of `s`, as `str::split_whitespace` gives them.
pub open spec fn is_word_list(s: Seq<char>, ws: Seq<(usize, usize)>) -> bool {
    &&& forall|i: int| 0 <= i < ws.len() ==> is_word(s, (#[trigger] ws[i]).0 as int, ws[i].1 as int)
    &&& forall|i: int| 0 < i < ws.len() ==> ws[i - 1].1 < (#[trigger] ws[i]).0
    &&& forall|k: int| 0 <= k < s.len() && !is_white_space(#[trigger] s[k]) ==> exists|i: int|
        0 <= i < ws.len() && (#[trigger] ws[i]).0 <= k < ws[i].1
}

pub open spec fn word(s: Seq<char>, w: (usize, usize)) -> Seq<char> {
    s.subrange(w.0 as int, w.1 as int)
}

pub open spec fn invalid_arg(r: Result<DsDatum, RdapServerError>, msg: Seq<char>) -> bool {
    r matches Err(RdapServerError::InvalidArg(m)) && m@ == msg
}

/// What the DS text with words `ws` gives: exactly four words are needed, the first a
/// 32-bit key tag, the next two 8-bit numbers; the fourth is the digest.
pub open spec fn ds_outcome(s: Seq<char>, ws: Seq<(usize, usize)>, r: Result<DsDatum, RdapServerError>) -> bool {
    if ws.len() != 4 {
        invalid_arg(r, "not enough DS data"@)
    } else if unsigned_of(word(s, ws[0]), u32::MAX as nat) is None {
        invalid_arg(r, "cannot parse keyTag"@)
    } else if unsigned_of(word(s, ws[1]), u8::MAX as nat) is None {
        invalid_arg(r, "cannot parse algorithm"@)
    } else if unsigned_of(word(s, ws[2]), u8::MAX as nat) is None {
        invalid_arg(r, "cannot parse digestType"@)
    } else {
        match r {
            Ok(d) => {
                &&& d.key_tag == Some(unsigned_of(word(s, ws[0]), u32::MAX as nat)->Some_0 as u32)
                &&& d.algorithm == Some(unsigned_of(word(s, ws[1]), u8::MAX as nat)->Some_0 as u8)
                &&& d.digest_type == Some(unsigned_of(word(s, ws[2]), u8::MAX as nat)->Some_0 as u8)
                &&& d.digest is Some
                &&& d.digest->Some_0@ == word(s, ws[3])
            },
            Err(_) => false,
        }
    }
}

/// The bounds of the words of `s`, in order.
pub fn split_words(s: &Vec<char>) -> (r: Vec<(usize, usize)>)
    ensures
        is_word_list(s@, r@),
        forall|i: int| 0 <= i < r@.len() ==> (#[trigger] r@[i]).1 <= s@.len(),
{
    let mut ws: Vec<(usize, usize)> = Vec::new();
    let mut i: usize = 0;
    while i < s.len()
        invariant
            i <= s@.len(),
            forall|j: int| 0 <= j < ws@.len() ==> is_word(s@, (#[trigger] ws@[j]).0 as int, ws@[j].1 as int),
            forall|j: int| 0 < j < ws@.len() ==> ws@[j - 1].1 < (#[trigger] ws@[j]).0,
            forall|j: int| 0 <= j < ws@.len() ==> (#[trigger] ws@[j]).1 <= i,
            i > 0 && !is_white_space(s@[i - 1]) ==> ws@.len() > 0 && ws@.last().1 == i,
            forall|k: int| 0 <= k < i && !is_white_space(#[trigger] s@[k]) ==> exists|j: int|
                0 <= j < ws@.len() && (#[trigger] ws@[j]).0 <= k < ws@[j].1,
        decreases s.len() - i,
    {
        if white_space(s[i]) {
            i = i + 1;
        } else {
            let a = i;
            let mut b = i;
            while b < s.len() && !white_space(s[b])
                invariant
                    a <= b <= s@.len(),
                    forall|k: int| a <= k < b ==> !is_white_space(#[trigger] s@[k]),
                decreases s.len() - b,
            {
                b = b + 1;
            }
            assert(a == 0 || is_white_space(s@[a - 1]));
            let ghost old_ws = ws@;
            ws.push((a, b));
            proof {
                assert(is_word(s@, a as int, b as int));
                assert forall|k: int| 0 <= k < b && !is_white_space(#[trigger] s@[k]) implies exists|j: int|
                    0 <= j < ws@.len() && (#[trigger] ws@[j]).0 <= k < ws@[j].1 by {
                    if k >= a {
                        assert(ws@[ws@.len() - 1] == (a, b));
                    } else {
                        let j = choose|j: int| 0 <= j < old_ws.len() && (#[trigger] old_ws[j]).0 <= k < old_ws[j].1;
                        assert(ws@[j] == old_ws[j]);
                    }
                }
                assert forall|j: int| 0 < j < ws@.len() implies ws@[j - 1].1 < (#[trigger] ws@[j]).0 by {
                    if j == ws@.len() - 1 && j > 0 {
                        assert(ws@[j - 1] == old_ws[j - 1]);
                        if old_ws[j - 1].1 == a {
                            assert(!is_white_space(s@[a - 1]));
                        }
                    }
                }
            }
            i = b;
        }
    }
    ws
}

/// Reads DS data: four white-space separated words, the key tag, the algorithm, the
/// digest type and the digest.
pub fn parse_ds_datum(arg: &str) -> (r: Result<DsDatum, RdapServerError>)
    ensures
        exists|ws: Seq<(usize, usize)>| is_word_list(arg@, ws) && ds_outcome(arg@, ws, r),
{
    let sc = to_chars(arg);
    let ws = split_words(&sc);
    if ws.len() != 4 {
        return Err(RdapServerError::InvalidArg(String::from_str("not enough DS data")));
    }
    let key_tag = match parse_unsigned(&sc, ws[0].0, ws[0].1, 0xffff_ffffu64) {
        Some(v) => v as u32,
        None => {
            return Err(RdapServerError::InvalidArg(String::from_str("cannot parse keyTag")));
        },
    };
    let algorithm = match parse_unsigned(&sc, ws[1].0, ws[1].1, 0xffu64) {
        Some(v) => v as u8,
        None => {
            return Err(RdapServerError::InvalidArg(String::from_str("cannot parse algorithm")));
        },
    };
    let digest_type = match parse_unsigned(&sc, ws[2].0, ws[2].1, 0xffu64) {
        Some(v) => v as u8,
        None => {
            return Err(RdapServerError::InvalidArg(String::from_str("cannot parse digestType")));
        },
    };
    let digest = arg.substring_char(ws[3].0, ws[3].1).to_owned();
    Ok(DsDatum {
        key_tag: Some(key_tag),
        algorithm: Some(algorithm),
        digest: Some(digest),
        digest_type: Some(digest_type),
    })
}

} // verus!
