//! Case-insensitive text matching for registry searches: lowercasing through
//! the standard library, and a verified substring search over the resulting
//! bytes.

use vstd::prelude::*;
use vstd::string::StrSliceExecFns;
use vstd::utf8::encode_utf8;
use crate::registration::{Registration, RegistrationView};

verus! {

/// The character sequence `str::to_lowercase` produces for a given input.
pub uninterp spec fn lower_of(s: Seq<char>) -> Seq<char>;

/// Relies on str::to_lowercase: the result is a function of the input
/// characters alone.
#[verifier::external_body]
fn to_lower(s: &String) -> (r: String)
    ensures
        r@ == lower_of(s@),
{
    s.to_lowercase()
}

/// UTF-8 bytes of the lowercased text.
pub open spec fn lowered(s: Seq<char>) -> Seq<u8> {
    encode_utf8(lower_of(s))
}

/// Lowercases a text and yields its UTF-8 bytes.
pub fn lower_bytes(s: &String) -> (r: Vec<u8>)
    ensures
        r@ == lowered(s@),
{
    let low = to_lower(s);
    low.as_str().as_bytes_vec()
}

/// `needle` occurs contiguously somewhere inside `hay`.
pub open spec fn contains_sub(hay: Seq<u8>, needle: Seq<u8>) -> bool {
    exists|s: int|
        0 <= s <= hay.len() - needle.len() && #[trigger] hay.subrange(s, s + needle.len())
            == needle
}

/// Substring search: whether `needle` occurs anywhere inside `hay`.
pub fn contains_bytes(hay: &Vec<u8>, needle: &Vec<u8>) -> (r: bool)
    ensures
        r == contains_sub(hay@, needle@),
{
    let hlen: usize = hay.len();
    let nlen: usize = needle.len();
    if nlen == 0 {
        proof {
            assert(hay@.subrange(0, 0 + needle@.len() as int) =~= needle@);
        }
        return true;
    }
    if nlen > hlen {
        return false;
    }
    let bound: usize = hlen - nlen;
    let mut i: usize = 0;
    while i <= bound
        invariant
            hlen == hay@.len(),
            nlen == needle@.len(),
            1 <= nlen <= hlen,
            bound == hlen - nlen,
            0 <= i <= bound + 1,
            forall|s: int|
                0 <= s < i ==> #[trigger] hay@.subrange(s, s + needle@.len()) != needle@,
        decreases bound + 1 - i,
    {
        let mut j: usize = 0;
        let mut matched: bool = true;
        while matched && j < nlen
            invariant
                hlen == hay@.len(),
                nlen == needle@.len(),
                i + nlen <= hlen,
                0 <= j <= nlen,
                matched ==> forall|t: int| 0 <= t < j ==> hay@[i + t] == needle@[t],
                !matched ==> hay@.subrange(i as int, i + needle@.len()) != needle@,
            decreases nlen - j, (if matched { 1int } else { 0int }),
        {
            if hay[i + j] != needle[j] {
                proof {
                    assert(hay@.subrange(i as int, i + needle@.len())[j as int] == hay@[i + j]);
                }
                matched = false;
            } else {
                j += 1;
            }
        }
        if matched {
            proof {
                assert(hay@.subrange(i as int, i + needle@.len()) =~= needle@);
            }
            return true;
        }
        i += 1;
    }
    false
}

/// Whether a registration matches a lowercased query: a case-insensitive
/// substring match against its title, description, or license type.
pub open spec fn reg_matches(r: RegistrationView, query_lower: Seq<u8>) -> bool {
    ||| contains_sub(lowered(r.title), query_lower)
    ||| contains_sub(lowered(r.description), query_lower)
    ||| contains_sub(lowered(r.license_type), query_lower)
}

/// Matches one registration against the lowercased bytes of a query.
pub fn matches_query(reg: &Registration, query_lower: &Vec<u8>) -> (r: bool)
    ensures
        r == reg_matches(reg@, query_lower@),
{
    let t = lower_bytes(&reg.title);
    if contains_bytes(&t, query_lower) {
        return true;
    }
    let d = lower_bytes(&reg.description);
    if contains_bytes(&d, query_lower) {
        return true;
    }
    let l = lower_bytes(&reg.license_type);
    contains_bytes(&l, query_lower)
}

} // verus!
