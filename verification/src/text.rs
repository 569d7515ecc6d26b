//! Text handling over UTF-8 bytes: Unicode case folding behind a
//! trusted boundary, a verified character count, and a verified
//! substring search.
use vstd::prelude::*;

verus! {

/// What Unicode case folding gives on a text's UTF-8 bytes: a function
/// of the bytes alone, named here and left to `str::to_lowercase`.
pub uninterp spec fn lower_of(s: Seq<u8>) -> Seq<u8>;

/// Relies on `str::to_lowercase`: Unicode lowercasing, a function of
/// the characters alone, so of the bytes alone once they are read as
/// UTF-8 (invalid sequences are read as the replacement character,
/// deterministically).
#[verifier::external_body]
pub(crate) fn fold_case(v: &Vec<u8>) -> (r: Vec<u8>)
    ensures
        r@ == lower_of(v@),
{
    String::from_utf8_lossy(v.as_slice()).to_lowercase().into_bytes()
}

/// Whether a byte starts a UTF-8 encoded character: every byte but the
/// continuation bytes. On well-formed UTF-8 the starts count the
/// characters.
pub open spec fn is_char_start(b: u8) -> bool {
    b < 128 || b >= 192
}

/// How many UTF-8 characters a byte sequence holds: its character
/// starts.
pub open spec fn char_count(s: Seq<u8>) -> nat
    decreases s.len(),
{
    if s.len() == 0 {
        0
    } else {
        char_count(s.drop_last()) + (if is_char_start(s.last()) {
            1 as nat
        } else {
            0 as nat
        })
    }
}

/// Counts the UTF-8 characters of a byte vector.
pub fn char_count_bytes(v: &Vec<u8>) -> (r: usize)
    ensures
        r == char_count(v@),
{
    let mut count: usize = 0;
    let mut i: usize = 0;
    while i < v.len()
        invariant
            0 <= i <= v.len(),
            count <= i,
            count == char_count(v@.subrange(0, i as int)),
        decreases v.len() - i,
    {
        let b = v[i];
        if b < 128 || b >= 192 {
            count = count + 1;
        }
        proof {
            assert(v@.subrange(0, i + 1).drop_last() =~= v@.subrange(0, i as int));
            assert(v@.subrange(0, i + 1).last() == v@[i as int]);
        }
        i = i + 1;
    }
    proof {
        assert(v@.subrange(0, v@.len() as int) =~= v@);
    }
    count
}

/// Whether `needle` occurs as a contiguous run inside `hay`. The empty
/// needle occurs in everything.
pub open spec fn contains_seq(hay: Seq<u8>, needle: Seq<u8>) -> bool {
    exists|i: int|
        0 <= i <= hay.len() - needle.len() && #[trigger] hay.subrange(i, i + needle.len() as int)
            == needle
}

/// Whether `needle` stands at offset `at` of `hay`.
fn match_at(hay: &Vec<u8>, needle: &Vec<u8>, at: usize) -> (r: bool)
    requires
        at + needle@.len() <= hay@.len(),
    ensures
        r <==> hay@.subrange(at as int, at + needle@.len() as int) == needle@,
{
    let hlen = hay.len();
    let mut j: usize = 0;
    while j < needle.len()
        invariant
            at + needle@.len() <= hay@.len(),
            hlen == hay@.len(),
            0 <= j <= needle.len(),
            forall|k: int| 0 <= k < j ==> hay@[at + k] == needle@[k],
        decreases needle.len() - j,
    {
        if hay[at + j] != needle[j] {
            proof {
                let sub = hay@.subrange(at as int, at + needle@.len() as int);
                assert(sub[j as int] != needle@[j as int]);
            }
            return false;
        }
        j = j + 1;
    }
    proof {
        assert(hay@.subrange(at as int, at + needle@.len() as int) =~= needle@);
    }
    true
}

/// Whether `needle` occurs as a contiguous run inside `hay`.
pub fn contains_bytes(hay: &Vec<u8>, needle: &Vec<u8>) -> (r: bool)
    ensures
        r == contains_seq(hay@, needle@),
{
    if needle.len() > hay.len() {
        return false;
    }
    if needle.len() == 0 {
        proof {
            assert(hay@.subrange(0, 0 + needle@.len() as int) =~= needle@);
        }
        return true;
    }
    let bound = hay.len() - needle.len();
    let mut i: usize = 0;
    while i <= bound
        invariant
            1 <= needle@.len() <= hay@.len(),
            bound == hay@.len() - needle@.len(),
            bound <= usize::MAX - 1,
            0 <= i <= bound + 1,
            forall|k: int|
                0 <= k < i ==> #[trigger] hay@.subrange(k, k + needle@.len() as int) != needle@,
        decreases bound + 1 - i,
    {
        if match_at(hay, needle, i) {
            return true;
        }
        i = i + 1;
    }
    false
}

} // verus!
