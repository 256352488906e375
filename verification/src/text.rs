//! Character-level text primitives: substring containment and string
//! equality, stated over the character sequences that `&str` values view to.

use vstd::prelude::*;
use vstd::string::StrSliceExecFns;

verus! {

/// `needle` occurs in `hay` starting at character position `i`.
pub open spec fn occ_at(hay: Seq<char>, needle: Seq<char>, i: int) -> bool {
    &&& 0 <= i
    &&& i + needle.len() <= hay.len()
    &&& hay.subrange(i, i + needle.len()) == needle
}

/// `needle` occurs somewhere in `hay`.
pub open spec fn contains_seq(hay: Seq<char>, needle: Seq<char>) -> bool {
    exists|i: int| occ_at(hay, needle, i)
}

/// `s` holds the character `c` somewhere.
pub open spec fn contains_char(s: Seq<char>, c: char) -> bool {
    exists|i: int| 0 <= i < s.len() && s[i] == c
}

/// `needle` occurs in `hay` at exactly one position.
pub open spec fn contains_once(hay: Seq<char>, needle: Seq<char>) -> bool {
    &&& contains_seq(hay, needle)
    &&& forall|i: int, j: int| occ_at(hay, needle, i) && occ_at(hay, needle, j) ==> i == j
}

/// Whether `needle` matches `hay` at character position `i`.
fn match_at(hay: &str, needle: &str, i: usize, hay_len: usize, needle_len: usize) -> (b: bool)
    requires
        hay_len == hay@.len(),
        needle_len == needle@.len(),
        i + needle_len <= hay_len,
    ensures
        b == occ_at(hay@, needle@, i as int),
{
    let mut j: usize = 0;
    while j < needle_len
        invariant
            hay_len == hay@.len(),
            needle_len == needle@.len(),
            i + needle_len <= hay_len,
            j <= needle_len,
            forall|k: int| 0 <= k < j ==> hay@[i + k] == needle@[k],
        decreases needle_len - j,
    {
        if hay.get_char(i + j) != needle.get_char(j) {
            proof {
                if occ_at(hay@, needle@, i as int) {
                    assert(hay@.subrange(i as int, i + needle@.len())[j as int] == needle@[j as int]);
                }
            }
            return false;
        }
        j += 1;
    }
    proof {
        assert(hay@.subrange(i as int, i + needle@.len()) =~= needle@);
    }
    true
}

/// Substring test: does `hay` contain `needle` anywhere?
pub fn contains_substr(hay: &str, needle: &str) -> (b: bool)
    ensures
        b == contains_seq(hay@, needle@),
{
    let hay_len = hay.unicode_len();
    let needle_len = needle.unicode_len();
    if needle_len == 0 {
        proof {
            assert(hay@.subrange(0, 0) =~= needle@);
            assert(occ_at(hay@, needle@, 0));
        }
        return true;
    }
    if needle_len > hay_len {
        proof {
            assert forall|k: int| !occ_at(hay@, needle@, k) by {}
        }
        return false;
    }
    let mut i: usize = 0;
    while i <= hay_len - needle_len
        invariant
            hay_len == hay@.len(),
            needle_len == needle@.len(),
            0 < needle_len <= hay_len,
            i <= hay_len - needle_len + 1,
            forall|k: int| 0 <= k < i ==> !occ_at(hay@, needle@, k),
        decreases hay_len - needle_len + 1 - i,
    {
        if match_at(hay, needle, i, hay_len, needle_len) {
            proof {
                assert(occ_at(hay@, needle@, i as int));
            }
            return true;
        }
        i += 1;
    }
    proof {
        assert forall|k: int| !occ_at(hay@, needle@, k) by {
            if 0 <= k < i as int {
            }
        }
    }
    false
}

/// Character-for-character string equality.
pub fn str_eq(a: &str, b: &str) -> (r: bool)
    ensures
        r == (a@ == b@),
{
    let a_len = a.unicode_len();
    let b_len = b.unicode_len();
    if a_len != b_len {
        return false;
    }
    let mut i: usize = 0;
    while i < a_len
        invariant
            a_len == a@.len(),
            a_len == b@.len(),
            i <= a_len,
            forall|k: int| 0 <= k < i ==> a@[k] == b@[k],
        decreases a_len - i,
    {
        if a.get_char(i) != b.get_char(i) {
            return false;
        }
        i += 1;
    }
    proof {
        assert(a@ =~= b@);
    }
    true
}

/// Relies on `String::push`: appends the given character to the end of the
/// string.
#[verifier::external_body]
pub(crate) fn push_char(s: &mut String, c: char)
    ensures
        final(s)@ == old(s)@.push(c),
{
    s.push(c);
}

/// Index of the first occurrence of character `c` in `s`, if any.
pub fn find_char(s: &str, c: char) -> (r: Option<usize>)
    ensures
        match r {
            Some(i) => i < s@.len() && s@[i as int] == c
                && forall|k: int| 0 <= k < i ==> s@[k] != c,
            None => forall|k: int| 0 <= k < s@.len() ==> s@[k] != c,
        },
{
    let len = s.unicode_len();
    let mut i: usize = 0;
    while i < len
        invariant
            len == s@.len(),
            i <= len,
            forall|k: int| 0 <= k < i ==> s@[k] != c,
        decreases len - i,
    {
        if s.get_char(i) == c {
            return Some(i);
        }
        i += 1;
    }
    None
}

} // verus!
