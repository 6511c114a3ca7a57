//! Verified text helpers: ASCII case folding and substring search over
//! character sequences.
//!
//! Case folding is deliberately ASCII-only. Folding `A`..`Z` is a
//! few-line function whose whole behavior is stated exactly and
//! proved; full Unicode folding could only be called through an
//! unverified library function whose result no contract here could
//! pin down. Emoji names and shortcodes are ASCII throughout but for
//! a handful of proper names, so for the catalog this folding gives
//! the case-insensitive matching the search rule asks for; a name's
//! accented capital letter matches only in its own case.

use vstd::prelude::*;

verus! {

/// ASCII lower-casing of one character: `A`..`Z` fold to `a`..`z`,
/// every other character is unchanged.
pub open spec fn lower_char(c: char) -> char {
    if 65 <= c as u32 && c as u32 <= 90 {
        (((c as u32) as u8) + 32) as char
    } else {
        c
    }
}

/// ASCII lower-casing of a character sequence.
pub open spec fn lower_seq(s: Seq<char>) -> Seq<char> {
    s.map_values(|c: char| lower_char(c))
}

/// `needle` occurs in `hay` starting at position `i`.
pub open spec fn matches_at(hay: Seq<char>, needle: Seq<char>, i: int) -> bool {
    &&& 0 <= i
    &&& i + needle.len() <= hay.len()
    &&& hay.subrange(i, i + needle.len() as int) == needle
}

/// `needle` occurs somewhere in `hay`.
pub open spec fn contains_seq(hay: Seq<char>, needle: Seq<char>) -> bool {
    exists|i: int| matches_at(hay, needle, i)
}

/// `needle` occurs in `hay` when both are compared case insensitively.
pub open spec fn contains_ci(hay: Seq<char>, needle: Seq<char>) -> bool {
    contains_seq(lower_seq(hay), lower_seq(needle))
}

/// Lower-cases one character.
pub fn lower_char_exec(c: char) -> (r: char)
    ensures
        r == lower_char(c),
{
    let u = c as u32;
    if 65 <= u && u <= 90 {
        ((u as u8) + 32) as char
    } else {
        c
    }
}

/// The characters of `s`, lower-cased, as a vector.
pub fn lower_chars(s: &str) -> (r: Vec<char>)
    ensures
        r@ == lower_seq(s@),
{
    let len = s.unicode_len();
    let mut r: Vec<char> = Vec::new();
    let mut i: usize = 0;
    while i < len
        invariant
            len == s@.len(),
            0 <= i <= len,
            r@.len() == i,
            forall|k: int| 0 <= k < i ==> r@[k] == lower_char(#[trigger] s@[k]),
        decreases len - i,
    {
        let c = s.get_char(i);
        r.push(lower_char_exec(c));
        i = i + 1;
    }
    proof {
        assert(r@ =~= lower_seq(s@));
    }
    r
}

/// The characters of `s`, as a vector.
pub fn chars_of(s: &str) -> (r: Vec<char>)
    ensures
        r@ == s@,
{
    let len = s.unicode_len();
    let mut r: Vec<char> = Vec::new();
    let mut i: usize = 0;
    while i < len
        invariant
            len == s@.len(),
            0 <= i <= len,
            r@.len() == i,
            forall|k: int| 0 <= k < i ==> r@[k] == #[trigger] s@[k],
        decreases len - i,
    {
        r.push(s.get_char(i));
        i = i + 1;
    }
    proof {
        assert(r@ =~= s@);
    }
    r
}

/// Whether `needle` occurs in `hay` starting at `i`, checked literally.
pub fn matches_at_exec(hay: &Vec<char>, needle: &Vec<char>, i: usize) -> (r: bool)
    requires
        i + needle@.len() <= hay@.len(),
    ensures
        r == matches_at(hay@, needle@, i as int),
{
    let hlen = hay.len();
    let mut j: usize = 0;
    while j < needle.len()
        invariant
            hlen == hay@.len(),
            i + needle@.len() <= hay@.len(),
            0 <= j <= needle@.len(),
            forall|k: int| 0 <= k < j ==> hay@[i + k] == #[trigger] needle@[k],
        decreases needle@.len() - j,
    {
        if hay[i + j] != needle[j] {
            assert(hay@.subrange(i as int, i + needle@.len() as int)[j as int] != needle@[j as int]);
            return false;
        }
        j = j + 1;
    }
    proof {
        assert(hay@.subrange(i as int, i + needle@.len() as int) =~= needle@);
    }
    true
}

/// Compares a string with a character vector.
pub fn string_eq_chars(s: &String, v: &Vec<char>) -> (r: bool)
    ensures
        r == (s@ == v@),
{
    let len = s.as_str().unicode_len();
    if len != v.len() {
        return false;
    }
    let mut i: usize = 0;
    while i < len
        invariant
            len == s@.len(),
            len == v@.len(),
            0 <= i <= len,
            forall|k: int| 0 <= k < i ==> s@[k] == #[trigger] v@[k],
        decreases len - i,
    {
        if s.as_str().get_char(i) != v[i] {
            return false;
        }
        i = i + 1;
    }
    proof {
        assert(s@ =~= v@);
    }
    true
}

/// Whether `needle` occurs in `hay` starting at `i`; false when the
/// needle would run past the end.
pub fn prefix_at(hay: &Vec<char>, needle: &Vec<char>, i: usize) -> (r: bool)
    ensures
        r == matches_at(hay@, needle@, i as int),
{
    if i > hay.len() || needle.len() > hay.len() - i {
        proof {
            assert(!matches_at(hay@, needle@, i as int));
        }
        return false;
    }
    matches_at_exec(hay, needle, i)
}

/// Whether `needle` occurs anywhere in `hay`, checked literally.
pub fn contains_chars(hay: &Vec<char>, needle: &Vec<char>) -> (r: bool)
    ensures
        r == contains_seq(hay@, needle@),
{
    if needle.len() > hay.len() {
        assert(forall|i: int| !matches_at(hay@, needle@, i));
        return false;
    }
    if needle.len() == 0 {
        proof {
            assert(hay@.subrange(0, 0) =~= needle@);
            assert(matches_at(hay@, needle@, 0));
        }
        return true;
    }
    let hlen = hay.len();
    let last = hlen - needle.len();
    let mut i: usize = 0;
    while i <= last
        invariant
            hlen == hay@.len(),
            1 <= needle@.len() <= hay@.len(),
            last == hay@.len() - needle@.len(),
            0 <= i <= last + 1,
            forall|k: int| 0 <= k < i ==> !matches_at(hay@, needle@, k),
        decreases last + 1 - i,
    {
        if matches_at_exec(hay, needle, i) {
            return true;
        }
        i = i + 1;
    }
    assert(forall|k: int| k > last ==> !matches_at(hay@, needle@, k));
    false
}

/// Whether `needle` occurs in `hay` when both are folded to lower case.
/// Both arguments are given already folded by [`lower_chars`].
pub fn contains_folded(hay_folded: &Vec<char>, needle_folded: &Vec<char>) -> (r: bool)
    ensures
        r == contains_seq(hay_folded@, needle_folded@),
{
    contains_chars(hay_folded, needle_folded)
}

} // verus!
