//! Small helpers on strings and their views as sequences of characters, as the reading of
//! names needs them.

use vstd::prelude::*;
use crate::first::{first_from, lemma_first_from};

verus! {

/// The view of an optional string.
pub open spec fn opt_view(s: Option<String>) -> Option<Seq<char>> {
    match s {
        None => None,
        Some(s) => Some(s@),
    }
}

/// The view of an optional string slice.
pub open spec fn str_view(s: Option<&str>) -> Option<Seq<char>> {
    match s {
        None => None,
        Some(s) => Some(s@),
    }
}

/// The test that holds of the character `c` alone.
pub open spec fn is_char(c: char) -> spec_fn(char) -> bool {
    |x: char| x == c
}

/// The first index at or after `from` at which `c` occurs in `s`, or `s.len()` if there is none.
pub open spec fn find_char(s: Seq<char>, c: char, from: int) -> int {
    first_from(s, is_char(c), from)
}

/// `find_char` stays within the sequence, lands on `c` when it lands inside, and passes no `c`.
pub proof fn lemma_find_char(s: Seq<char>, c: char, from: int)
    requires
        0 <= from <= s.len(),
    ensures
        from <= find_char(s, c, from) <= s.len(),
        find_char(s, c, from) < s.len() ==> s[find_char(s, c, from)] == c,
        forall|j: int| from <= j < find_char(s, c, from) ==> s[j] != c,
{
    lemma_first_from(s, is_char(c), from);
}

/// Whether two string slices hold the same characters.
pub fn str_eq(a: &str, b: &str) -> (r: bool)
    ensures
        r == (a@ == b@),
{
    let x = a.to_owned();
    let y = b.to_owned();
    x == y
}

/// A copy of an optional string.
pub fn clone_opt_string(s: &Option<String>) -> (r: Option<String>)
    ensures
        opt_view(r) == opt_view(*s),
{
    match s {
        None => None,
        Some(text) => Some(text.clone()),
    }
}

/// An optional string slice as an owned optional string.
pub fn own_opt_str(s: Option<&str>) -> (r: Option<String>)
    ensures
        opt_view(r) == str_view(s),
{
    match s {
        None => None,
        Some(text) => Some(text.to_owned()),
    }
}

/// The index of the first `c` in `s`, or the length of `s` if it holds none.
pub fn index_of_char(s: &str, c: char) -> (r: usize)
    ensures
        r == find_char(s@, c, 0),
{
    let n: usize = s.unicode_len();
    let mut i: usize = 0;
    while i < n
        invariant
            n == s@.len(),
            0 <= i <= n,
            find_char(s@, c, 0) == find_char(s@, c, i as int),
        decreases n - i,
    {
        if s.get_char(i) == c {
            return i;
        }
        i = i + 1;
    }
    i
}

/// The characters of `s` from `from` up to, but without, `to`.
pub fn slice_chars(s: &str, from: usize, to: usize) -> (r: String)
    requires
        from <= to <= s@.len(),
    ensures
        r@ == s@.subrange(from as int, to as int),
{
    s.substring_char(from, to).to_owned()
}

} // verus!
