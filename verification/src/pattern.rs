//! Patterns that locate the first match inside a buffer of code points.
//!
//! A pattern is given the unconsumed remainder of a buffer and answers with
//! the offset of its first match, or `None`.  Built-in patterns cover a
//! single code point, a literal text value, a set of candidate code points,
//! and a caller-supplied predicate over one code point.

use vstd::prelude::*;

verus! {

/// A capability that, given the unconsumed remainder of a buffer, returns the
/// offset of the first match, or `None` when nothing matches.
///
/// Each implementation says with [`Pattern::found`] what its answer means,
/// and `find` promises to return such an answer, at an offset inside the
/// slice it was given.
pub trait Pattern: Sized {
    /// What a search with this pattern asks of its caller; `true` for every
    /// built-in pattern except caller-supplied predicate functions.
    spec fn find_requires(self, s: Seq<char>) -> bool;

    /// What it means for `r` to be this pattern's answer on `s`: the offset
    /// of the first match, or `None` when nothing in `s` matches.
    spec fn found(self, s: Seq<char>, r: Option<usize>) -> bool;

    /// The offset of the first match of `self` in `s`, or `None`.
    fn find(self, s: &[char]) -> (r: Option<usize>)
        requires
            self.find_requires(s@),
        ensures
            self.found(s@, r),
            r matches Some(i) ==> i <= s@.len(),
    ;
}

/// No occurrence of `c` lies in the first `n` code points of `s`.
pub open spec fn no_char_before(s: Seq<char>, c: char, n: int) -> bool {
    forall|j: int| 0 <= j < n ==> s[j] != c
}

/// Finds the first occurrence of the code point `c` in `s`.
pub fn find_char(s: &[char], c: char) -> (r: Option<usize>)
    ensures
        match r {
            Some(i) => i < s@.len() && s@[i as int] == c && no_char_before(s@, c, i as int),
            None => no_char_before(s@, c, s@.len() as int),
        },
{
    let mut i: usize = 0;
    while i < s.len()
        invariant
            0 <= i <= s@.len(),
            no_char_before(s@, c, i as int),
        decreases s@.len() - i,
    {
        if s[i] == c {
            return Some(i);
        }
        i = i + 1;
    }
    None
}

/// Decides whether `c` occurs in `cands`.
pub fn slice_contains_char(cands: &[char], c: char) -> (r: bool)
    ensures
        r == cands@.contains(c),
{
    let mut i: usize = 0;
    while i < cands.len()
        invariant
            0 <= i <= cands@.len(),
            forall|j: int| 0 <= j < i ==> cands@[j] != c,
        decreases cands@.len() - i,
    {
        if cands[i] == c {
            return true;
        }
        i = i + 1;
    }
    false
}

/// None of the first `n` code points of `s` belongs to `cands`.
pub open spec fn no_any_of_before(s: Seq<char>, cands: Seq<char>, n: int) -> bool {
    forall|j: int| 0 <= j < n ==> !cands.contains(s[j])
}

/// The offset of the first code point of `s` that belongs to `cands`, as an
/// answer in the sense of [`Pattern::found`].
pub open spec fn any_of_found(s: Seq<char>, cands: Seq<char>, r: Option<usize>) -> bool {
    match r {
        Some(i) => i < s.len() && cands.contains(s[i as int]) && no_any_of_before(
            s,
            cands,
            i as int,
        ),
        None => no_any_of_before(s, cands, s.len() as int),
    }
}

/// Finds the first code point of `s` that belongs to `cands`.
pub fn find_any_of(s: &[char], cands: &[char]) -> (r: Option<usize>)
    ensures
        any_of_found(s@, cands@, r),
{
    let mut i: usize = 0;
    while i < s.len()
        invariant
            0 <= i <= s@.len(),
            no_any_of_before(s@, cands@, i as int),
        decreases s@.len() - i,
    {
        if slice_contains_char(cands, s[i]) {
            return Some(i);
        }
        i = i + 1;
    }
    None
}

/// A copy of `needle` starts at offset `i` of `hay`.
pub open spec fn sub_match_at(hay: Seq<char>, needle: Seq<char>, i: int) -> bool {
    &&& 0 <= i
    &&& i + needle.len() <= hay.len()
    &&& hay.subrange(i, i + needle.len() as int) == needle
}

/// No copy of `needle` starts before offset `n` of `hay`.
pub open spec fn no_sub_match_before(hay: Seq<char>, needle: Seq<char>, n: int) -> bool {
    forall|j: int| 0 <= j < n ==> !sub_match_at(hay, needle, j)
}

/// The offset of the first copy of `needle` in `hay`, as an answer in the
/// sense of [`Pattern::found`].
pub open spec fn sub_found(hay: Seq<char>, needle: Seq<char>, r: Option<usize>) -> bool {
    match r {
        Some(i) => sub_match_at(hay, needle, i as int) && no_sub_match_before(
            hay,
            needle,
            i as int,
        ),
        None => forall|j: int| !sub_match_at(hay, needle, j),
    }
}

/// Decides whether a copy of `needle` starts at offset `i` of `hay`.
pub fn sub_matches_at(hay: &[char], needle: &str, i: usize) -> (r: bool)
    requires
        i + needle@.len() <= hay@.len(),
    ensures
        r == sub_match_at(hay@, needle@, i as int),
{
    let nlen: usize = needle.unicode_len();
    let hlen: usize = hay.len();
    let mut j: usize = 0;
    while j < nlen
        invariant
            nlen == needle@.len(),
            hlen == hay@.len(),
            i + nlen <= hlen,
            0 <= j <= nlen,
            forall|k: int| 0 <= k < j ==> hay@[i + k] == needle@[k],
        decreases nlen - j,
    {
        if hay[i + j] != needle.get_char(j) {
            proof {
                assert(!sub_match_at(hay@, needle@, i as int)) by {
                    if hay@.subrange(i as int, i + needle@.len() as int) == needle@ {
                        assert(hay@.subrange(i as int, i + needle@.len() as int)[j as int]
                            == hay@[i + j]);
                    }
                }
            }
            return false;
        }
        j = j + 1;
    }
    proof {
        assert(hay@.subrange(i as int, i + needle@.len() as int) =~= needle@);
    }
    true
}

/// Finds the offset of the first copy of `needle` in `hay`; an empty needle
/// matches at offset zero.
pub fn find_sub(hay: &[char], needle: &str) -> (r: Option<usize>)
    ensures
        sub_found(hay@, needle@, r),
        r matches Some(i) ==> i <= hay@.len(),
{
    let nlen: usize = needle.unicode_len();
    let hlen: usize = hay.len();
    if nlen > hlen {
        return None;
    }
    if nlen == 0 {
        proof {
            assert(hay@.subrange(0, 0) =~= needle@);
        }
        return Some(0);
    }
    let mut i: usize = 0;
    while i <= hlen - nlen
        invariant
            nlen == needle@.len(),
            hlen == hay@.len(),
            1 <= nlen <= hlen,
            0 <= i <= hlen - nlen + 1,
            no_sub_match_before(hay@, needle@, i as int),
        decreases hlen - nlen - i + 1,
    {
        if sub_matches_at(hay, needle, i) {
            return Some(i);
        }
        i = i + 1;
    }
    proof {
        assert forall|j: int| !sub_match_at(hay@, needle@, j) by {
            if 0 <= j < i {
                assert(!sub_match_at(hay@, needle@, j));
            }
        }
    }
    None
}

impl Pattern for char {
    open spec fn find_requires(self, s: Seq<char>) -> bool {
        true
    }

    open spec fn found(self, s: Seq<char>, r: Option<usize>) -> bool {
        match r {
            Some(i) => i < s.len() && s[i as int] == self && no_char_before(s, self, i as int),
            None => no_char_before(s, self, s.len() as int),
        }
    }

    fn find(self, s: &[char]) -> (r: Option<usize>) {
        find_char(s, self)
    }
}

impl<'b> Pattern for &'b str {
    open spec fn find_requires(self, s: Seq<char>) -> bool {
        true
    }

    open spec fn found(self, s: Seq<char>, r: Option<usize>) -> bool {
        sub_found(s, self@, r)
    }

    fn find(self, s: &[char]) -> (r: Option<usize>) {
        find_sub(s, self)
    }
}

impl<'b, 'c> Pattern for &'c &'b str {
    open spec fn find_requires(self, s: Seq<char>) -> bool {
        true
    }

    open spec fn found(self, s: Seq<char>, r: Option<usize>) -> bool {
        sub_found(s, self@, r)
    }

    fn find(self, s: &[char]) -> (r: Option<usize>) {
        find_sub(s, *self)
    }
}

impl<'b> Pattern for &'b String {
    open spec fn find_requires(self, s: Seq<char>) -> bool {
        true
    }

    open spec fn found(self, s: Seq<char>, r: Option<usize>) -> bool {
        sub_found(s, self@, r)
    }

    fn find(self, s: &[char]) -> (r: Option<usize>) {
        find_sub(s, self.as_str())
    }
}

impl<'b> Pattern for &'b [char] {
    open spec fn find_requires(self, s: Seq<char>) -> bool {
        true
    }

    open spec fn found(self, s: Seq<char>, r: Option<usize>) -> bool {
        any_of_found(s, self@, r)
    }

    fn find(self, s: &[char]) -> (r: Option<usize>) {
        find_any_of(s, self)
    }
}

impl<'b, const N: usize> Pattern for &'b [char; N] {
    open spec fn find_requires(self, s: Seq<char>) -> bool {
        true
    }

    open spec fn found(self, s: Seq<char>, r: Option<usize>) -> bool {
        any_of_found(s, self@, r)
    }

    fn find(self, s: &[char]) -> (r: Option<usize>) {
        find_any_of(s, self.as_slice())
    }
}

impl<const N: usize> Pattern for [char; N] {
    open spec fn find_requires(self, s: Seq<char>) -> bool {
        true
    }

    open spec fn found(self, s: Seq<char>, r: Option<usize>) -> bool {
        any_of_found(s, self@, r)
    }

    fn find(self, s: &[char]) -> (r: Option<usize>) {
        find_any_of(s, self.as_slice())
    }
}

impl<F: Fn(char) -> bool> Pattern for F {
    open spec fn find_requires(self, s: Seq<char>) -> bool {
        forall|j: int| 0 <= j < s.len() ==> call_requires(self, (s[j],))
    }

    open spec fn found(self, s: Seq<char>, r: Option<usize>) -> bool {
        match r {
            Some(i) => i < s.len() && call_ensures(self, (s[i as int],), true) && forall|j: int|
                0 <= j < i ==> call_ensures(self, (s[j],), false),
            None => forall|j: int| 0 <= j < s.len() ==> call_ensures(self, (s[j],), false),
        }
    }

    fn find(self, s: &[char]) -> (r: Option<usize>) {
        let mut i: usize = 0;
        while i < s.len()
            invariant
                0 <= i <= s@.len(),
                forall|j: int| 0 <= j < s@.len() ==> call_requires(self, (s@[j],)),
                forall|j: int| 0 <= j < i ==> call_ensures(self, (s@[j],), false),
            decreases s@.len() - i,
        {
            if self(s[i]) {
                return Some(i);
            }
            i = i + 1;
        }
        None
    }
}

} // verus!
