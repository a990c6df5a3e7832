//! Byte-level lexical ground rules of the directive grammar.
//!
//! A line is modelled as a sequence of bytes. Three byte classes matter:
//! whitespace (which may precede and follow the delimiter literal), word
//! bytes (which delimit whole-word identifier matches), and separators
//! (comma or whitespace, which delimit a `*` token in a case list).

use vstd::prelude::*;

verus! {

/// Whitespace: space, tab, line feed, vertical tab, form feed, carriage return.
pub open spec fn spec_is_space(b: u8) -> bool {
    b == 32 || b == 9 || b == 10 || b == 11 || b == 12 || b == 13
}

/// Word bytes: ASCII letters, digits, and underscore. A whole-word match
/// requires a non-word byte (or the string edge) on both sides.
pub open spec fn spec_is_word(b: u8) -> bool {
    (48 <= b && b <= 57) || (65 <= b && b <= 90) || (97 <= b && b <= 122) || b == 95
}

/// Separators that may surround a `*` token in a case list: comma or whitespace.
pub open spec fn spec_is_sep(b: u8) -> bool {
    b == 44 || spec_is_space(b)
}

/// Runtime test for [`spec_is_space`].
pub fn is_space_byte(b: u8) -> (r: bool)
    ensures
        r == spec_is_space(b),
{
    b == 32 || b == 9 || b == 10 || b == 11 || b == 12 || b == 13
}

/// Runtime test for [`spec_is_word`].
pub fn is_word_byte(b: u8) -> (r: bool)
    ensures
        r == spec_is_word(b),
{
    (48 <= b && b <= 57) || (65 <= b && b <= 90) || (97 <= b && b <= 122) || b == 95
}

/// Runtime test for [`spec_is_sep`].
pub fn is_sep_byte(b: u8) -> (r: bool)
    ensures
        r == spec_is_sep(b),
{
    b == 44 || is_space_byte(b)
}

/// Index of the first byte at or after `from` that is not whitespace, or the
/// length of `s` if whitespace runs to the end.
pub open spec fn spec_ws_end(s: Seq<u8>, from: int) -> int
    decreases s.len() - from,
{
    if from < s.len() && spec_is_space(s[from]) {
        spec_ws_end(s, from + 1)
    } else {
        from
    }
}

/// The defining facts of [`spec_ws_end`]: it stays within `[from, s.len()]`,
/// everything before it (from `from` on) is whitespace, and the byte at it,
/// if any, is not.
pub proof fn lemma_ws_end(s: Seq<u8>, from: int)
    requires
        0 <= from <= s.len(),
    ensures
        from <= spec_ws_end(s, from) <= s.len(),
        forall|k: int| from <= k < spec_ws_end(s, from) ==> spec_is_space(s[k]),
        spec_ws_end(s, from) < s.len() ==> !spec_is_space(s[spec_ws_end(s, from)]),
    decreases s.len() - from,
{
    if from < s.len() && spec_is_space(s[from]) {
        lemma_ws_end(s, from + 1);
    }
}

/// Runtime scan for [`spec_ws_end`].
pub fn ws_end(s: &[u8], from: usize) -> (r: usize)
    requires
        from <= s@.len(),
    ensures
        r == spec_ws_end(s@, from as int),
        from <= r <= s@.len(),
{
    let mut i: usize = from;
    while i < s.len() && is_space_byte(s[i])
        invariant
            from <= i <= s@.len(),
            spec_ws_end(s@, from as int) == spec_ws_end(s@, i as int),
        decreases s@.len() - i,
    {
        i = i + 1;
    }
    i
}

/// `pat` occurs in `s` starting at index `i`.
pub open spec fn spec_occurs_at(pat: Seq<u8>, s: Seq<u8>, i: int) -> bool {
    0 <= i && i + pat.len() <= s.len() && (forall|k: int|
        0 <= k < pat.len() ==> s[i + k] == pat[k])
}

/// Runtime test for [`spec_occurs_at`].
pub fn occurs_at(pat: &[u8], s: &[u8], i: usize) -> (r: bool)
    requires
        i <= s@.len(),
    ensures
        r == spec_occurs_at(pat@, s@, i as int),
{
    if s.len() - i < pat.len() {
        return false;
    }
    let mut k: usize = 0;
    while k < pat.len()
        invariant
            0 <= k <= pat@.len(),
            i + pat@.len() <= s@.len(),
            s@.len() <= usize::MAX,
            forall|j: int| 0 <= j < k ==> s@[i + j] == pat@[j],
        decreases pat@.len() - k,
    {
        if s[i + k] != pat[k] {
            return false;
        }
        k = k + 1;
    }
    true
}

/// The largest index at or below `i` at which `pat` occurs in `s`, or `-1`
/// if there is none. Picking the largest mirrors a greedy whitespace run
/// before the delimiter literal: the match that consumes the most leading
/// whitespace wins.
pub open spec fn spec_last_occurrence(pat: Seq<u8>, s: Seq<u8>, i: int) -> int
    decreases i + 1,
{
    if i < 0 {
        -1
    } else if spec_occurs_at(pat, s, i) {
        i
    } else {
        spec_last_occurrence(pat, s, i - 1)
    }
}

/// The defining facts of [`spec_last_occurrence`]: `-1` means no occurrence
/// at or below `i`; otherwise the result is the greatest occurrence index.
pub proof fn lemma_last_occurrence(pat: Seq<u8>, s: Seq<u8>, i: int)
    ensures
        spec_last_occurrence(pat, s, i) < 0 ==> forall|j: int|
            0 <= j <= i ==> !spec_occurs_at(pat, s, j),
        spec_last_occurrence(pat, s, i) >= 0 ==> spec_last_occurrence(pat, s, i) <= i
            && spec_occurs_at(pat, s, spec_last_occurrence(pat, s, i)) && (forall|j: int|
            spec_last_occurrence(pat, s, i) < j <= i ==> !spec_occurs_at(pat, s, j)),
    decreases i + 1,
{
    if i >= 0 && !spec_occurs_at(pat, s, i) {
        lemma_last_occurrence(pat, s, i - 1);
    }
}

/// Runtime search for [`spec_last_occurrence`]: scans downward from `i`.
pub fn last_occurrence(pat: &[u8], s: &[u8], i: usize) -> (r: Option<usize>)
    requires
        i <= s@.len(),
    ensures
        match r {
            Some(j) => j == spec_last_occurrence(pat@, s@, i as int) && spec_occurs_at(
                pat@,
                s@,
                j as int,
            ),
            None => spec_last_occurrence(pat@, s@, i as int) == -1,
        },
{
    let mut j: usize = i;
    loop
        invariant
            j <= i <= s@.len(),
            spec_last_occurrence(pat@, s@, i as int) == spec_last_occurrence(pat@, s@, j as int),
        decreases j,
    {
        if occurs_at(pat, s, j) {
            return Some(j);
        }
        if j == 0 {
            assert(spec_last_occurrence(pat@, s@, 0) == spec_last_occurrence(pat@, s@, -1));
            assert(spec_last_occurrence(pat@, s@, -1) == -1);
            return None;
        }
        j = j - 1;
    }
}

/// A word boundary stands at position `p` of `s` when exactly one side of
/// the position holds a word byte; the edges of `s` count as non-word.
pub open spec fn spec_boundary(s: Seq<u8>, p: int) -> bool {
    (p - 1 >= 0 && spec_is_word(s[p - 1])) != (p < s.len() && spec_is_word(s[p]))
}

/// Runtime test for [`spec_boundary`].
pub fn word_boundary(s: &[u8], p: usize) -> (r: bool)
    requires
        p <= s@.len(),
    ensures
        r == spec_boundary(s@, p as int),
{
    let before = p > 0 && is_word_byte(s[p - 1]);
    let after = p < s.len() && is_word_byte(s[p]);
    before != after
}

/// A `*` stands at index `j` of `s` as a token of its own: its neighbours,
/// where present, are comma or whitespace.
pub open spec fn spec_star_at(s: Seq<u8>, j: int) -> bool {
    0 <= j < s.len() && s[j] == 42 && (j == 0 || spec_is_sep(s[j - 1])) && (j + 1 == s.len()
        || spec_is_sep(s[j + 1]))
}

/// `s` holds a standalone `*` token somewhere.
pub open spec fn spec_has_star(s: Seq<u8>) -> bool {
    exists|j: int| spec_star_at(s, j)
}

/// Runtime search for [`spec_has_star`].
pub fn has_star_token(s: &[u8]) -> (r: bool)
    ensures
        r == spec_has_star(s@),
{
    let mut j: usize = 0;
    while j < s.len()
        invariant
            0 <= j <= s@.len(),
            forall|k: int| 0 <= k < j ==> !spec_star_at(s@, k),
        decreases s@.len() - j,
    {
        if s[j] == 42 && (j == 0 || is_sep_byte(s[j - 1])) && (j + 1 == s.len() || is_sep_byte(
            s[j + 1],
        )) {
            assert(spec_star_at(s@, j as int));
            return true;
        }
        j = j + 1;
    }
    false
}

/// `word` occurs in `s` at index `j` with a word boundary on both sides.
pub open spec fn spec_word_at(word: Seq<u8>, s: Seq<u8>, j: int) -> bool {
    spec_occurs_at(word, s, j) && spec_boundary(s, j) && spec_boundary(s, j + word.len())
}

/// `s` holds `word` as a whole word somewhere.
pub open spec fn spec_has_word(word: Seq<u8>, s: Seq<u8>) -> bool {
    exists|j: int| spec_word_at(word, s, j)
}

/// Runtime search for [`spec_has_word`].
pub fn has_word(word: &[u8], s: &[u8]) -> (r: bool)
    ensures
        r == spec_has_word(word@, s@),
{
    let n = s.len();
    let mut j: usize = 0;
    loop
        invariant
            0 <= j <= n,
            n == s@.len(),
            forall|k: int| 0 <= k < j ==> !spec_word_at(word@, s@, k),
        decreases n - j,
    {
        if occurs_at(word, s, j) && word_boundary(s, j) && word_boundary(s, j + word.len()) {
            assert(spec_word_at(word@, s@, j as int));
            return true;
        }
        if j == n {
            assert(forall|k: int| spec_word_at(word@, s@, k) ==> 0 <= k <= s@.len());
            return false;
        }
        j = j + 1;
    }
}

} // verus!
