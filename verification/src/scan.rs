//! Byte-level scanning over in-memory sources: counting occurrences of a
//! byte, locating the n-th occurrence, and forward/backward search for a
//! byte pattern. These are the primitives that skip resolution is built on.
use vstd::prelude::*;

verus! {

/// The newline byte (line feed).
pub const NL: u8 = 10;

/// The pattern `pat` occurs in `s` at position `i`.
pub open spec fn match_at(s: Seq<u8>, pat: Seq<u8>, i: int) -> bool {
    0 <= i && i + pat.len() <= s.len() && s.subrange(i, i + pat.len() as int) == pat
}

/// Some position of `s` holds an occurrence of `pat`.
pub open spec fn has_match(s: Seq<u8>, pat: Seq<u8>) -> bool {
    exists|i: int| match_at(s, pat, i)
}

/// `i` is the first (leftmost) occurrence of `pat` in `s`.
pub open spec fn is_first_match(s: Seq<u8>, pat: Seq<u8>, i: int) -> bool {
    match_at(s, pat, i) && forall|j: int| 0 <= j < i ==> !match_at(s, pat, j)
}

/// `i` is the last (rightmost) occurrence of `pat` in `s`.
pub open spec fn is_last_match(s: Seq<u8>, pat: Seq<u8>, i: int) -> bool {
    match_at(s, pat, i) && forall|j: int| j > i ==> !match_at(s, pat, j)
}

/// The position of the first occurrence of `pat` in `s`; meaningful only
/// when `has_match(s, pat)` holds.
pub open spec fn first_match_pos(s: Seq<u8>, pat: Seq<u8>) -> int {
    choose|i: int| is_first_match(s, pat, i)
}

/// The position of the last occurrence of `pat` in `s`; meaningful only
/// when `has_match(s, pat)` holds.
pub open spec fn last_match_pos(s: Seq<u8>, pat: Seq<u8>) -> int {
    choose|i: int| is_last_match(s, pat, i)
}

/// How many positions of `s` hold the byte `b`.
pub open spec fn byte_count(s: Seq<u8>, b: u8) -> nat
    decreases s.len(),
{
    if s.len() == 0 {
        0
    } else {
        byte_count(s.drop_last(), b) + (if s.last() == b { 1nat } else { 0nat })
    }
}

/// `i` is the position of the `n`-th occurrence (1-indexed) of `b` in `s`:
/// `s[i]` is `b` and exactly `n - 1` occurrences lie before it.
pub open spec fn is_nth_byte(s: Seq<u8>, b: u8, n: nat, i: int) -> bool {
    0 <= i < s.len() && s[i] == b && byte_count(s.take(i), b) + 1 == n
}

/// The position of the `n`-th occurrence (1-indexed) of `b` in `s`;
/// meaningful only when `n >= 1` and `s` holds at least `n` such bytes.
pub open spec fn nth_byte_pos(s: Seq<u8>, b: u8, n: nat) -> int {
    choose|i: int| is_nth_byte(s, b, n, i)
}

/// Counting one more byte extends the count of the prefix by whether that
/// byte matches.
pub proof fn lemma_byte_count_take_step(s: Seq<u8>, b: u8, i: int)
    requires
        0 <= i < s.len(),
    ensures
        byte_count(s.take(i + 1), b) == byte_count(s.take(i), b) + (if s[i] == b {
            1nat
        } else {
            0nat
        }),
{
    assert(s.take(i + 1).drop_last() =~= s.take(i));
    assert(s.take(i + 1).last() == s[i]);
}

/// The count over the whole sequence is the count over its full prefix.
pub proof fn lemma_byte_count_take_all(s: Seq<u8>, b: u8)
    ensures
        byte_count(s.take(s.len() as int), b) == byte_count(s, b),
{
    assert(s.take(s.len() as int) =~= s);
}

/// Prefix counts grow with the prefix, and strictly past a matching byte.
pub proof fn lemma_byte_count_mono(s: Seq<u8>, b: u8, i: int, j: int)
    requires
        0 <= i <= j <= s.len(),
    ensures
        byte_count(s.take(i), b) <= byte_count(s.take(j), b),
        i < j && s[i] == b ==> byte_count(s.take(i), b) + 1 <= byte_count(s.take(j), b),
    decreases j - i,
{
    if i < j {
        lemma_byte_count_take_step(s, b, i);
        lemma_byte_count_mono(s, b, i + 1, j);
    }
}

/// Two positions of the same 1-indexed occurrence coincide.
pub proof fn lemma_nth_byte_unique(s: Seq<u8>, b: u8, n: nat, i: int, j: int)
    requires
        is_nth_byte(s, b, n, i),
        is_nth_byte(s, b, n, j),
    ensures
        i == j,
{
    if i < j {
        lemma_byte_count_mono(s, b, i, j);
    }
    if j < i {
        lemma_byte_count_mono(s, b, j, i);
    }
}

/// A position satisfying `is_nth_byte` pins down `nth_byte_pos`.
pub proof fn lemma_nth_byte_pos_of(s: Seq<u8>, b: u8, n: nat, i: int)
    requires
        is_nth_byte(s, b, n, i),
    ensures
        nth_byte_pos(s, b, n) == i,
{
    let w = choose|k: int| is_nth_byte(s, b, n, k);
    lemma_nth_byte_unique(s, b, n, w, i);
}

/// When `s` holds at least `n >= 1` occurrences of `b`, the `n`-th occurrence
/// exists.
pub proof fn lemma_nth_byte_exists(s: Seq<u8>, b: u8, n: nat)
    requires
        1 <= n <= byte_count(s, b),
    ensures
        exists|i: int| is_nth_byte(s, b, n, i),
    decreases s.len(),
{
    lemma_byte_count_take_all(s, b);
    if s.len() > 0 {
        let last = s.len() - 1;
        lemma_byte_count_take_step(s, b, last);
        assert(s.take(last) =~= s.drop_last());
        if s.last() == b && byte_count(s.take(last), b) + 1 == n {
            assert(is_nth_byte(s, b, n, last));
        } else {
            assert(n <= byte_count(s.drop_last(), b));
            lemma_nth_byte_exists(s.drop_last(), b, n);
            let i = choose|i: int| is_nth_byte(s.drop_last(), b, n, i);
            assert(s.drop_last().take(i) =~= s.take(i));
            assert(is_nth_byte(s, b, n, i));
        }
    }
}

/// A first match pins down `first_match_pos`.
pub proof fn lemma_first_match_pos_of(s: Seq<u8>, pat: Seq<u8>, i: int)
    requires
        is_first_match(s, pat, i),
    ensures
        first_match_pos(s, pat) == i,
        has_match(s, pat),
{
    let w = choose|k: int| is_first_match(s, pat, k);
    assert(is_first_match(s, pat, w));
    if w < i {
        assert(!match_at(s, pat, w));
    }
    if i < w {
        assert(!match_at(s, pat, i));
    }
}

/// A last match pins down `last_match_pos`.
pub proof fn lemma_last_match_pos_of(s: Seq<u8>, pat: Seq<u8>, i: int)
    requires
        is_last_match(s, pat, i),
    ensures
        last_match_pos(s, pat) == i,
        has_match(s, pat),
{
    let w = choose|k: int| is_last_match(s, pat, k);
    assert(is_last_match(s, pat, w));
    if w < i {
        assert(!match_at(s, pat, i));
    }
    if i < w {
        assert(!match_at(s, pat, w));
    }
}

/// Whether `s` ends with a newline byte.
pub fn has_trailing_newline(s: &Vec<u8>) -> (r: bool)
    ensures
        r == (s@.len() > 0 && s@.last() == NL),
{
    if s.len() == 0 {
        false
    } else {
        s[s.len() - 1] == NL
    }
}

/// Counts the occurrences of `b` in `s`.
pub fn count_byte(s: &Vec<u8>, b: u8) -> (r: usize)
    ensures
        r == byte_count(s@, b),
{
    let mut c: usize = 0;
    let mut i: usize = 0;
    while i < s.len()
        invariant
            i <= s@.len(),
            c <= i,
            c == byte_count(s@.take(i as int), b),
        decreases s@.len() - i,
    {
        proof {
            lemma_byte_count_take_step(s@, b, i as int);
        }
        if s[i] == b {
            c = c + 1;
        }
        i = i + 1;
    }
    proof {
        lemma_byte_count_take_all(s@, b);
    }
    c
}

/// Finds the position of the `n`-th occurrence (1-indexed) of `b` in `s`,
/// or reports that fewer than `n` occurrences exist.
pub fn nth_byte_occurrence(s: &Vec<u8>, b: u8, n: usize) -> (r: Option<usize>)
    requires
        n >= 1,
    ensures
        match r {
            Some(i) => is_nth_byte(s@, b, n as nat, i as int),
            None => byte_count(s@, b) < n,
        },
{
    let mut c: usize = 0;
    let mut i: usize = 0;
    while i < s.len()
        invariant
            i <= s@.len(),
            c < n,
            c == byte_count(s@.take(i as int), b),
        decreases s@.len() - i,
    {
        proof {
            lemma_byte_count_take_step(s@, b, i as int);
        }
        if s[i] == b {
            if c + 1 == n {
                return Some(i);
            }
            c = c + 1;
        }
        i = i + 1;
    }
    proof {
        lemma_byte_count_take_all(s@, b);
    }
    None
}

/// Compares `pat` against the bytes of `s` starting at `i`.
pub fn matches_at(s: &Vec<u8>, pat: &Vec<u8>, i: usize) -> (r: bool)
    requires
        i + pat@.len() <= s@.len(),
    ensures
        r == match_at(s@, pat@, i as int),
{
    let sn = s.len();
    let mut j: usize = 0;
    while j < pat.len()
        invariant
            j <= pat@.len(),
            sn == s@.len(),
            i + pat@.len() <= sn,
            forall|k: int| 0 <= k < j ==> s@[i + k] == pat@[k],
        decreases pat@.len() - j,
    {
        if s[i + j] != pat[j] {
            proof {
                let sub = s@.subrange(i as int, i + pat@.len());
                assert(sub[j as int] == s@[i + j]);
                assert(sub != pat@);
            }
            return false;
        }
        j = j + 1;
    }
    proof {
        assert(s@.subrange(i as int, i + pat@.len()) =~= pat@);
    }
    true
}

/// Searches forward for the first occurrence of `pat` in `s`.
pub fn find_first(s: &Vec<u8>, pat: &Vec<u8>) -> (r: Option<usize>)
    requires
        pat@.len() >= 1,
    ensures
        match r {
            Some(i) => is_first_match(s@, pat@, i as int),
            None => !has_match(s@, pat@),
        },
{
    if pat.len() > s.len() {
        return None;
    }
    let bound = s.len() - pat.len();
    let mut i: usize = 0;
    while i <= bound
        invariant
            bound == s@.len() - pat@.len(),
            bound < usize::MAX,
            pat@.len() >= 1,
            i <= bound + 1,
            forall|j: int| 0 <= j < i ==> !match_at(s@, pat@, j),
        decreases bound + 1 - i,
    {
        if matches_at(s, pat, i) {
            return Some(i);
        }
        i = i + 1;
    }
    assert forall|j: int| !match_at(s@, pat@, j) by {
        if j > bound {
            assert(j + pat@.len() > s@.len());
        }
    }
    None
}

/// Searches backward for the last occurrence of `pat` in `s`.
pub fn find_last(s: &Vec<u8>, pat: &Vec<u8>) -> (r: Option<usize>)
    requires
        pat@.len() >= 1,
    ensures
        match r {
            Some(i) => is_last_match(s@, pat@, i as int),
            None => !has_match(s@, pat@),
        },
{
    if pat.len() > s.len() {
        return None;
    }
    let mut i: usize = s.len() - pat.len() + 1;
    while i > 0
        invariant
            i <= s@.len() - pat@.len() + 1,
            pat@.len() >= 1,
            forall|j: int| j >= i ==> !match_at(s@, pat@, j),
        decreases i,
    {
        i = i - 1;
        if matches_at(s, pat, i) {
            return Some(i);
        }
    }
    None
}

} // verus!
