//! Skip resolution: turning a declarative trim rule plus a source's contents
//! into the concrete byte offsets of the kept range.
use vstd::prelude::*;

use crate::error::ErrorKind;
use crate::scan::{
    byte_count, count_byte, find_first, find_last, first_match_pos, has_match,
    has_trailing_newline, last_match_pos, lemma_byte_count_mono, lemma_byte_count_take_all,
    lemma_first_match_pos_of, lemma_last_match_pos_of, lemma_nth_byte_exists,
    lemma_nth_byte_pos_of, matches_at, nth_byte_occurrence, nth_byte_pos, NL,
};

verus! {

/// A source's role in the merge order: the first source, a middle one, or the
/// last one. With a single source, that source is `Start` only.
#[derive(Debug, Clone, Copy, PartialEq, Eq, Structural)]
pub enum PartPos {
    Start,
    Inside,
    End,
}

/// Controls the skip behaviour when merging sources.
#[non_exhaustive]
#[derive(Debug, Clone)]
pub enum Skip {
    /// Skip a number of bytes from each part.
    Bytes(usize),
    /// Keep the contents of the first part untouched (or the last part if
    /// passed as a tail skip), but skip a given number of bytes from the rest.
    BytesOnce(usize),
    /// Skip a number of lines from each part.
    Lines(usize),
    /// Keep the contents of the first part untouched (or the last part if
    /// passed as a tail skip), but skip a given number of lines from the rest.
    LinesOnce(usize),
    /// Skip every leading (or, as a tail skip, trailing) chunk of bytes that
    /// equals the given byte pattern.
    Repeats(Vec<u8>),
    /// Skip a sequence of bytes until reaching the given byte pattern.
    /// The pattern itself is skipped too.
    Until(Vec<u8>),
    /// Skip a sequence of bytes until reaching the given byte pattern.
    /// The pattern itself is kept.
    Before(Vec<u8>),
}

/// Whether `s` ends with a newline byte.
pub open spec fn ends_with_newline(s: Seq<u8>) -> bool {
    s.len() > 0 && s.last() == NL
}

/// The start offset kept by a head `Lines(n)` skip, or `None` when the
/// source does not hold enough newlines.
///
/// A source that does not end with a newline has one fewer complete line
/// than its newline count suggests: with `c` newlines it can satisfy
/// `Lines(c + 1)` by skipping everything.
pub open spec fn head_lines_offset(s: Seq<u8>, n: nat) -> Option<int> {
    let c = byte_count(s, NL);
    if n == 0 {
        Some(0)
    } else if ends_with_newline(s) {
        if c < n {
            None
        } else {
            Some(nth_byte_pos(s, NL, n) + 1)
        }
    } else {
        if c + 1 < n {
            None
        } else if c + 1 == n {
            Some(s.len() as int)
        } else {
            Some(nth_byte_pos(s, NL, n) + 1)
        }
    }
}

/// The end offset kept by a tail `Lines(n)` skip, or `None` when the source
/// does not hold enough newlines. A trailing newline is never counted as a
/// kept line ending.
pub open spec fn tail_lines_offset(s: Seq<u8>, n: nat) -> Option<int> {
    let c = byte_count(s, NL);
    let cc = if ends_with_newline(s) {
        (c - 1) as nat
    } else {
        c
    };
    if n == 0 {
        Some(s.len() as int)
    } else if cc + 1 < n {
        None
    } else if cc + 1 == n {
        Some(0)
    } else {
        Some(nth_byte_pos(s, NL, (cc + 1 - n) as nat) + 1)
    }
}

/// The number of leading bytes of `s` made of whole chunks equal to `pat`.
/// Accumulation stops at the first mismatching chunk or when fewer than
/// `pat.len()` bytes remain; an empty pattern matches nothing.
pub open spec fn leading_repeat_len(s: Seq<u8>, pat: Seq<u8>) -> nat
    decreases s.len(),
{
    if pat.len() == 0 || s.len() < pat.len() {
        0
    } else if s.subrange(0, pat.len() as int) == pat {
        (pat.len() + leading_repeat_len(s.skip(pat.len() as int), pat)) as nat
    } else {
        0
    }
}

/// The number of trailing bytes of `s` made of whole chunks equal to `pat`,
/// walking backward from the end.
pub open spec fn trailing_repeat_len(s: Seq<u8>, pat: Seq<u8>) -> nat
    decreases s.len(),
{
    if pat.len() == 0 || s.len() < pat.len() {
        0
    } else if s.subrange(s.len() - pat.len(), s.len() as int) == pat {
        (pat.len() + trailing_repeat_len(s.take(s.len() - pat.len()), pat)) as nat
    } else {
        0
    }
}

/// The start offset of the kept range for a head skip. `None` stands for an
/// invalid skip. With no head skip configured the whole head is kept.
pub open spec fn head_offset(skip: Option<Skip>, s: Seq<u8>, pos: PartPos) -> Option<int> {
    match skip {
        None => Some(0),
        Some(Skip::Bytes(n)) => Some(n as int),
        Some(Skip::BytesOnce(n)) => match pos {
            PartPos::Start => Some(0),
            _ => Some(n as int),
        },
        Some(Skip::Lines(n)) => head_lines_offset(s, n as nat),
        Some(Skip::LinesOnce(n)) => match pos {
            PartPos::Start => Some(0),
            _ => head_lines_offset(s, n as nat),
        },
        Some(Skip::Repeats(p)) => Some(leading_repeat_len(s, p@) as int),
        Some(Skip::Until(p)) => if p@.len() > 0 && has_match(s, p@) {
            Some(first_match_pos(s, p@) + p@.len())
        } else {
            Some(s.len() as int)
        },
        Some(Skip::Before(p)) => if p@.len() > 0 && has_match(s, p@) {
            Some(first_match_pos(s, p@))
        } else {
            Some(s.len() as int)
        },
    }
}

/// The end offset of the kept range for a tail skip. `None` stands for an
/// invalid skip. With no tail skip configured the whole tail is kept.
///
/// The tail `Before` rule deliberately searches forward from the start, not
/// backward from the end: it keeps everything up through the first
/// occurrence of the pattern.
pub open spec fn tail_offset(skip: Option<Skip>, s: Seq<u8>, pos: PartPos) -> Option<int> {
    match skip {
        None => Some(s.len() as int),
        Some(Skip::Bytes(n)) => if n > s.len() {
            None
        } else {
            Some(s.len() - n)
        },
        Some(Skip::BytesOnce(n)) => match pos {
            PartPos::End => Some(s.len() as int),
            _ => if n > s.len() {
                None
            } else {
                Some(s.len() - n)
            },
        },
        Some(Skip::Lines(n)) => tail_lines_offset(s, n as nat),
        Some(Skip::LinesOnce(n)) => match pos {
            PartPos::End => Some(s.len() as int),
            _ => tail_lines_offset(s, n as nat),
        },
        Some(Skip::Repeats(p)) => Some(s.len() - trailing_repeat_len(s, p@)),
        Some(Skip::Until(p)) => if p@.len() > 0 && has_match(s, p@) {
            Some(last_match_pos(s, p@))
        } else {
            Some(0)
        },
        Some(Skip::Before(p)) => if p@.len() > 0 && has_match(s, p@) {
            Some(first_match_pos(s, p@) + p@.len())
        } else {
            Some(0)
        },
    }
}

/// Resolves a head `Lines(n)` skip against the contents of one source.
fn resolve_head_lines(s: &Vec<u8>, n: usize) -> (r: Result<usize, ErrorKind>)
    ensures
        match r {
            Ok(st) => head_lines_offset(s@, n as nat) == Some(st as int),
            Err(e) => head_lines_offset(s@, n as nat) is None && e == ErrorKind::InvalidSkip,
        },
{
    if n == 0 {
        return Ok(0);
    }
    let sl = s.len();
    let endn = has_trailing_newline(s);
    match nth_byte_occurrence(s, NL, n) {
        Some(i) => {
            proof {
                lemma_nth_byte_pos_of(s@, NL, n as nat, i as int);
                lemma_byte_count_mono(s@, NL, i as int, s@.len() as int);
                lemma_byte_count_take_all(s@, NL);
            }
            Ok(i + 1)
        },
        None => {
            if !endn {
                let c = count_byte(s, NL);
                if c + 1 == n {
                    Ok(sl)
                } else {
                    Err(ErrorKind::InvalidSkip)
                }
            } else {
                Err(ErrorKind::InvalidSkip)
            }
        },
    }
}

/// Resolves a tail `Lines(n)` skip against the contents of one source.
fn resolve_tail_lines(s: &Vec<u8>, n: usize) -> (r: Result<usize, ErrorKind>)
    ensures
        match r {
            Ok(en) => tail_lines_offset(s@, n as nat) == Some(en as int) && en <= s@.len(),
            Err(e) => tail_lines_offset(s@, n as nat) is None && e == ErrorKind::InvalidSkip,
        },
{
    let sl = s.len();
    if n == 0 {
        return Ok(sl);
    }
    let endn = has_trailing_newline(s);
    let c = count_byte(s, NL);
    if endn {
        assert(byte_count(s@, NL) >= 1);
    }
    let cc = if endn {
        c - 1
    } else {
        c
    };
    if cc < n - 1 {
        return Err(ErrorKind::InvalidSkip);
    }
    if cc == n - 1 {
        return Ok(0);
    }
    let k = cc - n + 1;
    proof {
        lemma_nth_byte_exists(s@, NL, k as nat);
    }
    match nth_byte_occurrence(s, NL, k) {
        Some(i) => {
            proof {
                lemma_nth_byte_pos_of(s@, NL, k as nat, i as int);
            }
            assert(i < sl);
            Ok(i + 1)
        },
        None => {
            proof {
                assert(false);
            }
            Err(ErrorKind::InvalidSkip)
        },
    }
}

/// The number of leading bytes of `s` made of whole chunks equal to `pat`.
fn leading_repeat_bytes(s: &Vec<u8>, pat: &Vec<u8>) -> (r: usize)
    requires
        pat@.len() >= 1,
    ensures
        r == leading_repeat_len(s@, pat@),
{
    let w = pat.len();
    let mut m: usize = 0;
    proof {
        assert(s@.skip(0) =~= s@);
    }
    loop
        invariant
            w == pat@.len(),
            1 <= w,
            m <= s@.len(),
            leading_repeat_len(s@, pat@) == m + leading_repeat_len(s@.skip(m as int), pat@),
        ensures
            m == leading_repeat_len(s@, pat@),
        decreases s@.len() - m,
    {
        if s.len() - m < w {
            assert(s@.skip(m as int).len() < pat@.len());
            break;
        }
        let chunk_eq = matches_at(s, pat, m);
        proof {
            assert(s@.skip(m as int).subrange(0, w as int) =~= s@.subrange(m as int, m + w));
        }
        if !chunk_eq {
            break;
        }
        proof {
            assert(s@.skip(m as int).skip(w as int) =~= s@.skip(m + w));
        }
        m = m + w;
    }
    m
}

/// The number of trailing bytes of `s` made of whole chunks equal to `pat`.
fn trailing_repeat_bytes(s: &Vec<u8>, pat: &Vec<u8>) -> (r: usize)
    requires
        pat@.len() >= 1,
    ensures
        r == trailing_repeat_len(s@, pat@),
        r <= s@.len(),
{
    let w = pat.len();
    let mut m: usize = 0;
    proof {
        assert(s@.take(s@.len() as int) =~= s@);
    }
    loop
        invariant
            w == pat@.len(),
            1 <= w,
            m <= s@.len(),
            trailing_repeat_len(s@, pat@) == m + trailing_repeat_len(
                s@.take(s@.len() - m),
                pat@,
            ),
        ensures
            m == trailing_repeat_len(s@, pat@),
            m <= s@.len(),
        decreases s@.len() - m,
    {
        let rem = s.len() - m;
        if rem < w {
            assert(s@.take(s@.len() - m).len() < pat@.len());
            break;
        }
        let chunk_eq = matches_at(s, pat, rem - w);
        proof {
            let t = s@.take(s@.len() - m);
            assert(t.subrange(t.len() - pat@.len(), t.len() as int) =~= s@.subrange(
                rem - w,
                rem as int,
            ));
        }
        if !chunk_eq {
            break;
        }
        proof {
            let t = s@.take(s@.len() - m);
            assert(t.take(t.len() - pat@.len()) =~= s@.take(s@.len() - (m + w)));
        }
        m = m + w;
    }
    m
}

/// Resolves the configured head skip against the contents of one source,
/// yielding the start offset of the kept range.
pub fn resolve_head(skip: &Option<Skip>, s: &Vec<u8>, pos: PartPos) -> (r: Result<
    usize,
    ErrorKind,
>)
    ensures
        match r {
            Ok(st) => head_offset(*skip, s@, pos) == Some(st as int),
            Err(e) => head_offset(*skip, s@, pos) is None && e == ErrorKind::InvalidSkip,
        },
{
    let sl = s.len();
    match skip {
        None => Ok(0),
        Some(Skip::Bytes(n)) => Ok(*n),
        Some(Skip::BytesOnce(n)) => match pos {
            PartPos::Start => Ok(0),
            _ => Ok(*n),
        },
        Some(Skip::Lines(n)) => resolve_head_lines(s, *n),
        Some(Skip::LinesOnce(n)) => match pos {
            PartPos::Start => Ok(0),
            _ => resolve_head_lines(s, *n),
        },
        Some(Skip::Repeats(p)) => if p.len() == 0 {
            Ok(0)
        } else {
            Ok(leading_repeat_bytes(s, p))
        },
        Some(Skip::Until(p)) => if p.len() == 0 {
            Ok(sl)
        } else {
            match find_first(s, p) {
                Some(i) => {
                    proof {
                        lemma_first_match_pos_of(s@, p@, i as int);
                    }
                    Ok(i + p.len())
                },
                None => Ok(sl),
            }
        },
        Some(Skip::Before(p)) => if p.len() == 0 {
            Ok(sl)
        } else {
            match find_first(s, p) {
                Some(i) => {
                    proof {
                        lemma_first_match_pos_of(s@, p@, i as int);
                    }
                    Ok(i)
                },
                None => Ok(sl),
            }
        },
    }
}

/// Resolves the configured tail skip against the contents of one source,
/// yielding the end offset of the kept range.
pub fn resolve_tail(skip: &Option<Skip>, s: &Vec<u8>, pos: PartPos) -> (r: Result<
    usize,
    ErrorKind,
>)
    ensures
        match r {
            Ok(en) => tail_offset(*skip, s@, pos) == Some(en as int) && en <= s@.len(),
            Err(e) => tail_offset(*skip, s@, pos) is None && e == ErrorKind::InvalidSkip,
        },
{
    let sl = s.len();
    match skip {
        None => Ok(sl),
        Some(Skip::Bytes(n)) => if *n > sl {
            Err(ErrorKind::InvalidSkip)
        } else {
            Ok(sl - *n)
        },
        Some(Skip::BytesOnce(n)) => match pos {
            PartPos::End => Ok(sl),
            _ => if *n > sl {
                Err(ErrorKind::InvalidSkip)
            } else {
                Ok(sl - *n)
            },
        },
        Some(Skip::Lines(n)) => resolve_tail_lines(s, *n),
        Some(Skip::LinesOnce(n)) => match pos {
            PartPos::End => Ok(sl),
            _ => resolve_tail_lines(s, *n),
        },
        Some(Skip::Repeats(p)) => if p.len() == 0 {
            Ok(sl)
        } else {
            let m = trailing_repeat_bytes(s, p);
            Ok(sl - m)
        },
        Some(Skip::Until(p)) => if p.len() == 0 {
            Ok(0)
        } else {
            match find_last(s, p) {
                Some(i) => {
                    proof {
                        lemma_last_match_pos_of(s@, p@, i as int);
                    }
                    Ok(i)
                },
                None => Ok(0),
            }
        },
        Some(Skip::Before(p)) => if p.len() == 0 {
            Ok(0)
        } else {
            match find_first(s, p) {
                Some(i) => {
                    proof {
                        lemma_first_match_pos_of(s@, p@, i as int);
                    }
                    Ok(i + p.len())
                },
                None => Ok(0),
            }
        },
    }
}

} // verus!
