//! Leftmost matching of literal byte patterns around a captured run.
//!
//! A pattern is a literal prefix, a non-empty run of bytes from one
//! character class, and a literal suffix; the suffix may optionally be
//! separated from the run by one byte that is not a newline.  This is
//! the shape shared by the clan-stat markup patterns and the schema
//! statement headers.

use vstd::prelude::*;

verus! {

/// The class of bytes a pattern captures: decimal digits, or the
/// characters allowed in a schema object name.
#[derive(Clone, Copy, Debug, PartialEq, Eq, Structural)]
pub enum CharClass {
    Digits,
    NameChars,
}

pub open spec fn class_holds(c: CharClass, b: u8) -> bool {
    match c {
        CharClass::Digits => 48 <= b && b <= 57,
        CharClass::NameChars => b == 45 || b == 95 || (97 <= b && b <= 122) || (65
            <= b && b <= 90),
    }
}

/// Numeric value of one decimal digit byte.
pub open spec fn digit_val(b: u8) -> int {
    b - 48
}

/// Value of a big-endian decimal digit run.
pub open spec fn digits_value(s: Seq<u8>) -> int
    decreases s.len(),
{
    if s.len() == 0 {
        0
    } else {
        digits_value(s.drop_last()) * 10 + digit_val(s.last())
    }
}

/// Length of the maximal run of class bytes starting at `i`.
pub open spec fn run_len(s: Seq<u8>, c: CharClass, i: int) -> int
    decreases s.len() - i when 0 <= i <= s.len()
{
    if i < 0 || i >= s.len() || !class_holds(c, s[i]) {
        0
    } else {
        1 + run_len(s, c, i + 1)
    }
}

/// The literal `pat` occurs in `s` at position `p`.
pub open spec fn bytes_at(s: Seq<u8>, p: int, pat: Seq<u8>) -> bool {
    0 <= p && p + pat.len() <= s.len() && s.subrange(p, p + pat.len()) == pat
}

/// The whole pattern matches at position `p`: prefix, then a non-empty
/// class run, then the suffix, directly or after one non-newline byte
/// when `gap` is allowed.
pub open spec fn pat_match_at(
    s: Seq<u8>,
    pre: Seq<u8>,
    suf: Seq<u8>,
    gap: bool,
    c: CharClass,
    p: int,
) -> bool {
    let rs = p + pre.len();
    let n = run_len(s, c, rs);
    &&& bytes_at(s, p, pre)
    &&& n >= 1
    &&& (bytes_at(s, rs + n, suf) || (gap && rs + n < s.len() && s[rs + n] != 10 && bytes_at(
        s,
        rs + n + 1,
        suf,
    )))
}

/// Position of the leftmost match at or after `p`, or -1 when none is
/// left.
pub open spec fn first_match_from(
    s: Seq<u8>,
    pre: Seq<u8>,
    suf: Seq<u8>,
    gap: bool,
    c: CharClass,
    p: int,
) -> int
    decreases s.len() - p when 0 <= p <= s.len()
{
    if p < 0 || p >= s.len() {
        -1
    } else if pat_match_at(s, pre, suf, gap, c, p) {
        p
    } else {
        first_match_from(s, pre, suf, gap, c, p + 1)
    }
}

/// The run captured by the leftmost match, as a byte sequence.
pub open spec fn capture_of(s: Seq<u8>, pre: Seq<u8>, suf: Seq<u8>, gap: bool, c: CharClass) -> Seq<
    u8,
> {
    let a = first_match_from(s, pre, suf, gap, c, 0) + pre.len();
    s.subrange(a, a + run_len(s, c, a))
}

pub proof fn lemma_first_match_found(
    s: Seq<u8>,
    pre: Seq<u8>,
    suf: Seq<u8>,
    gap: bool,
    c: CharClass,
    lo: int,
    p: int,
)
    requires
        0 <= lo <= p < s.len(),
        pat_match_at(s, pre, suf, gap, c, p),
        forall|q: int| lo <= q < p ==> !pat_match_at(s, pre, suf, gap, c, q),
    ensures
        first_match_from(s, pre, suf, gap, c, lo) == p,
    decreases p - lo,
{
    if lo < p {
        lemma_first_match_found(s, pre, suf, gap, c, lo + 1, p);
    }
}

pub proof fn lemma_first_match_none(
    s: Seq<u8>,
    pre: Seq<u8>,
    suf: Seq<u8>,
    gap: bool,
    c: CharClass,
    lo: int,
)
    requires
        0 <= lo <= s.len(),
        forall|q: int| lo <= q < s.len() ==> !pat_match_at(s, pre, suf, gap, c, q),
    ensures
        first_match_from(s, pre, suf, gap, c, lo) == -1,
    decreases s.len() - lo,
{
    if lo < s.len() {
        lemma_first_match_none(s, pre, suf, gap, c, lo + 1);
    }
}

/// Every byte inside a maximal run belongs to the class.
pub proof fn lemma_run_len_class(s: Seq<u8>, c: CharClass, i: int, k: int)
    requires
        0 <= i <= s.len(),
        0 <= k < run_len(s, c, i),
    ensures
        i + k < s.len(),
        class_holds(c, s[i + k]),
    decreases k,
{
    if k > 0 {
        lemma_run_len_class(s, c, i + 1, k - 1);
    }
}

/// A digit run has a non-negative value.
pub proof fn lemma_digits_nonneg(s: Seq<u8>)
    requires
        forall|k: int| 0 <= k < s.len() ==> class_holds(CharClass::Digits, s[k]),
    ensures
        digits_value(s) >= 0,
    decreases s.len(),
{
    if s.len() > 0 {
        lemma_digits_nonneg(s.drop_last());
    }
}

/// Extending a digit run never lowers its value.
pub proof fn lemma_digits_mono(s: Seq<u8>, k: int)
    requires
        forall|j: int| 0 <= j < s.len() ==> class_holds(CharClass::Digits, s[j]),
        0 <= k <= s.len(),
    ensures
        digits_value(s) >= digits_value(s.subrange(0, k)),
    decreases s.len(),
{
    if k == s.len() {
        assert(s.subrange(0, k) =~= s);
    } else {
        let d = s.drop_last();
        lemma_digits_nonneg(d);
        lemma_digits_mono(d, k);
        assert(d.subrange(0, k) =~= s.subrange(0, k));
    }
}

fn class_check(c: CharClass, b: u8) -> (r: bool)
    ensures
        r == class_holds(c, b),
{
    match c {
        CharClass::Digits => 48 <= b && b <= 57,
        CharClass::NameChars => b == 45 || b == 95 || (97 <= b && b <= 122) || (65
            <= b && b <= 90),
    }
}

/// Does the literal `pat` occur at position `p` of `s`?
fn bytes_at_exec(s: &[u8], p: usize, pat: &[u8]) -> (b: bool)
    ensures
        b == bytes_at(s@, p as int, pat@),
{
    if p > s.len() || pat.len() > s.len() - p {
        return false;
    }
    let mut j: usize = 0;
    while j < pat.len()
        invariant
            p + pat.len() <= s.len(),
            j <= pat.len(),
            forall|k: int| 0 <= k < j ==> s@[p + k] == pat@[k],
        decreases pat.len() - j,
    {
        if s[p + j] != pat[j] {
            assert(s@.subrange(p as int, p + pat@.len())[j as int] == s@[p + j]);
            return false;
        }
        j += 1;
    }
    assert(s@.subrange(p as int, p + pat@.len()) =~= pat@);
    true
}

/// Length of the maximal class run starting at `i`.
fn run_len_exec(s: &[u8], c: CharClass, i: usize) -> (n: usize)
    requires
        i <= s.len(),
    ensures
        i + n <= s.len(),
        n == run_len(s@, c, i as int),
{
    let mut n: usize = 0;
    while i + n < s.len() && class_check(c, s[i + n])
        invariant
            i + n <= s.len(),
            run_len(s@, c, i as int) == n + run_len(s@, c, (i + n) as int),
        decreases s.len() - i - n,
    {
        n += 1;
    }
    n
}

fn match_at_exec(s: &[u8], pre: &[u8], suf: &[u8], gap: bool, c: CharClass, p: usize) -> (b: bool)
    ensures
        b == pat_match_at(s@, pre@, suf@, gap, c, p as int),
{
    if !bytes_at_exec(s, p, pre) {
        return false;
    }
    let sl = s.len();
    assert(p + pre@.len() <= sl);
    let rs = p + pre.len();
    let n = run_len_exec(s, c, rs);
    if n == 0 {
        return false;
    }
    if bytes_at_exec(s, rs + n, suf) {
        return true;
    }
    if gap && rs + n < s.len() && s[rs + n] != 10 && bytes_at_exec(s, rs + n + 1, suf) {
        return true;
    }
    false
}

/// Find the leftmost occurrence of the pattern; on success return the
/// start of the captured run and its length.
pub fn find_capture(s: &[u8], pre: &[u8], suf: &[u8], gap: bool, c: CharClass) -> (r: Option<
    (usize, usize),
>)
    ensures
        ({
            let fm = first_match_from(s@, pre@, suf@, gap, c, 0);
            match r {
                None => fm == -1,
                Some((a, n)) => fm >= 0 && a == fm + pre@.len() && n == run_len(s@, c, a as int)
                    && n >= 1 && a + n <= s@.len(),
            }
        }),
{
    let mut p: usize = 0;
    while p < s.len()
        invariant
            p <= s.len(),
            forall|q: int| 0 <= q < p ==> !pat_match_at(s@, pre@, suf@, gap, c, q),
        decreases s.len() - p,
    {
        if match_at_exec(s, pre, suf, gap, c, p) {
            proof {
                lemma_first_match_found(s@, pre@, suf@, gap, c, 0, p as int);
            }
            let a = p + pre.len();
            let n = run_len_exec(s, c, a);
            return Some((a, n));
        }
        p += 1;
    }
    proof {
        lemma_first_match_none(s@, pre@, suf@, gap, c, 0);
    }
    None
}

/// Value of the captured digit run when it does not exceed `cap`.
pub fn digits_value_capped(s: &[u8], start: usize, n: usize, cap: u32) -> (r: Option<u32>)
    requires
        start + n <= s.len(),
        cap <= 0xFFFF,
        forall|j: int| start <= j < start + n ==> class_holds(CharClass::Digits, s@[j]),
    ensures
        ({
            let v = digits_value(s@.subrange(start as int, (start + n) as int));
            match r {
                Some(x) => x == v && v <= cap,
                None => v > cap,
            }
        }),
{
    let ghost full = s@.subrange(start as int, (start + n) as int);
    let mut acc: u32 = 0;
    let mut k: usize = 0;
    while k < n
        invariant
            start + n <= s.len(),
            cap <= 0xFFFF,
            k <= n,
            acc <= cap,
            forall|j: int| start <= j < start + n ==> class_holds(CharClass::Digits, s@[j]),
            acc == digits_value(s@.subrange(start as int, (start + k) as int)),
        decreases n - k,
    {
        let d: u32 = (s[start + k] - 48) as u32;
        let acc2: u32 = acc * 10 + d;
        proof {
            let prev = s@.subrange(start as int, (start + k) as int);
            let cur = s@.subrange(start as int, (start + k + 1) as int);
            assert(cur.drop_last() =~= prev);
            assert(cur.last() == s@[start + k]);
        }
        if acc2 > cap {
            proof {
                let cur = s@.subrange(start as int, (start + k + 1) as int);
                let full = s@.subrange(start as int, (start + n) as int);
                assert(forall|j: int|
                    0 <= j < full.len() ==> class_holds(CharClass::Digits, full[j]));
                lemma_digits_mono(full, k + 1);
                assert(full.subrange(0, k + 1) =~= cur);
            }
            return None;
        }
        acc = acc2;
        k += 1;
    }
    Some(acc)
}

} // verus!
