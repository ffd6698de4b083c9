//! Byte-level glob matcher. It answers 1 for a match, 0 for no
//! match and -1 for a syntax error. Patterns and names are raw bytes read as
//! NUL-terminated strings: a NUL byte ends them, and reading past the
//! end yields 0.

use vstd::prelude::*;
use vstd::slice::slice_subrange;

verus! {

/// The byte at `i`, or 0 past the end: the view of a NUL-terminated string.
pub open spec fn at(s: Seq<u8>, i: int) -> u8 {
    if 0 <= i < s.len() { s[i] } else { 0 }
}

/// The suffix of `s` from `i`, empty when `i` is at or past the end.
pub open spec fn tail(s: Seq<u8>, i: int) -> Seq<u8> {
    if 0 <= i < s.len() { s.subrange(i, s.len() as int) } else { Seq::empty() }
}

/// ASCII lower-casing, applied only when `ic` (ignore case) holds.
pub open spec fn fold(c: u8, ic: bool) -> u8 {
    if ic && 65 <= c <= 90 { (c + 32) as u8 } else { c }
}

/// Index of the first `|` at or after `i`, or -1.
pub open spec fn bar_search(pat: Seq<u8>, i: int) -> int
    decreases pat.len() - i,
{
    if i < 0 || i >= pat.len() {
        -1
    } else if pat[i] == 124 {
        i
    } else {
        bar_search(pat, i + 1)
    }
}

/// The first index at or after `b` that holds a NUL or a `/`
/// (or `b` itself when it is already past the end).
pub open spec fn skip_seg(buf: Seq<u8>, b: int) -> int
    decreases buf.len() + 1 - b,
{
    if 0 <= b && at(buf, b) != 0 && at(buf, b) != 47 {
        skip_seg(buf, b + 1)
    } else {
        b
    }
}

/// A bracket class scanned from `p` for the subject byte `c`: `n` is
/// the value a member yields (0 under `^`), `mtch` the value so far.
/// Some((q, m)) with `q` at the closing `]`, or None on a syntax error.
pub open spec fn class_scan(c: u8, pat: Seq<u8>, p: int, mtch: int, n: int, ic: bool) -> Option<
    (int, int),
>
    decreases pat.len() + 3 - p,
{
    if p < 0 {
        None
    } else if at(pat, p) == 93 {
        Some((p, mtch))
    } else {
        let q = if at(pat, p) == 92 { p + 1 } else { p };
        if at(pat, q) == 0 {
            None
        } else if at(pat, q + 1) == 45 {
            let lo = at(pat, q);
            let r = if at(pat, q + 2) == 92 { q + 3 } else { q + 2 };
            let hi = at(pat, r);
            let m2 = if fold(c, ic) >= fold(lo, ic) && fold(c, ic) <= fold(hi, ic) { n } else { mtch };
            let r2 = if hi == 0 { r - 1 } else { r };
            class_scan(c, pat, r2 + 1, m2, n, ic)
        } else {
            let m2 = if fold(c, ic) == fold(at(pat, q), ic) { n } else { mtch };
            class_scan(c, pat, q + 1, m2, n, ic)
        }
    }
}

pub proof fn lemma_bar_search(pat: Seq<u8>, i: int)
    ensures
        bar_search(pat, i) == -1 || (0 <= i <= bar_search(pat, i) < pat.len() && pat[bar_search(pat, i)] == 124),
        bar_search(pat, i) == -1 ==> forall|j: int| 0 <= i <= j < pat.len() ==> pat[j] != 124,
        bar_search(pat, i) != -1 ==> forall|j: int| i <= j < bar_search(pat, i) ==> pat[j] != 124,
    decreases pat.len() - i,
{
    if 0 <= i < pat.len() && pat[i] != 124 {
        lemma_bar_search(pat, i + 1);
    }
}

pub proof fn lemma_skip_seg(buf: Seq<u8>, b: int)
    ensures
        skip_seg(buf, b) >= b,
        0 <= b <= buf.len() ==> skip_seg(buf, b) <= buf.len(),
        at(buf, skip_seg(buf, b)) == 0 || at(buf, skip_seg(buf, b)) == 47 || b < 0,
    decreases buf.len() + 1 - b,
{
    if 0 <= b && at(buf, b) != 0 && at(buf, b) != 47 {
        lemma_skip_seg(buf, b + 1);
    }
}

pub proof fn lemma_class_scan(c: u8, pat: Seq<u8>, p: int, mtch: int, n: int, ic: bool)
    ensures
        class_scan(c, pat, p, mtch, n, ic) matches Some((q, m)) ==> {
            &&& p <= q < pat.len()
            &&& at(pat, q) == 93
            &&& (m == mtch || m == n)
        },
    decreases pat.len() + 3 - p,
{
    if p >= 0 && at(pat, p) != 93 {
        let q = if at(pat, p) == 92 { p + 1 } else { p };
        if at(pat, q) != 0 {
            if at(pat, q + 1) == 45 {
                let lo = at(pat, q);
                let r = if at(pat, q + 2) == 92 { q + 3 } else { q + 2 };
                let hi = at(pat, r);
                let m2 = if fold(c, ic) >= fold(lo, ic) && fold(c, ic) <= fold(hi, ic) { n } else { mtch };
                let r2 = if hi == 0 { r - 1 } else { r };
                lemma_class_scan(c, pat, r2 + 1, m2, n, ic);
            } else {
                let m2 = if fold(c, ic) == fold(at(pat, q), ic) { n } else { mtch };
                lemma_class_scan(c, pat, q + 1, m2, n, ic);
            }
        }
    }
}

/// What matching `buf` against `pat` returns: 1, 0 or -1. A pattern
/// holding `|` is split at its first bar into alternatives; otherwise
/// the pattern is read left to right by `pm_loop`.
pub open spec fn pm(buf: Seq<u8>, pat: Seq<u8>, isdir: bool, ic: bool) -> int
    decreases pat.len(), 2int, 0int,
{
    let bar = bar_search(pat, 0);
    if bar >= 0 {
        proof {
            lemma_bar_search(pat, 0);
        }
        if bar == 0 || bar + 1 == pat.len() {
            -1
        } else {
            let m = pm(buf, pat.subrange(0, bar), isdir, ic);
            if m == 0 {
                pm(buf, pat.subrange(bar + 1, pat.len() as int), isdir, ic)
            } else {
                m
            }
        }
    } else {
        pm_loop(buf, pat, 0, 0, 0, isdir, ic)
    }
}

/// The matcher's main scan with `buf` at `b`, `pat` at `p`, and
/// `pprev` the pattern byte last consumed, every step so far having
/// matched.
pub open spec fn pm_loop(buf: Seq<u8>, pat: Seq<u8>, b: int, p: int, pprev: u8, isdir: bool, ic: bool) -> int
    decreases pat.len(), 1int, pat.len() + 2 - p,
{
    if p < 0 || at(pat, p) == 0 {
        if at(buf, b) == 0 { 1 } else { 0 }
    } else {
        let c = at(pat, p);
        if c == 91 {
            // '[': a bracket class
            let neg = at(pat, p + 1) == 94;
            let n: int = if neg { 0 } else { 1 };
            let m0: int = if neg { 1 } else { 0 };
            let p1 = if neg { p + 2 } else { p + 1 };
            match class_scan(at(buf, b), pat, p1, m0, n, ic) {
                None => -1,
                Some((q, m)) => {
                    proof {
                        lemma_class_scan(at(buf, b), pat, p1, m0, n, ic);
                    }
                    if m < 1 {
                        m
                    } else {
                        pm_loop(buf, pat, b + 1, q + 1, at(pat, q), isdir, ic)
                    }
                },
            }
        } else if c == 42 {
            // '*'
            if at(pat, p + 1) == 0 {
                if tail(buf, b).contains(47) { 0 } else { 1 }
            } else if at(pat, p + 1) == 42 {
                if at(pat, p + 2) == 0 {
                    1
                } else {
                    star_dbl(buf, pat, b, p + 2, pprev, isdir, ic)
                }
            } else {
                star_one(buf, pat, b, p + 1, isdir, ic)
            }
        } else if c == 63 {
            // '?'
            if at(buf, b) == 0 {
                0
            } else {
                pm_loop(buf, pat, b + 1, p + 1, c, isdir, ic)
            }
        } else if c == 47 {
            // '/'
            if at(pat, p + 1) == 0 && at(buf, b) == 0 {
                if isdir { 1 } else { 0 }
            } else if at(buf, b) == c {
                pm_loop(buf, pat, b + 1, p + 1, c, isdir, ic)
            } else {
                0
            }
        } else {
            // a literal byte, possibly escaped by '\'
            let q = if c == 92 { p + 1 } else { p };
            if fold(at(buf, b), ic) == fold(at(pat, q), ic) {
                pm_loop(buf, pat, b + 1, q + 1, at(pat, q), isdir, ic)
            } else {
                0
            }
        }
    }
}

/// `**` followed by more pattern (from `p`): try the rest at `b` and
/// at every later position that starts a path segment.
pub open spec fn star_dbl(buf: Seq<u8>, pat: Seq<u8>, b: int, p: int, pprev: u8, isdir: bool, ic: bool) -> int
    decreases pat.len(), 0int, buf.len() + 1 - b,
{
    if pat.len() == 0 || p < 1 {
        0
    } else if b < 0 || at(buf, b) == 0 {
        pm(tail(buf, b), tail(pat, p), isdir, ic)
    } else {
        let m = pm(tail(buf, b), tail(pat, p), isdir, ic);
        if m != 0 {
            m
        } else if pprev == 47 && at(pat, p) == 47 && at(pat, p + 1) != 0 && pm(
            tail(buf, b),
            tail(pat, p + 1),
            isdir,
            ic,
        ) != 0 {
            pm(tail(buf, b), tail(pat, p + 1), isdir, ic)
        } else {
            proof {
                lemma_skip_seg(buf, b + 1);
            }
            star_dbl(buf, pat, skip_seg(buf, b + 1), p, pprev, isdir, ic)
        }
    }
}

/// A single `*` followed by more pattern (from `p`): try the rest at
/// `b` and at each later position, but never across a `/`.
pub open spec fn star_one(buf: Seq<u8>, pat: Seq<u8>, b: int, p: int, isdir: bool, ic: bool) -> int
    decreases pat.len(), 0int, buf.len() + 1 - b,
{
    if pat.len() == 0 || p < 1 {
        0
    } else if b < 0 || at(buf, b) == 0 {
        pm(tail(buf, b), tail(pat, p), isdir, ic)
    } else {
        let m = pm(tail(buf, b), tail(pat, p), isdir, ic);
        if m != 0 {
            m
        } else if at(buf, b + 1) == 47 {
            pm(tail(buf, b + 1), tail(pat, p), isdir, ic)
        } else {
            star_one(buf, pat, b + 1, p, isdir, ic)
        }
    }
}


/// Every result of the matcher is 1, 0 or -1.
pub proof fn lemma_pm_range(buf: Seq<u8>, pat: Seq<u8>, isdir: bool, ic: bool)
    ensures
        -1 <= pm(buf, pat, isdir, ic) <= 1,
    decreases pat.len(), 2int, 0int,
{
    lemma_bar_search(pat, 0);
    let bar = bar_search(pat, 0);
    if bar >= 0 {
        if !(bar == 0 || bar + 1 == pat.len()) {
            lemma_pm_range(buf, pat.subrange(0, bar), isdir, ic);
            lemma_pm_range(buf, pat.subrange(bar + 1, pat.len() as int), isdir, ic);
        }
    } else {
        lemma_loop_range(buf, pat, 0, 0, 0, isdir, ic);
    }
}

proof fn lemma_loop_range(buf: Seq<u8>, pat: Seq<u8>, b: int, p: int, pprev: u8, isdir: bool, ic: bool)
    ensures
        -1 <= pm_loop(buf, pat, b, p, pprev, isdir, ic) <= 1,
    decreases pat.len(), 1int, pat.len() + 2 - p,
{
    if p >= 0 && at(pat, p) != 0 {
        let c = at(pat, p);
        if c == 91 {
            let neg = at(pat, p + 1) == 94;
            let n: int = if neg { 0 } else { 1 };
            let m0: int = if neg { 1 } else { 0 };
            let p1 = if neg { p + 2 } else { p + 1 };
            lemma_class_scan(at(buf, b), pat, p1, m0, n, ic);
            if let Some((q, m)) = class_scan(at(buf, b), pat, p1, m0, n, ic) {
                if m >= 1 {
                    lemma_loop_range(buf, pat, b + 1, q + 1, at(pat, q), isdir, ic);
                }
            }
        } else if c == 42 {
            if at(pat, p + 1) != 0 {
                if at(pat, p + 1) == 42 {
                    if at(pat, p + 2) != 0 {
                        lemma_dbl_range(buf, pat, b, p + 2, pprev, isdir, ic);
                    }
                } else {
                    lemma_one_range(buf, pat, b, p + 1, isdir, ic);
                }
            }
        } else if c == 63 {
            if at(buf, b) != 0 {
                lemma_loop_range(buf, pat, b + 1, p + 1, c, isdir, ic);
            }
        } else if c == 47 {
            if !(at(pat, p + 1) == 0 && at(buf, b) == 0) && at(buf, b) == c {
                lemma_loop_range(buf, pat, b + 1, p + 1, c, isdir, ic);
            }
        } else {
            let q = if c == 92 { p + 1 } else { p };
            if fold(at(buf, b), ic) == fold(at(pat, q), ic) {
                lemma_loop_range(buf, pat, b + 1, q + 1, at(pat, q), isdir, ic);
            }
        }
    }
}

proof fn lemma_dbl_range(buf: Seq<u8>, pat: Seq<u8>, b: int, p: int, pprev: u8, isdir: bool, ic: bool)
    ensures
        -1 <= star_dbl(buf, pat, b, p, pprev, isdir, ic) <= 1,
    decreases pat.len(), 0int, buf.len() + 1 - b,
{
    if !(pat.len() == 0 || p < 1) {
        lemma_pm_range(tail(buf, b), tail(pat, p), isdir, ic);
        if !(b < 0 || at(buf, b) == 0) {
            lemma_pm_range(tail(buf, b), tail(pat, p + 1), isdir, ic);
            lemma_skip_seg(buf, b + 1);
            lemma_dbl_range(buf, pat, skip_seg(buf, b + 1), p, pprev, isdir, ic);
        }
    }
}

proof fn lemma_one_range(buf: Seq<u8>, pat: Seq<u8>, b: int, p: int, isdir: bool, ic: bool)
    ensures
        -1 <= star_one(buf, pat, b, p, isdir, ic) <= 1,
    decreases pat.len(), 0int, buf.len() + 1 - b,
{
    if !(pat.len() == 0 || p < 1) {
        lemma_pm_range(tail(buf, b), tail(pat, p), isdir, ic);
        if !(b < 0 || at(buf, b) == 0) {
            lemma_pm_range(tail(buf, b + 1), tail(pat, p), isdir, ic);
            lemma_one_range(buf, pat, b + 1, p, isdir, ic);
        }
    }
}


/// The byte at `i`, or 0 past the end.
fn byte_at(s: &[u8], i: usize) -> (c: u8)
    ensures
        c == at(s@, i as int),
        c != 0 ==> i < s.len(),
{
    if i < s.len() {
        s[i]
    } else {
        0
    }
}

/// The suffix of `s` from `i` (empty at or past the end).
fn suffix(s: &[u8], i: usize) -> (t: &[u8])
    ensures
        t@ == tail(s@, i as int),
{
    if i < s.len() {
        slice_subrange(s, i, s.len())
    } else {
        let e = slice_subrange(s, s.len(), s.len());
        assert(e@ =~= tail(s@, i as int));
        e
    }
}

/// ASCII lower-casing when `ic` holds.
fn low(c: u8, ic: bool) -> (r: u8)
    ensures
        r == fold(c, ic),
{
    if ic && 65u8 <= c && c <= 90u8 {
        c + 32
    } else {
        c
    }
}

/// Position of the first `|` in `pat`, or `pat.len()` when there is none.
fn find_bar(pat: &[u8]) -> (r: usize)
    ensures
        bar_search(pat@, 0) == -1 ==> r == pat@.len(),
        bar_search(pat@, 0) != -1 ==> r == bar_search(pat@, 0),
{
    let mut i: usize = 0;
    while i < pat.len()
        invariant
            i <= pat@.len(),
            bar_search(pat@, 0) == bar_search(pat@, i as int),
        decreases pat@.len() - i,
    {
        if pat[i] == 124u8 {
            return i;
        }
        i += 1;
    }
    i
}

/// Whether `s` holds a `/` anywhere.
fn has_slash(s: &[u8]) -> (r: bool)
    ensures
        r == s@.contains(47),
{
    let mut i: usize = 0;
    while i < s.len()
        invariant
            i <= s@.len(),
            forall|j: int| 0 <= j < i ==> s@[j] != 47,
        decreases s@.len() - i,
    {
        if s[i] == 47u8 {
            assert(s@[i as int] == 47);
            return true;
        }
        i += 1;
    }
    false
}

/// Matches `buf` against the glob `pat`: `*` (not across `/`), `**`,
/// `?`, bracket classes with ranges and `^`, `\` escapes, a trailing
/// `/` that matches directories only, and `|` alternatives. Returns 1
/// on a match, 0 on none and -1 on a syntax error.
pub fn patmatch(buf: &[u8], pat: &[u8], isdir: bool, ignore_case: bool) -> (r: i32)
    requires
        pat@.len() <= isize::MAX,
    ensures
        r as int == pm(buf@, pat@, isdir, ignore_case),
        -1 <= r <= 1,
    decreases pat@.len(),
{
    proof {
        lemma_pm_range(buf@, pat@, isdir, ignore_case);
        lemma_bar_search(pat@, 0);
    }
    let bar = find_bar(pat);
    if bar < pat.len() {
        if bar == 0 || bar + 1 == pat.len() {
            return -1;
        }
        let m = patmatch(buf, slice_subrange(pat, 0, bar), isdir, ignore_case);
        if m == 0 {
            return patmatch(buf, slice_subrange(pat, bar + 1, pat.len()), isdir, ignore_case);
        }
        return m;
    }
    let mut b: usize = 0;
    let mut p: usize = 0;
    let mut mtch: i32 = 1;
    let mut pprev: u8 = 0;
    while byte_at(pat, p) != 0 && mtch != 0
        invariant
            pat@.len() <= isize::MAX,
            p <= pat@.len() + 1,
            b <= p,
            mtch == 1,
            pm_loop(buf@, pat@, b as int, p as int, pprev, isdir, ignore_case) == pm(buf@, pat@, isdir, ignore_case),
        decreases pat@.len() + 2 - p,
    {
        let ghost b0 = b as int;
        let ghost p0 = p as int;
        let ghost pv0 = pprev;
        let c = byte_at(pat, p);
        if c == 91u8 {
            let ghost p0 = p as int;
            p += 1;
            let n: i32;
            if byte_at(pat, p) != 94u8 {
                n = 1;
                mtch = 0;
            } else {
                p += 1;
                n = 0;
            }
            let cb = byte_at(buf, b);
            let ghost target = class_scan(cb, pat@, p as int, mtch as int, n as int, ignore_case);
            proof {
                lemma_class_scan(cb, pat@, p as int, mtch as int, n as int, ignore_case);
            }
            while byte_at(pat, p) != 93u8
                invariant
                    pat@.len() <= isize::MAX,
                    p0 < p <= pat@.len() + 2,
                    b <= p0,
                    n == 0 || n == 1,
                    mtch == 0 || mtch == 1,
                    cb == at(buf@, b as int),
                    class_scan(cb, pat@, p as int, mtch as int, n as int, ignore_case) == target,
                    target is None ==> pm(buf@, pat@, isdir, ignore_case) == -1,
                    target matches Some((q, m)) ==> pm(buf@, pat@, isdir, ignore_case) == (if m < 1 {
                        m
                    } else {
                        pm_loop(buf@, pat@, b + 1, q + 1, at(pat@, q), isdir, ignore_case)
                    }),
                decreases pat@.len() + 3 - p,
            {
                let ghost pc = p as int;
                if byte_at(pat, p) == 92u8 {
                    p += 1;
                }
                if byte_at(pat, p) == 0 {
                    assert(class_scan(cb, pat@, pc, mtch as int, n as int, ignore_case) is None);
                    return -1;
                }
                if byte_at(pat, p + 1) == 45u8 {
                    let m = byte_at(pat, p);
                    p += 2;
                    if byte_at(pat, p) == 92u8 {
                        p += 1;
                    }
                    if low(cb, ignore_case) >= low(m, ignore_case) && low(cb, ignore_case) <= low(byte_at(pat, p), ignore_case) {
                        mtch = n;
                    }
                    if byte_at(pat, p) == 0 {
                        p -= 1;
                    }
                } else if low(cb, ignore_case) == low(byte_at(pat, p), ignore_case) {
                    mtch = n;
                }
                p += 1;
            }
            b += 1;
        } else if c == 42u8 {
            p += 1;
            if byte_at(pat, p) == 0 {
                let r = if has_slash(suffix(buf, b)) {
                    0
                } else {
                    1
                };
                assert(pm_loop(buf@, pat@, b0, p0, pv0, isdir, ignore_case) == r);
                return r;
            }
            if byte_at(pat, p) == 42u8 {
                p += 1;
                if byte_at(pat, p) == 0 {
                    assert(pm_loop(buf@, pat@, b0, p0, pv0, isdir, ignore_case) == 1);
                    return 1;
                }
                // "**" is mostly the same as "*", but may cross '/'.
                while byte_at(buf, b) != 0
                    invariant
                        pat@.len() <= isize::MAX,
                        1 <= p <= pat@.len(),
                        star_dbl(buf@, pat@, b as int, p as int, pprev, isdir, ignore_case) == pm(
                            buf@,
                            pat@,
                            isdir,
                            ignore_case,
                        ),
                    decreases buf@.len() + 1 - b,
                {
                    let m = patmatch(suffix(buf, b), suffix(pat, p), isdir, ignore_case);
                    if m != 0 {
                        assert(star_dbl(buf@, pat@, b as int, p as int, pprev, isdir, ignore_case) == m);
                        return m;
                    }
                    // "**" between two '/'s may also match a null '/'.
                    if pprev == 47u8 && byte_at(pat, p) == 47u8 && byte_at(pat, p + 1) != 0 {
                        let m2 = patmatch(suffix(buf, b), suffix(pat, p + 1), isdir, ignore_case);
                        if m2 != 0 {
                            assert(star_dbl(buf@, pat@, b as int, p as int, pprev, isdir, ignore_case) == m2);
                            return m2;
                        }
                    }
                    let ghost b0 = b as int;
                    proof {
                        lemma_skip_seg(buf@, b0 + 1);
                    }
                    b += 1;
                    while byte_at(buf, b) != 0 && byte_at(buf, b) != 47u8
                        invariant
                            b0 < b <= buf@.len(),
                            skip_seg(buf@, b as int) == skip_seg(buf@, b0 + 1),
                        decreases buf@.len() + 1 - b,
                    {
                        b += 1;
                    }
                }
                return patmatch(suffix(buf, b), suffix(pat, p), isdir, ignore_case);
            } else {
                while byte_at(buf, b) != 0
                    invariant
                        pat@.len() <= isize::MAX,
                        1 <= p <= pat@.len(),
                        star_one(buf@, pat@, b as int, p as int, isdir, ignore_case) == pm(buf@, pat@, isdir, ignore_case),
                    decreases buf@.len() + 1 - b,
                {
                    let ghost bs = b as int;
                    let m = patmatch(suffix(buf, b), suffix(pat, p), isdir, ignore_case);
                    b += 1;
                    if m != 0 {
                        assert(star_one(buf@, pat@, bs, p as int, isdir, ignore_case) == m);
                        return m;
                    }
                    if byte_at(buf, b) == 47u8 {
                        let r = patmatch(suffix(buf, b), suffix(pat, p), isdir, ignore_case);
                        assert(star_one(buf@, pat@, bs, p as int, isdir, ignore_case) == r);
                        return r;
                    }
                }
                return patmatch(suffix(buf, b), suffix(pat, p), isdir, ignore_case);
            }
        } else if c == 63u8 {
            if byte_at(buf, b) == 0 {
                return 0;
            }
            b += 1;
        } else if c == 47u8 {
            if byte_at(pat, p + 1) == 0 && byte_at(buf, b) == 0 {
                return if isdir {
                    1
                } else {
                    0
                };
            }
            mtch = if byte_at(buf, b) == byte_at(pat, p) {
                1
            } else {
                0
            };
            b += 1;
        } else {
            let mut ch = c;
            if ch == 92u8 {
                p += 1;
                ch = byte_at(pat, p);
            }
            mtch = if low(byte_at(buf, b), ignore_case) == low(ch, ignore_case) {
                1
            } else {
                0
            };
            b += 1;
        }
        pprev = byte_at(pat, p);
        p += 1;
        if mtch < 1 {
            return mtch;
        }
    }
    if byte_at(buf, b) == 0 {
        mtch
    } else {
        0
    }
}


/// `pat` matches some part of `name` that follows a `/`.
pub open spec fn suffix_hit(name: Seq<u8>, pat: Seq<u8>, isdir: bool, ic: bool) -> bool {
    exists|k: int|
        0 <= k < name.len() && name[k] == 47 && #[trigger] pm(
            name.subrange(k + 1, name.len() as int),
            pat,
            isdir,
            ic,
        ) == 1
}

/// `pat` matches `name`, or (with `check_paths`) a part of it after a `/`.
pub open spec fn pattern_hit(name: Seq<u8>, pat: Seq<u8>, isdir: bool, ic: bool, check_paths: bool) -> bool {
    pm(name, pat, isdir, ic) == 1 || (check_paths && suffix_hit(name, pat, isdir, ic))
}

/// Some pattern of `patterns` hits `name`.
pub open spec fn any_hit(
    name: Seq<u8>,
    patterns: Seq<Vec<u8>>,
    isdir: bool,
    ic: bool,
    check_paths: bool,
) -> bool {
    exists|i: int| 0 <= i < patterns.len() && #[trigger] pattern_hit(name, patterns[i]@, isdir, ic, check_paths)
}

/// Patterns that the matcher can scan without its positions overflowing.
pub open spec fn patterns_fit(patterns: Seq<Vec<u8>>) -> bool {
    forall|i: int| 0 <= i < patterns.len() ==> #[trigger] patterns[i]@.len() <= isize::MAX
}

/// Whether any of `patterns` matches `name` (the -P and -I
/// checks). With `check_paths`, every part of `name` that follows a
/// `/` is tried as well.
pub fn any_match(
    name: &[u8],
    patterns: &[Vec<u8>],
    isdir: bool,
    ignore_case: bool,
    check_paths: bool,
) -> (r: bool)
    requires
        patterns_fit(patterns@),
    ensures
        r == any_hit(name@, patterns@, isdir, ignore_case, check_paths),
{
    let mut i: usize = 0;
    while i < patterns.len()
        invariant
            i <= patterns@.len(),
            patterns_fit(patterns@),
            forall|j: int| 0 <= j < i ==> !#[trigger] pattern_hit(name@, patterns@[j]@, isdir, ignore_case, check_paths),
        decreases patterns@.len() - i,
    {
        let pat: &[u8] = patterns[i].as_slice();
        assert(patterns@[i as int]@.len() <= isize::MAX);
        if patmatch(name, pat, isdir, ignore_case) == 1 {
            assert(pattern_hit(name@, patterns@[i as int]@, isdir, ignore_case, check_paths));
            return true;
        }
        if check_paths {
            let mut k: usize = 0;
            while k < name.len()
                invariant
                    k <= name@.len(),
                    i < patterns@.len(),
                    check_paths,
                    pat@ == patterns@[i as int]@,
                    pat@.len() <= isize::MAX,
                    forall|m: int|
                        0 <= m < k && name@[m] == 47 ==> #[trigger] pm(
                            name@.subrange(m + 1, name@.len() as int),
                            pat@,
                            isdir,
                            ignore_case,
                        ) != 1,
                decreases name@.len() - k,
            {
                if name[k] == 47u8 {
                    let rest = slice_subrange(name, k + 1, name.len());
                    if patmatch(rest, pat, isdir, ignore_case) == 1 {
                        assert(suffix_hit(name@, pat@, isdir, ignore_case));
                        assert(pattern_hit(name@, patterns@[i as int]@, isdir, ignore_case, check_paths));
                        return true;
                    }
                }
                k += 1;
            }
        }
        i += 1;
    }
    false
}
} // verus!
