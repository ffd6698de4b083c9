//! Properties of the glob matcher that hold for every input.

use vstd::prelude::*;
use crate::pattern::{at, tail, fold, bar_search, skip_seg, class_scan, pm, pm_loop, star_dbl, star_one, lemma_pm_range, lemma_bar_search, lemma_skip_seg, lemma_class_scan};

verus! {

/// A byte that stands for itself in a pattern: not NUL and none of
/// `[ * ? / \ |`.
pub open spec fn plain(c: u8) -> bool {
    c != 0 && c != 91 && c != 42 && c != 63 && c != 47 && c != 92 && c != 124
}

/// A pattern made only of plain bytes.
pub open spec fn literal(pat: Seq<u8>) -> bool {
    forall|j: int| 0 <= j < pat.len() ==> plain(#[trigger] pat[j])
}

/// A name without NUL bytes.
pub open spec fn nul_free(s: Seq<u8>) -> bool {
    forall|j: int| 0 <= j < s.len() ==> #[trigger] s[j] != 0
}

/// `a` and `b` are equal, byte for byte after folding with `ic`.
pub open spec fn eq_fold(a: Seq<u8>, b: Seq<u8>, ic: bool) -> bool {
    a.len() == b.len() && forall|j: int| 0 <= j < a.len() ==> fold(#[trigger] a[j], ic) == fold(b[j], ic)
}

/// The matcher answers 1 (match), 0 (no match) or -1 (syntax error),
/// never anything else.
pub proof fn law_result_range(buf: Seq<u8>, pat: Seq<u8>, isdir: bool, ic: bool)
    ensures
        pm(buf, pat, isdir, ic) == 1 || pm(buf, pat, isdir, ic) == 0 || pm(buf, pat, isdir, ic) == -1,
{
    lemma_pm_range(buf, pat, isdir, ic);
}

proof fn lemma_bar_at(a: Seq<u8>, c: Seq<u8>, i: int)
    requires
        0 <= i <= a.len(),
        forall|j: int| 0 <= j < a.len() ==> #[trigger] a[j] != 124,
    ensures
        bar_search(a + seq![124u8] + c, i) == a.len(),
    decreases a.len() - i,
{
    let pat = a + seq![124u8] + c;
    if i < a.len() {
        assert(pat[i] == a[i]);
        lemma_bar_at(a, c, i + 1);
    } else {
        assert(pat[i] == 124);
    }
}

/// Alternation: `a|c`, with `a` free of bars and both sides non-empty,
/// answers what `a` answers unless that is 0, and then what `c` answers.
pub proof fn law_alternation(buf: Seq<u8>, a: Seq<u8>, c: Seq<u8>, isdir: bool, ic: bool)
    requires
        a.len() > 0,
        c.len() > 0,
        forall|j: int| 0 <= j < a.len() ==> #[trigger] a[j] != 124,
    ensures
        pm(buf, a + seq![124u8] + c, isdir, ic) == if pm(buf, a, isdir, ic) == 0 {
            pm(buf, c, isdir, ic)
        } else {
            pm(buf, a, isdir, ic)
        },
{
    let pat = a + seq![124u8] + c;
    lemma_bar_at(a, c, 0);
    assert(pat.subrange(0, a.len() as int) =~= a);
    assert(pat.subrange(a.len() as int + 1, pat.len() as int) =~= c);
}

/// A pattern that begins with a bar is a syntax error.
pub proof fn law_leading_bar(buf: Seq<u8>, pat: Seq<u8>, isdir: bool, ic: bool)
    requires
        pat.len() > 0,
        pat[0] == 124,
    ensures
        pm(buf, pat, isdir, ic) == -1,
{
}

/// A pattern whose only bar is its last byte is a syntax error.
pub proof fn law_trailing_bar(buf: Seq<u8>, a: Seq<u8>, isdir: bool, ic: bool)
    requires
        forall|j: int| 0 <= j < a.len() ==> #[trigger] a[j] != 124,
    ensures
        pm(buf, a.push(124u8), isdir, ic) == -1,
{
    lemma_bar_at(a, Seq::empty(), 0);
    assert(a + seq![124u8] + Seq::<u8>::empty() =~= a.push(124u8));
}

/// A lone `*` matches exactly the names without a `/`.
pub proof fn law_lone_star(buf: Seq<u8>, isdir: bool, ic: bool)
    ensures
        pm(buf, seq![42u8], isdir, ic) == if buf.contains(47) { 0int } else { 1int },
{
    let pat = seq![42u8];
    assert(bar_search(pat, 1) == -1);
    assert(bar_search(pat, 0) == -1);
    assert(pm(buf, pat, isdir, ic) == pm_loop(buf, pat, 0, 0, 0, isdir, ic));
    assert(at(pat, 0) == 42 && at(pat, 1) == 0);
    assert(tail(buf, 0) =~= buf);
}

/// A lone `**` matches every name.
pub proof fn law_lone_double_star(buf: Seq<u8>, isdir: bool, ic: bool)
    ensures
        pm(buf, seq![42u8, 42u8], isdir, ic) == 1,
{
    let pat = seq![42u8, 42u8];
    assert(bar_search(pat, 2) == -1);
    assert(bar_search(pat, 1) == -1);
    assert(bar_search(pat, 0) == -1);
    assert(pm(buf, pat, isdir, ic) == pm_loop(buf, pat, 0, 0, 0, isdir, ic));
    assert(at(pat, 0) == 42 && at(pat, 1) == 42 && at(pat, 2) == 0);
}

proof fn lemma_literal_loop(buf: Seq<u8>, pat: Seq<u8>, k: int, pv: u8, isdir: bool, ic: bool)
    requires
        literal(pat),
        nul_free(buf),
        0 <= k <= pat.len(),
        k <= buf.len(),
    ensures
        pm_loop(buf, pat, k, k, pv, isdir, ic) == if buf.len() == pat.len() && forall|j: int|
            k <= j < pat.len() ==> fold(#[trigger] buf[j], ic) == fold(pat[j], ic) {
            1int
        } else {
            0int
        },
    decreases pat.len() - k,
{
    if k < pat.len() {
        let c = pat[k];
        assert(plain(c));
        if fold(at(buf, k), ic) == fold(at(pat, k), ic) {
            assert(at(buf, k) != 0);
            lemma_literal_loop(buf, pat, k + 1, c, isdir, ic);
        } else {
            assert(k < buf.len() ==> fold(buf[k], ic) != fold(pat[k], ic));
        }
    } else {
        assert(at(buf, k) == 0 <==> k == buf.len());
    }
}

/// A pattern without special bytes matches exactly the names equal
/// to it (ignoring ASCII case when `ic` holds).
pub proof fn law_literal(buf: Seq<u8>, pat: Seq<u8>, isdir: bool, ic: bool)
    requires
        literal(pat),
        nul_free(buf),
    ensures
        pm(buf, pat, isdir, ic) == if eq_fold(buf, pat, ic) { 1int } else { 0int },
{
    lemma_bar_search(pat, 0);
    if bar_search(pat, 0) != -1 {
        assert(plain(pat[bar_search(pat, 0)]));
    }
    lemma_literal_loop(buf, pat, 0, 0, isdir, ic);
}

proof fn lemma_dir_slash_loop(lit: Seq<u8>, k: int, pv: u8, isdir: bool, ic: bool)
    requires
        literal(lit),
        0 <= k <= lit.len(),
    ensures
        pm_loop(lit, lit.push(47u8), k, k, pv, isdir, ic) == if isdir { 1int } else { 0int },
    decreases lit.len() - k,
{
    let pat = lit.push(47u8);
    if k < lit.len() {
        assert(pat[k] == lit[k]);
        assert(plain(lit[k]));
        lemma_dir_slash_loop(lit, k + 1, lit[k], isdir, ic);
    } else {
        assert(at(pat, k) == 47);
        assert(at(pat, k + 1) == 0);
    }
}

/// A trailing `/` makes a literal pattern match its name only when
/// the name is a directory.
pub proof fn law_dir_slash(lit: Seq<u8>, isdir: bool, ic: bool)
    requires
        literal(lit),
    ensures
        pm(lit, lit.push(47u8), isdir, ic) == if isdir { 1int } else { 0int },
{
    let pat = lit.push(47u8);
    lemma_bar_search(pat, 0);
    if bar_search(pat, 0) != -1 {
        let i = bar_search(pat, 0);
        if i < lit.len() {
            assert(pat[i] == lit[i]);
            assert(plain(lit[i]));
        }
    }
    lemma_dir_slash_loop(lit, 0, 0, isdir, ic);
}


/// `s` with every ASCII capital replaced by its lower-case letter.
pub open spec fn lower(s: Seq<u8>) -> Seq<u8> {
    s.map_values(|c: u8| fold(c, true))
}

proof fn lemma_fold_special(c: u8)
    ensures
        (fold(c, true) == 0) == (c == 0),
        (fold(c, true) == 91) == (c == 91),
        (fold(c, true) == 92) == (c == 92),
        (fold(c, true) == 93) == (c == 93),
        (fold(c, true) == 94) == (c == 94),
        (fold(c, true) == 45) == (c == 45),
        (fold(c, true) == 42) == (c == 42),
        (fold(c, true) == 63) == (c == 63),
        (fold(c, true) == 47) == (c == 47),
        (fold(c, true) == 124) == (c == 124),
        fold(fold(c, true), false) == fold(c, true),
{
}

proof fn lemma_at_lower(s: Seq<u8>, i: int)
    ensures
        at(lower(s), i) == fold(at(s, i), true),
{
}

proof fn lemma_tail_lower(s: Seq<u8>, i: int)
    ensures
        tail(lower(s), i) == lower(tail(s, i)),
{
    assert(tail(lower(s), i) =~= lower(tail(s, i)));
}

proof fn lemma_bar_lower(pat: Seq<u8>, i: int)
    ensures
        bar_search(lower(pat), i) == bar_search(pat, i),
    decreases pat.len() - i,
{
    if 0 <= i < pat.len() {
        lemma_fold_special(pat[i]);
        lemma_bar_lower(pat, i + 1);
    }
}

proof fn lemma_skip_lower(buf: Seq<u8>, b: int)
    ensures
        skip_seg(lower(buf), b) == skip_seg(buf, b),
    decreases buf.len() + 1 - b,
{
    lemma_at_lower(buf, b);
    lemma_fold_special(at(buf, b));
    if 0 <= b && at(buf, b) != 0 && at(buf, b) != 47 {
        lemma_skip_lower(buf, b + 1);
    }
}

proof fn lemma_class_lower(c: u8, pat: Seq<u8>, p: int, mtch: int, n: int)
    ensures
        class_scan(c, pat, p, mtch, n, true) == class_scan(fold(c, true), lower(pat), p, mtch, n, false),
    decreases pat.len() + 3 - p,
{
    let lp = lower(pat);
    lemma_at_lower(pat, p);
    lemma_fold_special(at(pat, p));
    lemma_fold_special(c);
    if p >= 0 && at(pat, p) != 93 {
        let q = if at(pat, p) == 92 { p + 1 } else { p };
        lemma_at_lower(pat, q);
        lemma_at_lower(pat, q + 1);
        lemma_at_lower(pat, q + 2);
        lemma_fold_special(at(pat, q));
        lemma_fold_special(at(pat, q + 1));
        lemma_fold_special(at(pat, q + 2));
        if at(pat, q) != 0 {
            if at(pat, q + 1) == 45 {
                let lo = at(pat, q);
                let r = if at(pat, q + 2) == 92 { q + 3 } else { q + 2 };
                let hi = at(pat, r);
                lemma_at_lower(pat, r);
                lemma_fold_special(hi);
                let m2 = if fold(c, true) >= fold(lo, true) && fold(c, true) <= fold(hi, true) {
                    n
                } else {
                    mtch
                };
                let r2 = if hi == 0 { r - 1 } else { r };
                lemma_class_lower(c, pat, r2 + 1, m2, n);
            } else {
                let m2 = if fold(c, true) == fold(at(pat, q), true) { n } else { mtch };
                lemma_class_lower(c, pat, q + 1, m2, n);
            }
        }
    }
}

proof fn lemma_contains_slash_lower(s: Seq<u8>)
    ensures
        lower(s).contains(47) == s.contains(47),
{
    if s.contains(47) {
        let k = choose|k: int| 0 <= k < s.len() && s[k] == 47;
        assert(lower(s)[k] == 47);
    }
    if lower(s).contains(47) {
        let k = choose|k: int| 0 <= k < lower(s).len() && lower(s)[k] == 47;
        lemma_fold_special(s[k]);
        assert(s[k] == 47);
    }
}

/// Ignoring case is matching the lower-cased name against the
/// lower-cased pattern.
pub proof fn law_ignore_case(buf: Seq<u8>, pat: Seq<u8>, isdir: bool)
    ensures
        pm(buf, pat, isdir, true) == pm(lower(buf), lower(pat), isdir, false),
    decreases pat.len(), 2int, 0int,
{
    lemma_bar_lower(pat, 0);
    lemma_bar_search(pat, 0);
    let bar = bar_search(pat, 0);
    if bar >= 0 {
        if !(bar == 0 || bar + 1 == pat.len()) {
            assert(lower(pat).subrange(0, bar) =~= lower(pat.subrange(0, bar)));
            assert(lower(pat).subrange(bar + 1, pat.len() as int) =~= lower(
                pat.subrange(bar + 1, pat.len() as int),
            ));
            law_ignore_case(buf, pat.subrange(0, bar), isdir);
            law_ignore_case(buf, pat.subrange(bar + 1, pat.len() as int), isdir);
        }
    } else {
        lemma_loop_lower(buf, pat, 0, 0, 0, 0, isdir);
    }
}

proof fn lemma_loop_lower(buf: Seq<u8>, pat: Seq<u8>, b: int, p: int, pv: u8, pv2: u8, isdir: bool)
    requires
        (pv == 47) == (pv2 == 47),
    ensures
        pm_loop(buf, pat, b, p, pv, isdir, true) == pm_loop(lower(buf), lower(pat), b, p, pv2, isdir, false),
    decreases pat.len(), 1int, pat.len() + 2 - p,
{
    let lb = lower(buf);
    let lp = lower(pat);
    lemma_at_lower(pat, p);
    lemma_at_lower(pat, p + 1);
    lemma_at_lower(pat, p + 2);
    lemma_at_lower(buf, b);
    lemma_fold_special(at(pat, p));
    lemma_fold_special(at(pat, p + 1));
    lemma_fold_special(at(pat, p + 2));
    lemma_fold_special(at(buf, b));
    if p >= 0 && at(pat, p) != 0 {
        let c = at(pat, p);
        if c == 91 {
            let neg = at(pat, p + 1) == 94;
            let n: int = if neg { 0 } else { 1 };
            let m0: int = if neg { 1 } else { 0 };
            let p1 = if neg { p + 2 } else { p + 1 };
            lemma_class_lower(at(buf, b), pat, p1, m0, n);
            lemma_class_scan(at(buf, b), pat, p1, m0, n, true);
            if let Some((q, m)) = class_scan(at(buf, b), pat, p1, m0, n, true) {
                if m >= 1 {
                    lemma_at_lower(pat, q);
                    lemma_fold_special(at(pat, q));
                    lemma_loop_lower(buf, pat, b + 1, q + 1, at(pat, q), at(lp, q), isdir);
                }
            }
        } else if c == 42 {
            if at(pat, p + 1) == 0 {
                lemma_tail_lower(buf, b);
                lemma_contains_slash_lower(tail(buf, b));
            } else if at(pat, p + 1) == 42 {
                if at(pat, p + 2) != 0 {
                    lemma_dbl_lower(buf, pat, b, p + 2, pv, pv2, isdir);
                }
            } else {
                lemma_one_lower(buf, pat, b, p + 1, isdir);
            }
        } else if c == 63 {
            if at(buf, b) != 0 {
                lemma_loop_lower(buf, pat, b + 1, p + 1, c, at(lp, p), isdir);
            }
        } else if c == 47 {
            if !(at(pat, p + 1) == 0 && at(buf, b) == 0) && at(buf, b) == c {
                lemma_loop_lower(buf, pat, b + 1, p + 1, c, at(lp, p), isdir);
            }
        } else {
            let q = if c == 92 { p + 1 } else { p };
            lemma_at_lower(pat, q);
            lemma_fold_special(at(pat, q));
            if fold(at(buf, b), true) == fold(at(pat, q), true) {
                lemma_loop_lower(buf, pat, b + 1, q + 1, at(pat, q), at(lp, q), isdir);
            }
        }
    }
}

proof fn lemma_dbl_lower(buf: Seq<u8>, pat: Seq<u8>, b: int, p: int, pv: u8, pv2: u8, isdir: bool)
    requires
        (pv == 47) == (pv2 == 47),
    ensures
        star_dbl(buf, pat, b, p, pv, isdir, true) == star_dbl(lower(buf), lower(pat), b, p, pv2, isdir, false),
    decreases pat.len(), 0int, buf.len() + 1 - b,
{
    if !(pat.len() == 0 || p < 1) {
        lemma_at_lower(buf, b);
        lemma_fold_special(at(buf, b));
        lemma_at_lower(pat, p);
        lemma_at_lower(pat, p + 1);
        lemma_fold_special(at(pat, p));
        lemma_fold_special(at(pat, p + 1));
        lemma_tail_lower(buf, b);
        lemma_tail_lower(pat, p);
        lemma_tail_lower(pat, p + 1);
        lemma_tail_len_lt(pat, p);
        lemma_tail_len_lt(pat, p + 1);
        law_ignore_case(tail(buf, b), tail(pat, p), isdir);
        if !(b < 0 || at(buf, b) == 0) {
            law_ignore_case(tail(buf, b), tail(pat, p + 1), isdir);
            lemma_skip_lower(buf, b + 1);
            lemma_skip_seg(buf, b + 1);
            lemma_dbl_lower(buf, pat, skip_seg(buf, b + 1), p, pv, pv2, isdir);
        }
    }
}

proof fn lemma_one_lower(buf: Seq<u8>, pat: Seq<u8>, b: int, p: int, isdir: bool)
    ensures
        star_one(buf, pat, b, p, isdir, true) == star_one(lower(buf), lower(pat), b, p, isdir, false),
    decreases pat.len(), 0int, buf.len() + 1 - b,
{
    if !(pat.len() == 0 || p < 1) {
        lemma_at_lower(buf, b);
        lemma_at_lower(buf, b + 1);
        lemma_fold_special(at(buf, b));
        lemma_fold_special(at(buf, b + 1));
        lemma_tail_lower(buf, b);
        lemma_tail_lower(buf, b + 1);
        lemma_tail_lower(pat, p);
        lemma_tail_len_lt(pat, p);
        law_ignore_case(tail(buf, b), tail(pat, p), isdir);
        if !(b < 0 || at(buf, b) == 0) {
            law_ignore_case(tail(buf, b + 1), tail(pat, p), isdir);
            lemma_one_lower(buf, pat, b + 1, p, isdir);
        }
    }
}

proof fn lemma_tail_len_lt(s: Seq<u8>, i: int)
    requires
        s.len() > 0,
        i >= 1,
    ensures
        tail(s, i).len() < s.len(),
{
}

/// A byte that can stand as an end of a range in a bracket class: not
/// NUL, `\`, `]` or `|`.
pub open spec fn range_end(c: u8) -> bool {
    c != 0 && c != 92 && c != 93 && c != 124
}

/// A one-range class `[lo-hi]` matches a one-byte name exactly when the
/// byte lies between `lo` and `hi` with both ends included (compared
/// after case folding under `ic`).
pub proof fn law_class_range(c: u8, lo: u8, hi: u8, isdir: bool, ic: bool)
    requires
        range_end(lo),
        range_end(hi),
        lo != 94,
    ensures
        pm(seq![c], seq![91u8, lo, 45u8, hi, 93u8], isdir, ic) == if fold(lo, ic) <= fold(c, ic) <= fold(hi, ic) {
            1int
        } else {
            0int
        },
{
    let pat = seq![91u8, lo, 45u8, hi, 93u8];
    let buf = seq![c];
    assert(bar_search(pat, 5) == -1);
    assert(bar_search(pat, 4) == -1);
    assert(bar_search(pat, 3) == -1);
    assert(bar_search(pat, 2) == -1);
    assert(bar_search(pat, 1) == -1);
    assert(bar_search(pat, 0) == -1);
    assert(pm(buf, pat, isdir, ic) == pm_loop(buf, pat, 0, 0, 0, isdir, ic));
    assert(at(pat, 0) == 91 && at(pat, 1) == lo && at(pat, 2) == 45 && at(pat, 3) == hi && at(pat, 4) == 93);
    assert(at(pat, 5) == 0);
    assert(at(buf, 0) == c && at(buf, 1) == 0);
    let inside = fold(c, ic) >= fold(lo, ic) && fold(c, ic) <= fold(hi, ic);
    let m2: int = if inside { 1 } else { 0 };
    assert(class_scan(c, pat, 4, m2, 1, ic) == Some((4int, m2)));
    assert(class_scan(c, pat, 1, 0, 1, ic) == Some((4int, m2)));
    if inside {
        assert(pm_loop(buf, pat, 1, 5, 93, isdir, ic) == 1);
    }
}

/// A negated one-range class `[^lo-hi]` matches a one-byte name exactly
/// when the byte lies outside `lo`..`hi` (both ends excluded from the
/// match, compared after case folding under `ic`).
pub proof fn law_negated_class_range(c: u8, lo: u8, hi: u8, isdir: bool, ic: bool)
    requires
        range_end(lo),
        range_end(hi),
    ensures
        pm(seq![c], seq![91u8, 94u8, lo, 45u8, hi, 93u8], isdir, ic) == if fold(lo, ic) <= fold(c, ic) <= fold(
            hi,
            ic,
        ) {
            0int
        } else {
            1int
        },
{
    let pat = seq![91u8, 94u8, lo, 45u8, hi, 93u8];
    let buf = seq![c];
    assert(bar_search(pat, 6) == -1);
    assert(bar_search(pat, 5) == -1);
    assert(bar_search(pat, 4) == -1);
    assert(bar_search(pat, 3) == -1);
    assert(bar_search(pat, 2) == -1);
    assert(bar_search(pat, 1) == -1);
    assert(bar_search(pat, 0) == -1);
    assert(pm(buf, pat, isdir, ic) == pm_loop(buf, pat, 0, 0, 0, isdir, ic));
    assert(at(pat, 0) == 91 && at(pat, 1) == 94 && at(pat, 2) == lo && at(pat, 3) == 45 && at(pat, 4) == hi);
    assert(at(pat, 5) == 93 && at(pat, 6) == 0);
    assert(at(buf, 0) == c && at(buf, 1) == 0);
    let inside = fold(c, ic) >= fold(lo, ic) && fold(c, ic) <= fold(hi, ic);
    let m2: int = if inside { 0 } else { 1 };
    assert(class_scan(c, pat, 5, m2, 0, ic) == Some((5int, m2)));
    assert(class_scan(c, pat, 2, 1, 0, ic) == Some((5int, m2)));
    if !inside {
        assert(pm_loop(buf, pat, 1, 6, 93, isdir, ic) == 1);
    }
}

/// A class of single members `[xy]` matches a one-byte name exactly
/// when the byte is one of them (after case folding under `ic`).
pub proof fn law_class_members(c: u8, x: u8, y: u8, isdir: bool, ic: bool)
    requires
        range_end(x),
        range_end(y),
        x != 94,
        y != 45,
    ensures
        pm(seq![c], seq![91u8, x, y, 93u8], isdir, ic) == if fold(c, ic) == fold(x, ic) || fold(c, ic) == fold(
            y,
            ic,
        ) {
            1int
        } else {
            0int
        },
{
    let pat = seq![91u8, x, y, 93u8];
    let buf = seq![c];
    assert(bar_search(pat, 4) == -1);
    assert(bar_search(pat, 3) == -1);
    assert(bar_search(pat, 2) == -1);
    assert(bar_search(pat, 1) == -1);
    assert(bar_search(pat, 0) == -1);
    assert(pm(buf, pat, isdir, ic) == pm_loop(buf, pat, 0, 0, 0, isdir, ic));
    assert(at(pat, 0) == 91 && at(pat, 1) == x && at(pat, 2) == y && at(pat, 3) == 93 && at(pat, 4) == 0);
    assert(at(buf, 0) == c && at(buf, 1) == 0);
    let m1: int = if fold(c, ic) == fold(x, ic) { 1 } else { 0 };
    let m2: int = if fold(c, ic) == fold(y, ic) { 1 } else { m1 };
    assert(class_scan(c, pat, 3, m2, 1, ic) == Some((3int, m2)));
    assert(class_scan(c, pat, 2, m1, 1, ic) == Some((3int, m2)));
    assert(class_scan(c, pat, 1, 0, 1, ic) == Some((3int, m2)));
    if m2 == 1 {
        assert(pm_loop(buf, pat, 1, 4, 93, isdir, ic) == 1);
    }
}

/// A lone `?` matches exactly the names of one byte.
pub proof fn law_lone_question(buf: Seq<u8>, isdir: bool, ic: bool)
    requires
        nul_free(buf),
    ensures
        pm(buf, seq![63u8], isdir, ic) == if buf.len() == 1 { 1int } else { 0int },
{
    let pat = seq![63u8];
    assert(bar_search(pat, 1) == -1);
    assert(bar_search(pat, 0) == -1);
    assert(pm(buf, pat, isdir, ic) == pm_loop(buf, pat, 0, 0, 0, isdir, ic));
    assert(at(pat, 0) == 63 && at(pat, 1) == 0);
    if buf.len() > 0 {
        assert(buf[0] != 0);
        if buf.len() > 1 {
            assert(buf[1] != 0);
        }
        assert(pm_loop(buf, pat, 1, 1, 63, isdir, ic) == if buf.len() == 1 { 1int } else { 0int });
    }
}

} // verus!
