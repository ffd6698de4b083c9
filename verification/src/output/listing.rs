//! A whole listing: the report totals of all roots, and the bytes of
//! the chosen rendering from its head to its foot.

use vstd::prelude::*;
use crate::lits::{default_charset, default_title, put_default_charset, put_default_title};
use crate::options::{Options, OutputFormat};
use crate::output::{LineDraw, Totals};
use crate::output::html::{HtmlFormatter, html_root, html_report, html_intro, html_outro};
use crate::output::json::JsonFormatter;
use crate::output::json_laws::{json_document, json_roots};
use crate::output::text::{TextFormatter, text_root, text_report};
use crate::walk::{Root, RootKind, count_checked, root_dirs, root_files, root_size, depth_within};

verus! {

/// The directories counted by all of `roots`.
pub open spec fn roots_dirs(roots: Seq<Root>) -> nat
    decreases roots.len(),
{
    if roots.len() == 0 {
        0
    } else {
        roots_dirs(roots.drop_last()) + root_dirs(roots.last())
    }
}

/// The files counted by all of `roots`.
pub open spec fn roots_files(roots: Seq<Root>) -> nat
    decreases roots.len(),
{
    if roots.len() == 0 {
        0
    } else {
        roots_files(roots.drop_last()) + root_files(roots.last())
    }
}

/// The sizes of all of `roots`, summed.
pub open spec fn roots_size(roots: Seq<Root>) -> int
    decreases roots.len(),
{
    if roots.len() == 0 {
        0
    } else {
        roots_size(roots.drop_last()) + root_size(roots.last())
    }
}

/// Adding the roots' totals up one root after the other keeps every
/// count in u64 and every partial size in i64.
pub open spec fn totals_fit(roots: Seq<Root>) -> bool
    decreases roots.len(),
{
    if roots.len() == 0 {
        true
    } else {
        &&& totals_fit(roots.drop_last())
        &&& roots_dirs(roots) <= u64::MAX
        &&& roots_files(roots) <= u64::MAX
        &&& i64::MIN <= roots_size(roots) <= i64::MAX
    }
}

proof fn lemma_totals_fit_prefix(roots: Seq<Root>, k: int)
    requires
        0 <= k <= roots.len(),
        totals_fit(roots),
    ensures
        totals_fit(roots.take(k)),
    decreases roots.len(),
{
    if k == roots.len() {
        assert(roots.take(k) =~= roots);
    } else {
        assert(roots.drop_last().take(k) =~= roots.take(k));
        lemma_totals_fit_prefix(roots.drop_last(), k);
    }
}

/// The report totals of a listing: what every root counts (see
/// `Root::totals`), added up root by root; `None` when a count or a
/// partial size would leave its integer type on the way.
pub fn listing_totals(roots: &[Root]) -> (r: Option<Totals>)
    ensures
        r is Some <==> totals_fit(roots@),
        r matches Some(t) ==> t.dirs == roots_dirs(roots@) && t.files == roots_files(roots@) && t.size == roots_size(
            roots@,
        ),
{
    let mut totals = Totals::zero();
    let mut i: usize = 0;
    assert(roots@.take(0) =~= Seq::<Root>::empty());
    while i < roots.len()
        invariant
            i <= roots@.len(),
            totals_fit(roots@.take(i as int)),
            totals.dirs == roots_dirs(roots@.take(i as int)),
            totals.files == roots_files(roots@.take(i as int)),
            totals.size == roots_size(roots@.take(i as int)),
        decreases roots@.len() - i,
    {
        let root = &roots[i];
        let ghost next = roots@.take(i + 1);
        proof {
            assert(next.drop_last() =~= roots@.take(i as int));
            assert(next.last() == roots@[i as int]);
        }
        let (d, f): (u64, u64) = match &root.kind {
            RootKind::Missing => (0, 0),
            RootKind::Unreadable => (0, 1),
            RootKind::OverLimit(_) => (1, 0),
            RootKind::Opened(children) => match count_checked(children.as_slice()) {
                Some(c) => {
                    if c.dirs == u64::MAX {
                        proof {
                            if totals_fit(roots@) {
                                lemma_totals_fit_prefix(roots@, i + 1);
                            }
                        }
                        return None;
                    }
                    (c.dirs + 1, c.files)
                },
                None => {
                    proof {
                        if totals_fit(roots@) {
                            lemma_totals_fit_prefix(roots@, i + 1);
                        }
                    }
                    return None;
                },
            },
        };
        let s: i64 = match &root.meta {
            Some(m) => m.size,
            None => 0,
        };
        let dirs: u128 = totals.dirs as u128 + d as u128;
        let files: u128 = totals.files as u128 + f as u128;
        let size: i128 = totals.size as i128 + s as i128;
        if dirs > u64::MAX as u128 || files > u64::MAX as u128 || size < i64::MIN as i128 || size > i64::MAX as i128 {
            proof {
                if totals_fit(roots@) {
                    lemma_totals_fit_prefix(roots@, i + 1);
                }
            }
            return None;
        }
        totals.dirs = dirs as u64;
        totals.files = files as u64;
        totals.size = size as i64;
        i += 1;
    }
    assert(roots@.take(roots@.len() as int) =~= roots@);
    Some(totals)
}

/// What frames an HTML page: the bytes of the user's head and foot
/// files (empty when such a file cannot be read) in place of the
/// default ones, and the charset and title the default head names.
pub struct HtmlPage {
    pub intro: Option<Vec<u8>>,
    pub outro: Option<Vec<u8>>,
    pub charset: Option<Vec<u8>>,
    pub title: Option<Vec<u8>>,
}

/// `v`, or `d` when there is none.
pub open spec fn or_default(v: Option<Vec<u8>>, d: Seq<u8>) -> Seq<u8> {
    match v {
        Some(b) => b@,
        None => d,
    }
}

/// The head of an HTML page: the user's, or the default one with the
/// given (else iso-8859-1) charset and (else "Directory Tree") title.
pub open spec fn page_intro(g: LineDraw, p: HtmlPage) -> Seq<u8> {
    match p.intro {
        Some(b) => b@,
        None => html_intro(g, or_default(p.charset, default_charset()), or_default(p.title, default_title())),
    }
}

/// The foot of an HTML page: the user's, or the default one.
pub open spec fn page_outro(g: LineDraw, p: HtmlPage) -> Seq<u8> {
    match p.outro {
        Some(b) => b@,
        None => html_outro(g),
    }
}

/// Every root of `roots` as the text listing writes it.
pub open spec fn text_roots(g: LineDraw, roots: Seq<Root>, o: Options) -> Seq<u8>
    decreases roots.len(),
{
    if roots.len() == 0 {
        Seq::empty()
    } else {
        text_roots(g, roots.drop_last(), o) + text_root(g, roots.last(), o)
    }
}

/// Every root of `roots` as the HTML listing writes it.
pub open spec fn html_roots(g: LineDraw, roots: Seq<Root>, o: Options) -> Seq<u8>
    decreases roots.len(),
{
    if roots.len() == 0 {
        Seq::empty()
    } else {
        html_roots(g, roots.drop_last(), o) + html_root(g, roots.last(), o)
    }
}

/// `report`, except under --noreport.
pub open spec fn report_unless(o: Options, report: Seq<u8>) -> Seq<u8> {
    if o.no_report {
        Seq::empty()
    } else {
        report
    }
}

/// A whole listing in the format the options ask for: the head, every
/// root in turn, the report unless --noreport, and the foot. The text
/// listing has neither head nor foot; the JSON one is an array (see
/// `json_document`); the HTML one is framed as `p` says.
pub open spec fn listing_bytes(g: LineDraw, roots: Seq<Root>, t: Totals, o: Options, p: HtmlPage) -> Seq<u8> {
    match o.output {
        OutputFormat::Text => text_roots(g, roots, o) + report_unless(o, text_report(t, o, Seq::empty())),
        OutputFormat::Json => json_document(roots, t, o),
        OutputFormat::Html => page_intro(g, p) + html_roots(g, roots, o) + report_unless(
            o,
            html_report(t, o, Seq::empty()),
        ) + page_outro(g, p),
    }
}

/// The JSON listing can nest `r`'s entries: no path below it is as
/// deep as i32's largest level.
pub open spec fn nesting_fits(r: Root) -> bool {
    r.kind matches RootKind::Opened(ch) ==> depth_within(ch@, i32::MAX - 1)
}

/// Renders a whole listing (see `listing_bytes`).
pub fn render(opts: &Options, glyphs: LineDraw, roots: &[Root], totals: &Totals, page: &HtmlPage) -> (out: Vec<u8>)
    requires
        opts.output == OutputFormat::Json ==> forall|i: int| 0 <= i < roots@.len() ==> nesting_fits(#[trigger] roots@[i]),
    ensures
        out@ == listing_bytes(glyphs, roots@, *totals, *opts, *page),
{
    let ghost g = glyphs;
    let mut out: Vec<u8> = Vec::new();
    let n = roots.len();
    match opts.output {
        OutputFormat::Text => {
            let f = TextFormatter::new(glyphs);
            let mut i: usize = 0;
            assert(roots@.take(0) =~= Seq::<Root>::empty());
            while i < n
                invariant
                    n == roots@.len(),
                    i <= n,
                    f.glyph_set() == g,
                    out@ == text_roots(g, roots@.take(i as int), *opts),
                decreases n - i,
            {
                f.emit_root(&mut out, &roots[i], opts);
                proof {
                    assert(roots@.take(i + 1).drop_last() =~= roots@.take(i as int));
                }
                i += 1;
            }
            assert(roots@.take(n as int) =~= roots@);
            if !opts.no_report {
                let none: [u8; 0] = [];
                assert(none@ =~= Seq::<u8>::empty());
                f.emit_report(&mut out, totals, opts, &none);
            } else {
                assert(out@ =~= out@ + Seq::<u8>::empty());
            }
        },
        OutputFormat::Json => {
            let f = JsonFormatter::new(opts);
            f.intro(&mut out, opts);
            let ghost head = out@;
            let mut i: usize = 0;
            assert(roots@.take(0) =~= Seq::<Root>::empty());
            while i < n
                invariant
                    n == roots@.len(),
                    i <= n,
                    forall|k: int| 0 <= k < roots@.len() ==> nesting_fits(#[trigger] roots@[k]),
                    out@ == head + json_roots(roots@.take(i as int), n as int, *opts),
                decreases n - i,
            {
                let root = &roots[i];
                assert(roots@[i as int] == *root);
                f.emit_root(&mut out, root, opts, i + 1 < n);
                proof {
                    assert(roots@.take(i + 1).drop_last() =~= roots@.take(i as int));
                    assert(roots@.take(i + 1).last() == *root);
                }
                i += 1;
            }
            assert(roots@.take(n as int) =~= roots@);
            if !opts.no_report {
                f.emit_report(&mut out, totals, opts);
            }
            f.outro(&mut out, opts);
            assert(out@ =~= json_document(roots@, *totals, *opts));
        },
        OutputFormat::Html => {
            let mut f = HtmlFormatter::new(glyphs);
            match &page.intro {
                Some(bytes) => {
                    crate::walk::append(&mut out, bytes.as_slice());
                },
                None => {
                    let mut charset: Vec<u8> = Vec::new();
                    match &page.charset {
                        Some(c) => crate::walk::append(&mut charset, c.as_slice()),
                        None => put_default_charset(&mut charset),
                    }
                    let mut title: Vec<u8> = Vec::new();
                    match &page.title {
                        Some(t) => crate::walk::append(&mut title, t.as_slice()),
                        None => put_default_title(&mut title),
                    }
                    assert(charset@ =~= or_default(page.charset, default_charset()));
                    assert(title@ =~= or_default(page.title, default_title()));
                    f.intro(&mut out, charset.as_slice(), title.as_slice());
                },
            }
            assert(out@ =~= page_intro(g, *page));
            let ghost head = out@;
            let mut i: usize = 0;
            assert(roots@.take(0) =~= Seq::<Root>::empty());
            while i < n
                invariant
                    n == roots@.len(),
                    i <= n,
                    f.glyph_set() == g,
                    out@ == head + html_roots(g, roots@.take(i as int), *opts),
                decreases n - i,
            {
                f.emit_root(&mut out, &roots[i], opts);
                proof {
                    assert(roots@.take(i + 1).drop_last() =~= roots@.take(i as int));
                }
                i += 1;
            }
            assert(roots@.take(n as int) =~= roots@);
            let ghost body = out@;
            if !opts.no_report {
                let none: [u8; 0] = [];
                assert(none@ =~= Seq::<u8>::empty());
                f.emit_report(&mut out, totals, opts, &none);
            }
            let ghost reported = out@;
            match &page.outro {
                Some(bytes) => {
                    crate::walk::append(&mut out, bytes.as_slice());
                },
                None => {
                    f.outro(&mut out);
                },
            }
            assert(out@ =~= reported + page_outro(g, *page));
            assert(reported =~= body + report_unless(*opts, html_report(*totals, *opts, Seq::empty())));
        },
    }
    out
}

} // verus!
