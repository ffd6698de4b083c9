//! HTML rendering (-H): spaces become `&nbsp;`, every indented line
//! starts with a tab, and entries are links whose href is the base
//! given with -H followed by the path (-R boundaries link to their own
//! listing file).

use vstd::prelude::*;
use crate::digits::{hex2, push_hex2};
use crate::lits::{
    nbsp, nbsp3, a_open, class_open, c_dir, c_exec, c_fifo, c_sock, c_norm, title_open, href_open,
    tree_suffix, a_close, br_nl, lt_ent, gt_ent, amp_ent, quot_ent, dquote, banner_head, banner_tail,
    report_open, report_close, bytes_used_in, intro_doc, intro_meta, intro_title, intro_style,
    intro_end, outro_a, outro_b, outro_c, outro_d, outro_e, put_nbsp, put_nbsp3, put_a_open,
    put_class_open, put_c_dir, put_c_exec, put_c_fifo, put_c_sock, put_c_norm, put_title_open,
    put_href_open, put_tree_suffix, put_a_close, put_br_nl, put_lt_ent, put_gt_ent, put_amp_ent,
    put_quot_ent, put_dquote, put_banner_head, put_banner_tail, put_report_open, put_report_close,
    put_bytes_used_in, put_intro_doc, put_intro_meta, put_intro_title, put_intro_style,
    put_intro_end, put_outro_a, put_outro_b, put_outro_c, put_outro_d, put_outro_e,
};
use crate::options::Options;
use crate::output::{LineDraw, Totals};
use crate::output::text::{note_part, root_note, counts_line, write_counts, write_over_limit};
use crate::seqs::{put_byte, cat2, cat3, cat4, cat5, cat6, cat7, cat8, cat9};
use crate::walk::{Node, Root, RootKind, append, join_path, joined};

verus! {

/// Bytes a URL keeps as they are: ASCII letters and digits and `/-._~`.
pub open spec fn url_safe(c: u8) -> bool {
    (48 <= c <= 57) || (65 <= c <= 90) || (97 <= c <= 122) || c == 47 || c == 45 || c == 46 || c == 95 || c
        == 126
}

/// A byte in a URL: itself if safe, else `%` and two upper-case hex digits.
pub open spec fn url_byte(c: u8) -> Seq<u8> {
    if url_safe(c) {
        seq![c]
    } else {
        seq![37u8] + hex2(c, true)
    }
}

/// Every byte of `s` in URL form.
pub open spec fn url_encoded(s: Seq<u8>) -> Seq<u8>
    decreases s.len(),
{
    if s.len() == 0 {
        Seq::empty()
    } else {
        url_encoded(s.drop_last()) + url_byte(s.last())
    }
}

/// A byte in HTML text: `<`, `>`, `&` and `"` as entities.
pub open spec fn html_byte(c: u8) -> Seq<u8> {
    if c == 60 {
        lt_ent()
    } else if c == 62 {
        gt_ent()
    } else if c == 38 {
        amp_ent()
    } else if c == 34 {
        quot_ent()
    } else {
        seq![c]
    }
}

/// Every byte of `s` in HTML form.
pub open spec fn html_encoded(s: Seq<u8>) -> Seq<u8>
    decreases s.len(),
{
    if s.len() == 0 {
        Seq::empty()
    } else {
        html_encoded(s.drop_last()) + html_byte(s.last())
    }
}

/// `s` with every space as `&nbsp;`.
pub open spec fn nbsp_spaced(s: Seq<u8>) -> Seq<u8>
    decreases s.len(),
{
    if s.len() == 0 {
        Seq::empty()
    } else {
        nbsp_spaced(s.drop_last()) + if s.last() == 32 {
            nbsp()
        } else {
            seq![s.last()]
        }
    }
}

/// The generator banner: version, copyright sign, authors.
pub open spec fn banner(g: LineDraw) -> Seq<u8> {
    banner_head() + g.copy@ + banner_tail()
}

/// The indent columns of the enclosing levels.
pub open spec fn html_stack(g: LineDraw, stack: Seq<bool>) -> Seq<u8>
    decreases stack.len(),
{
    if stack.len() == 0 {
        Seq::empty()
    } else {
        html_stack(g, stack.drop_last()) + (if stack.last() {
            g.vert@
        } else {
            nbsp3()
        }) + nbsp()
    }
}

/// A line's indent: a tab, the enclosing levels and, for an entry, a
/// corner (last entry) or a tee.
pub open spec fn html_indent(g: LineDraw, stack: Seq<bool>, last: Option<bool>) -> Seq<u8> {
    seq![9u8] + html_stack(g, stack) + match last {
        Some(l) => (if l {
            g.corner@
        } else {
            g.tee@
        }) + nbsp(),
        None => Seq::empty(),
    }
}

/// The class of an entry from its followed stat: a directory, an
/// executable, a FIFO, a socket, or a plain file.
pub open spec fn class_name(is_dir: bool, mode: u32) -> Seq<u8> {
    if is_dir {
        c_dir()
    } else if mode & 0o111u32 != 0 {
        c_exec()
    } else if mode & 0o170000u32 == 0o010000u32 {
        c_fifo()
    } else if mode & 0o170000u32 == 0o140000u32 {
        c_sock()
    } else {
        c_norm()
    }
}

/// The class attribute, under -C.
pub open spec fn class_attr(o: Options, class_of: Option<(bool, u32)>) -> Seq<u8> {
    match class_of {
        Some((d, m)) => if o.force_color {
            class_open() + class_name(d, m) + dquote()
        } else {
            Seq::empty()
        },
        None => Seq::empty(),
    }
}

/// The comment lines `lines` (the first of `n`), HTML-encoded, one per line.
pub open spec fn title_lines(lines: Seq<Vec<u8>>, n: int) -> Seq<u8>
    decreases lines.len(),
{
    if lines.len() == 0 {
        Seq::empty()
    } else {
        title_lines(lines.drop_last(), n) + html_encoded(lines.last()@) + if lines.len() < n {
            seq![10u8]
        } else {
            Seq::empty()
        }
    }
}

/// The title attribute of an entry with --info comment lines.
pub open spec fn title_attr(comment: Option<Vec<Vec<u8>>>) -> Seq<u8> {
    match comment {
        Some(lines) => title_open() + title_lines(lines@, lines@.len() as int) + dquote(),
        None => Seq::empty(),
    }
}

/// The base of every link (-H).
pub open spec fn host_of(o: Options) -> Seq<u8> {
    match o.host {
        Some(h) => h@,
        None => Seq::empty(),
    }
}

/// A `/`, unless `s` already ends in one.
pub open spec fn slash_unless_ends(s: Seq<u8>) -> Seq<u8> {
    if s.len() > 0 && s.last() == 47 {
        Seq::empty()
    } else {
        seq![47u8]
    }
}

/// The link of a boundary directory (`descend` above 1) to its own
/// listing file.
pub open spec fn boundary_suffix(descend: int) -> Seq<u8> {
    if descend > 1 {
        tree_suffix()
    } else {
        Seq::empty()
    }
}

/// Where an anchor links to, after the base. Below a directory path
/// `d` (cut by the root's length under an offset base), the entry's
/// own name follows unless it is the path itself; a directory that is
/// not a boundary gets a trailing slash.
pub open spec fn link_target(o: Options, dirlen: nat, dirname: Option<Seq<u8>>, filename: Seq<u8>, is_dir: bool, descend: int) -> Seq<u8> {
    match dirname {
        Some(d) => {
            let off = if o.htmloffset && d.len() >= dirlen {
                dirlen as int
            } else {
                0
            };
            url_encoded(d.subrange(off, d.len() as int)) + (if d != filename {
                slash_unless_ends(d) + url_encoded(filename)
            } else {
                Seq::empty()
            }) + boundary_suffix(descend) + if is_dir && descend < 2 {
                seq![47u8]
            } else {
                Seq::empty()
            }
        },
        None => slash_unless_ends(host_of(o)) + url_encoded(filename) + boundary_suffix(descend),
    }
}

/// The href attribute, unless --nolinks.
pub open spec fn href_attr(o: Options, dirlen: nat, dirname: Option<Seq<u8>>, filename: Seq<u8>, is_dir: bool, descend: int) -> Seq<u8> {
    if o.nolinks {
        Seq::empty()
    } else {
        href_open() + host_of(o) + link_target(o, dirlen, dirname, filename, is_dir, descend) + dquote()
    }
}

/// An entry's anchor: the attributes when there is a file behind it,
/// then the name HTML-encoded.
pub open spec fn anchor_text(
    o: Options,
    dirlen: nat,
    dirname: Option<Seq<u8>>,
    filename: Seq<u8>,
    comment: Option<Vec<Vec<u8>>>,
    class_of: Option<(bool, u32)>,
    has_file: bool,
    is_dir: bool,
    descend: int,
) -> Seq<u8> {
    a_open() + (if has_file {
        class_attr(o, class_of) + title_attr(comment) + href_attr(o, dirlen, dirname, filename, is_dir, descend)
    } else {
        Seq::empty()
    }) + seq![62u8] + html_encoded(filename) + a_close()
}

/// How a child entry's link ends: 11 for a -R boundary, 1 when
/// something is listed below it, else 0.
pub open spec fn descend_of(node: Node) -> int {
    if node.rerun_link {
        11
    } else if node.children is Some {
        1
    } else {
        0
    }
}

/// The mode an entry is classed by: the target's for a symlink.
pub open spec fn followed_mode(node: Node) -> u32 {
    if node.link is Some {
        node.meta.lnk_mode
    } else {
        node.meta.mode
    }
}

/// An entry's line and everything below it.
pub open spec fn html_node(g: LineDraw, dirlen: nat, node: Node, parent: Seq<u8>, stack: Seq<bool>, last: bool, o: Options) -> Seq<u8>
    decreases node,
{
    let display = if o.full_path {
        joined(parent, node.name@)
    } else {
        node.name@
    };
    (if o.noindent {
        Seq::empty()
    } else {
        html_indent(g, stack, Some(last))
    }) + anchor_text(
        o,
        dirlen,
        Some(parent),
        display,
        node.comment,
        Some((node.is_dir, followed_mode(node))),
        true,
        node.is_dir,
        descend_of(node),
    ) + note_part(node.err) + br_nl() + html_children(g, dirlen, node.children, joined(parent, node.name@), stack.push(!last), o)
}

/// What is listed below an entry, if anything.
pub open spec fn html_children(g: LineDraw, dirlen: nat, children: Option<Vec<Node>>, path: Seq<u8>, stack: Seq<bool>, o: Options) -> Seq<u8>
    decreases children,
{
    match children {
        Some(ch) => html_seq(g, dirlen, ch@, ch@.len() as int, path, stack, o),
        None => Seq::empty(),
    }
}

/// The entries `nodes` (the first of `total` in one directory).
pub open spec fn html_seq(g: LineDraw, dirlen: nat, nodes: Seq<Node>, total: int, parent: Seq<u8>, stack: Seq<bool>, o: Options) -> Seq<u8>
    decreases nodes,
{
    if nodes.len() == 0 {
        Seq::empty()
    } else {
        html_seq(g, dirlen, nodes.drop_last(), total, parent, stack, o) + html_node(
            g,
            dirlen,
            nodes.last(),
            parent,
            stack,
            nodes.len() == total,
            o,
        )
    }
}

/// Whether a root's mode is a directory's.
pub open spec fn root_is_dir(root: Root) -> bool {
    root.meta matches Some(m) && m.mode & 0o170000u32 == 0o040000u32
}

/// A root's line and everything listed below it.
pub open spec fn html_root(g: LineDraw, root: Root, o: Options) -> Seq<u8> {
    let descend: int = match root.kind {
        RootKind::Opened(ch) => if ch@.len() == 0 {
            0
        } else {
            1
        },
        _ => 1,
    };
    let class_of = match root.meta {
        Some(m) => Some((root_is_dir(root), m.mode)),
        None => None,
    };
    (if o.noindent {
        Seq::empty()
    } else {
        seq![9u8]
    }) + anchor_text(
        o,
        root.name@.len(),
        Some(root.name@),
        root.name@,
        None,
        class_of,
        root.meta is Some,
        root_is_dir(root),
        descend,
    ) + root_note(root.kind) + br_nl() + html_listing(g, root, o)
}

/// What is listed below a root.
pub open spec fn html_listing(g: LineDraw, root: Root, o: Options) -> Seq<u8> {
    match root.kind {
        RootKind::Opened(ch) => html_seq(g, root.name@.len(), ch@, ch@.len() as int, root.name@, Seq::empty(), o),
        _ => Seq::empty(),
    }
}

/// The report paragraph.
pub open spec fn html_report(t: Totals, o: Options, du_size: Seq<u8>) -> Seq<u8> {
    report_open() + (if o.du {
        du_size + bytes_used_in()
    } else {
        Seq::empty()
    }) + counts_line(t, o) + report_close()
}

/// The page head, titled `title`, declaring `charset`.
pub open spec fn html_intro(g: LineDraw, charset: Seq<u8>, title: Seq<u8>) -> Seq<u8> {
    intro_doc() + charset + intro_meta() + banner(g) + intro_title() + title + intro_style() + title + intro_end()
}

/// The page footer, with the copyright sign of the charset.
pub open spec fn html_outro(g: LineDraw) -> Seq<u8> {
    outro_a() + g.copy@ + outro_b() + g.copy@ + outro_c() + g.copy@ + outro_d() + g.copy@ + outro_e()
}

fn safe_in_url(c: u8) -> (r: bool)
    ensures
        r == url_safe(c),
{
    (48u8 <= c && c <= 57u8) || (65u8 <= c && c <= 90u8) || (97u8 <= c && c <= 122u8) || c == 47u8 || c == 45u8
        || c == 46u8 || c == 95u8 || c == 126u8
}

/// Writes `s` in URL form; says whether its last byte was a `/`.
pub fn url_encode(out: &mut Vec<u8>, s: &[u8]) -> (slash: bool)
    ensures
        final(out)@ == old(out)@ + url_encoded(s@),
        slash == (s@.len() > 0 && s@.last() == 47),
{
    let ghost start = out@;
    let mut slash = false;
    let mut i: usize = 0;
    while i < s.len()
        invariant
            i <= s@.len(),
            out@ == start + url_encoded(s@.take(i as int)),
            slash == (i > 0 && s@[i - 1] == 47),
        decreases s@.len() - i,
    {
        let c = s[i];
        let ghost before = out@;
        if safe_in_url(c) {
            put_byte(out, c);
        } else {
            put_byte(out, 37u8);
            push_hex2(out, c, true);
        }
        assert(out@ =~= before + url_byte(c));
        slash = c == 47u8;
        proof {
            assert(s@.take(i + 1).drop_last() =~= s@.take(i as int));
            assert(s@.take(i + 1).last() == c);
        }
        i += 1;
    }
    assert(s@.take(s@.len() as int) =~= s@);
    slash
}

/// Writes `s` in HTML form.
pub fn html_encode(out: &mut Vec<u8>, s: &[u8])
    ensures
        final(out)@ == old(out)@ + html_encoded(s@),
{
    let ghost start = out@;
    let mut i: usize = 0;
    while i < s.len()
        invariant
            i <= s@.len(),
            out@ == start + html_encoded(s@.take(i as int)),
        decreases s@.len() - i,
    {
        let c = s[i];
        let ghost before = out@;
        if c == 60u8 {
            put_lt_ent(out);
        } else if c == 62u8 {
            put_gt_ent(out);
        } else if c == 38u8 {
            put_amp_ent(out);
        } else if c == 34u8 {
            put_quot_ent(out);
        } else {
            put_byte(out, c);
            assert(out@ =~= before + seq![c]);
        }
        proof {
            assert(s@.take(i + 1).drop_last() =~= s@.take(i as int));
            assert(s@.take(i + 1).last() == c);
        }
        i += 1;
    }
    assert(s@.take(s@.len() as int) =~= s@);
}

/// Writes `s` with its spaces as `&nbsp;`, then two more `&nbsp;`.
pub fn html_print(out: &mut Vec<u8>, s: &[u8])
    ensures
        final(out)@ == old(out)@ + nbsp_spaced(s@) + nbsp() + nbsp(),
{
    let ghost start = out@;
    let mut i: usize = 0;
    while i < s.len()
        invariant
            i <= s@.len(),
            out@ == start + nbsp_spaced(s@.take(i as int)),
        decreases s@.len() - i,
    {
        let c = s[i];
        let ghost before = out@;
        if c == 32u8 {
            put_nbsp(out);
        } else {
            put_byte(out, c);
            assert(out@ =~= before + seq![c]);
        }
        proof {
            assert(s@.take(i + 1).drop_last() =~= s@.take(i as int));
            assert(s@.take(i + 1).last() == c);
        }
        i += 1;
        assert(out@ =~= start + nbsp_spaced(s@.take(i as int)));
    }
    assert(s@.take(s@.len() as int) =~= s@);
    put_nbsp(out);
    put_nbsp(out);
    assert(out@ =~= start + nbsp_spaced(s@) + nbsp() + nbsp());
}

pub struct HtmlFormatter {
    glyphs: LineDraw,
    /// Length of the current root argument, cut off the links under an
    /// offset base.
    dirlen: usize,
}

impl HtmlFormatter {
    /// An HTML formatter drawing with `glyphs`.
    pub fn new(glyphs: LineDraw) -> (f: Self)
        ensures
            f.glyph_set() == glyphs,
            f.root_len() == 0,
    {
        HtmlFormatter { glyphs, dirlen: 0 }
    }

    /// The glyphs this formatter draws with.
    pub closed spec fn glyph_set(&self) -> LineDraw {
        self.glyphs
    }

    /// The length of the root being rendered.
    pub closed spec fn root_len(&self) -> nat {
        self.dirlen as nat
    }

    /// The generator banner.
    fn banner(&self, out: &mut Vec<u8>)
        ensures
            final(out)@ == old(out)@ + banner(self.glyph_set()),
    {
        let ghost o0 = out@;
        put_banner_head(out);
        append(out, self.glyphs.copy.as_slice());
        put_banner_tail(out);
        proof {
            cat3(o0, banner_head(), self.glyph_set().copy@, banner_tail());
        }
    }

    fn write_stack(&self, out: &mut Vec<u8>, stack: &[bool])
        ensures
            final(out)@ == old(out)@ + html_stack(self.glyph_set(), stack@),
    {
        let ghost start = out@;
        let mut i: usize = 0;
        while i < stack.len()
            invariant
                i <= stack@.len(),
                out@ == start + html_stack(self.glyph_set(), stack@.take(i as int)),
            decreases stack@.len() - i,
        {
            let ghost before = out@;
            if stack[i] {
                append(out, self.glyphs.vert.as_slice());
            } else {
                put_nbsp3(out);
            }
            put_nbsp(out);
            proof {
                assert(stack@.take(i + 1).drop_last() =~= stack@.take(i as int));
                cat2(before, if stack[i as int] { self.glyph_set().vert@ } else { nbsp3() }, nbsp());
            }
            i += 1;
        }
        assert(stack@.take(stack@.len() as int) =~= stack@);
    }

    /// A line's indent (see `html_indent`).
    fn indent(&self, out: &mut Vec<u8>, stack: &[bool], last: Option<bool>)
        ensures
            final(out)@ == old(out)@ + html_indent(self.glyph_set(), stack@, last),
    {
        let ghost o0 = out@;
        put_byte(out, 9u8);
        self.write_stack(out, stack);
        let ghost o2 = out@;
        if let Some(l) = last {
            if l {
                append(out, self.glyphs.corner.as_slice());
            } else {
                append(out, self.glyphs.tee.as_slice());
            }
            put_nbsp(out);
            proof {
                cat2(o2, if l { self.glyph_set().corner@ } else { self.glyph_set().tee@ }, nbsp());
            }
        } else {
            assert(out@ =~= o2 + Seq::<u8>::empty());
        }
        proof {
            let tail = match last {
                Some(l) => (if l { self.glyph_set().corner@ } else { self.glyph_set().tee@ }) + nbsp(),
                None => Seq::empty(),
            };
            cat3(o0, seq![9u8], html_stack(self.glyph_set(), stack@), tail);
        }
    }

    /// An entry's anchor (see `anchor_text`).
    fn anchor(
        &self,
        out: &mut Vec<u8>,
        dirname: Option<&[u8]>,
        filename: &[u8],
        comment: &Option<Vec<Vec<u8>>>,
        class_of: Option<(bool, u32)>,
        has_file: bool,
        is_dir: bool,
        descend: i32,
        opts: &Options,
    )
        ensures
            final(out)@ == old(out)@ + anchor_text(
                *opts,
                self.root_len(),
                match dirname {
                    Some(d) => Some(d@),
                    None => None,
                },
                filename@,
                *comment,
                class_of,
                has_file,
                is_dir,
                descend as int,
            ),
    {
        let ghost o0 = out@;
        let ghost dn = match dirname {
            Some(d) => Some(d@),
            None => None,
        };
        put_a_open(out);
        let ghost o1 = out@;
        if has_file {
            write_class(out, class_of, opts);
            write_title(out, comment);
            if !opts.nolinks {
                self.write_href(out, dirname, filename, is_dir, descend, opts);
            } else {
                assert(out@ =~= out@ + href_attr(*opts, self.root_len(), dn, filename@, is_dir, descend as int));
            }
            proof {
                cat3(
                    o1,
                    class_attr(*opts, class_of),
                    title_attr(*comment),
                    href_attr(*opts, self.root_len(), dn, filename@, is_dir, descend as int),
                );
            }
        } else {
            assert(out@ =~= o1 + Seq::<u8>::empty());
        }
        let ghost o2 = out@;
        put_byte(out, 62u8);
        html_encode(out, filename);
        put_a_close(out);
        proof {
            let attrs = if has_file {
                class_attr(*opts, class_of) + title_attr(*comment) + href_attr(
                    *opts,
                    self.root_len(),
                    dn,
                    filename@,
                    is_dir,
                    descend as int,
                )
            } else {
                Seq::empty()
            };
            cat5(o0, a_open(), attrs, seq![62u8], html_encoded(filename@), a_close());
        }
    }

    fn write_href(&self, out: &mut Vec<u8>, dirname: Option<&[u8]>, filename: &[u8], is_dir: bool, descend: i32, opts: &Options)
        requires
            !opts.nolinks,
        ensures
            final(out)@ == old(out)@ + href_attr(
                *opts,
                self.root_len(),
                match dirname {
                    Some(d) => Some(d@),
                    None => None,
                },
                filename@,
                is_dir,
                descend as int,
            ),
    {
        let ghost o0 = out@;
        let ghost dn = match dirname {
            Some(d) => Some(d@),
            None => None,
        };
        put_href_open(out);
        let host: &[u8] = match &opts.host {
            Some(h) => h.as_slice(),
            None => &[],
        };
        assert(host@ =~= host_of(*opts));
        append(out, host);
        self.write_target(out, dirname, filename, host, is_dir, descend, opts);
        put_dquote(out);
        proof {
            cat4(
                o0,
                href_open(),
                host_of(*opts),
                link_target(*opts, self.root_len(), dn, filename@, is_dir, descend as int),
                dquote(),
            );
        }
    }

    fn write_target(
        &self,
        out: &mut Vec<u8>,
        dirname: Option<&[u8]>,
        filename: &[u8],
        host: &[u8],
        is_dir: bool,
        descend: i32,
        opts: &Options,
    )
        requires
            host@ == host_of(*opts),
        ensures
            final(out)@ == old(out)@ + link_target(
                *opts,
                self.root_len(),
                match dirname {
                    Some(d) => Some(d@),
                    None => None,
                },
                filename@,
                is_dir,
                descend as int,
            ),
    {
        let ghost o0 = out@;
        match dirname {
            Some(dirname) => {
                let off = if opts.htmloffset && dirname.len() >= self.dirlen {
                    self.dirlen
                } else {
                    0
                };
                url_encode(out, vstd::slice::slice_subrange(dirname, off, dirname.len()));
                let ghost o1 = out@;
                if !crate::output::json::bytes_equal(dirname, filename) {
                    write_slash_unless_ends(out, dirname);
                    url_encode(out, filename);
                    proof {
                        cat2(o1, slash_unless_ends(dirname@), url_encoded(filename@));
                    }
                } else {
                    assert(out@ =~= o1 + Seq::<u8>::empty());
                }
                let ghost o2 = out@;
                write_boundary_suffix(out, descend);
                let ghost o3 = out@;
                if is_dir && descend < 2 {
                    put_byte(out, 47u8);
                } else {
                    assert(out@ =~= o3 + Seq::<u8>::empty());
                }
                proof {
                    let mid = if dirname@ != filename@ {
                        slash_unless_ends(dirname@) + url_encoded(filename@)
                    } else {
                        Seq::empty()
                    };
                    let fin = if is_dir && descend < 2 { seq![47u8] } else { Seq::empty() };
                    let off_i = if opts.htmloffset && dirname@.len() >= self.root_len() { self.root_len() as int } else { 0 };
                    cat4(o0, url_encoded(dirname@.subrange(off_i, dirname@.len() as int)), mid, boundary_suffix(descend as int), fin);
                }
            },
            None => {
                write_slash_unless_ends(out, host);
                url_encode(out, filename);
                write_boundary_suffix(out, descend);
                proof {
                    cat3(o0, slash_unless_ends(host_of(*opts)), url_encoded(filename@), boundary_suffix(descend as int));
                }
            },
        }
    }

    /// The entries of one directory and, below each, its own entries
    /// one level deeper.
    #[verifier::spinoff_prover]
    fn emit_children(&self, out: &mut Vec<u8>, nodes: &[Node], parent_path: &[u8], stack: &mut Vec<bool>, opts: &Options)
        ensures
            final(out)@ == old(out)@ + html_seq(
                self.glyph_set(),
                self.root_len(),
                nodes@,
                nodes@.len() as int,
                parent_path@,
                old(stack)@,
                *opts,
            ),
            final(stack)@ == old(stack)@,
        decreases nodes@, 1int,
    {
        let ghost start = out@;
        let ghost st = stack@;
        let n = nodes.len();
        let mut index: usize = 0;
        while index < n
            invariant
                n == nodes@.len(),
                index <= n,
                stack@ == st,
                out@ == start + html_seq(self.glyph_set(), self.root_len(), nodes@.take(index as int), n as int, parent_path@, st, *opts),
            decreases n - index,
        {
            let node = &nodes[index];
            let last = index + 1 == n;
            assert(decreases_to!(nodes@ => *node));
            self.emit_node(out, node, parent_path, stack, last, opts);
            proof {
                assert(nodes@.take(index + 1).drop_last() =~= nodes@.take(index as int));
                assert(nodes@.take(index + 1).last() == nodes@[index as int]);
            }
            index += 1;
        }
        assert(nodes@.take(n as int) =~= nodes@);
    }

    /// One entry's line and, one level deeper, everything below it.
    #[verifier::spinoff_prover]
    #[verifier::rlimit(60)]
    fn emit_node(&self, out: &mut Vec<u8>, node: &Node, parent_path: &[u8], stack: &mut Vec<bool>, last: bool, opts: &Options)
        ensures
            final(out)@ == old(out)@ + html_node(self.glyph_set(), self.root_len(), *node, parent_path@, old(stack)@, last, *opts),
            final(stack)@ == old(stack)@,
        decreases *node, 0int,
    {
        let ghost o0 = out@;
        let ghost st = stack@;
        let ghost g = self.glyph_set();
        if !opts.noindent {
            self.indent(out, stack.as_slice(), Some(last));
        } else {
            assert(out@ =~= o0 + Seq::<u8>::empty());
        }
        let ghost o1 = out@;
        let descend: i32 = if node.rerun_link {
            11
        } else if node.children.is_some() {
            1
        } else {
            0
        };
        let mode = if node.link.is_some() {
            node.meta.lnk_mode
        } else {
            node.meta.mode
        };
        let ghost display = if opts.full_path {
            joined(parent_path@, node.name@)
        } else {
            node.name@
        };
        if opts.full_path {
            let full = join_path(parent_path, node.name.as_slice());
            self.anchor(out, Some(parent_path), full.as_slice(), &node.comment, Some((node.is_dir, mode)), true, node.is_dir, descend, opts);
        } else {
            self.anchor(out, Some(parent_path), node.name.as_slice(), &node.comment, Some((node.is_dir, mode)), true, node.is_dir, descend, opts);
        }
        let ghost o2 = out@;
        crate::output::text::write_note_bytes(out, &node.err);
        put_br_nl(out);
        let ghost o3 = out@;
        if let Some(children) = &node.children {
            stack.push(!last);
            let child_parent = join_path(parent_path, node.name.as_slice());
            self.emit_children(out, children.as_slice(), child_parent.as_slice(), stack, opts);
            stack.pop();
            assert(stack@ =~= st);
        } else {
            assert(out@ =~= o3 + Seq::<u8>::empty());
        }
        proof {
            let pre = if opts.noindent { Seq::empty() } else { html_indent(g, st, Some(last)) };
            let a = anchor_text(
                *opts,
                self.root_len(),
                Some(parent_path@),
                display,
                node.comment,
                Some((node.is_dir, followed_mode(*node))),
                true,
                node.is_dir,
                descend_of(*node),
            );
            let kids = html_children(g, self.root_len(), node.children, joined(parent_path@, node.name@), st.push(!last), *opts);
            assert(o1 == o0 + pre);
            assert(o2 == o1 + a);
            assert(o3 == o2 + note_part(node.err) + br_nl());
            assert(out@ == o3 + kids);
            lemma_html_node(g, self.root_len(), *node, parent_path@, st, last, *opts);
            cat5(o0, pre, a, note_part(node.err), br_nl(), kids);
        }
    }

    /// The page head (unless the page is framed by files of the user's).
    pub fn intro(&self, out: &mut Vec<u8>, charset: &[u8], title: &[u8])
        ensures
            final(out)@ == old(out)@ + html_intro(self.glyph_set(), charset@, title@),
    {
        let ghost o0 = out@;
        put_intro_doc(out);
        append(out, charset);
        put_intro_meta(out);
        self.banner(out);
        put_intro_title(out);
        append(out, title);
        put_intro_style(out);
        append(out, title);
        put_intro_end(out);
        proof {
            cat9(o0, intro_doc(), charset@, intro_meta(), banner(self.glyph_set()), intro_title(), title@, intro_style(), title@, intro_end());
        }
    }

    /// The page footer.
    pub fn outro(&self, out: &mut Vec<u8>)
        ensures
            final(out)@ == old(out)@ + html_outro(self.glyph_set()),
    {
        let ghost o0 = out@;
        let ghost c = self.glyph_set().copy@;
        put_outro_a(out);
        append(out, self.glyphs.copy.as_slice());
        put_outro_b(out);
        append(out, self.glyphs.copy.as_slice());
        put_outro_c(out);
        append(out, self.glyphs.copy.as_slice());
        put_outro_d(out);
        append(out, self.glyphs.copy.as_slice());
        put_outro_e(out);
        proof {
            cat9(o0, outro_a(), c, outro_b(), c, outro_c(), c, outro_d(), c, outro_e());
        }
    }

    /// A root's line and everything listed below it; the links below
    /// are cut by this root's length under an offset base.
    #[verifier::spinoff_prover]
    #[verifier::rlimit(60)]
    pub fn emit_root(&mut self, out: &mut Vec<u8>, root: &Root, opts: &Options)
        ensures
            final(self).glyph_set() == old(self).glyph_set(),
            final(self).root_len() == root.name@.len(),
            final(out)@ == old(out)@ + html_root(old(self).glyph_set(), *root, *opts),
    {
        let ghost o0 = out@;
        self.dirlen = root.name.len();
        if !opts.noindent {
            put_byte(out, 9u8);
        } else {
            assert(out@ =~= o0 + Seq::<u8>::empty());
        }
        let ghost o1 = out@;
        let descend: i32 = match &root.kind {
            RootKind::Opened(children) => if children.len() == 0 {
                0
            } else {
                1
            },
            _ => 1,
        };
        let is_dir = match &root.meta {
            Some(m) => m.mode & 0o170000u32 == 0o040000u32,
            None => false,
        };
        let class_of = match &root.meta {
            Some(m) => Some((is_dir, m.mode)),
            None => None,
        };
        let none: Option<Vec<Vec<u8>>> = None;
        self.anchor(out, Some(root.name.as_slice()), root.name.as_slice(), &none, class_of, root.meta.is_some(), is_dir, descend, opts);
        let ghost o2 = out@;
        write_root_note(out, &root.kind);
        put_br_nl(out);
        let ghost o3 = out@;
        if let RootKind::Opened(children) = &root.kind {
            let mut stack: Vec<bool> = Vec::new();
            assert(stack@ =~= Seq::<bool>::empty());
            self.emit_children(out, children.as_slice(), root.name.as_slice(), &mut stack, opts);
        } else {
            assert(out@ =~= o3 + Seq::<u8>::empty());
        }
        proof {
            let g = self.glyph_set();
            let pre = if opts.noindent { Seq::empty() } else { seq![9u8] };
            let a = anchor_text(*opts, root.name@.len(), Some(root.name@), root.name@, None, class_of, root.meta is Some, root_is_dir(*root), descend as int);
            let kids = html_listing(g, *root, *opts);
            assert(o2 == o1 + a);
            assert(out@ == o3 + kids);
            cat5(o0, pre, a, root_note(root.kind), br_nl(), kids);
        }
    }

    /// The report paragraph. `du_size` is the total size as the size
    /// column renders it; it is printed only under --du.
    pub fn emit_report(&self, out: &mut Vec<u8>, totals: &Totals, opts: &Options, du_size: &[u8])
        ensures
            final(out)@ == old(out)@ + html_report(*totals, *opts, du_size@),
    {
        let ghost o0 = out@;
        put_report_open(out);
        let ghost o1 = out@;
        if opts.du {
            append(out, du_size);
            put_bytes_used_in(out);
            proof {
                cat2(o1, du_size@, bytes_used_in());
            }
        } else {
            assert(out@ =~= o1 + Seq::<u8>::empty());
        }
        write_counts(out, totals, opts);
        put_report_close(out);
        proof {
            let du = if opts.du { du_size@ + bytes_used_in() } else { Seq::empty() };
            cat4(o0, report_open(), du, counts_line(*totals, *opts), report_close());
        }
    }
}

proof fn lemma_html_node(g: LineDraw, dirlen: nat, node: Node, parent: Seq<u8>, stack: Seq<bool>, last: bool, o: Options)
    ensures
        html_node(g, dirlen, node, parent, stack, last, o) == (if o.noindent {
            Seq::empty()
        } else {
            html_indent(g, stack, Some(last))
        }) + anchor_text(
            o,
            dirlen,
            Some(parent),
            if o.full_path {
                joined(parent, node.name@)
            } else {
                node.name@
            },
            node.comment,
            Some((node.is_dir, followed_mode(node))),
            true,
            node.is_dir,
            descend_of(node),
        ) + note_part(node.err) + br_nl() + html_children(g, dirlen, node.children, joined(parent, node.name@), stack.push(!last), o),
{
}

fn write_slash_unless_ends(out: &mut Vec<u8>, s: &[u8])
    ensures
        final(out)@ == old(out)@ + slash_unless_ends(s@),
{
    if !(s.len() > 0 && s[s.len() - 1] == 47u8) {
        put_byte(out, 47u8);
        assert(out@ =~= old(out)@ + slash_unless_ends(s@));
    } else {
        assert(out@ =~= old(out)@ + slash_unless_ends(s@));
    }
}

fn write_boundary_suffix(out: &mut Vec<u8>, descend: i32)
    ensures
        final(out)@ == old(out)@ + boundary_suffix(descend as int),
{
    if descend > 1 {
        put_tree_suffix(out);
    } else {
        assert(out@ =~= old(out)@ + boundary_suffix(descend as int));
    }
}

fn class_of_mode(out: &mut Vec<u8>, is_dir: bool, mode: u32)
    ensures
        final(out)@ == old(out)@ + class_name(is_dir, mode),
{
    if is_dir {
        put_c_dir(out);
    } else if mode & 0o111u32 != 0 {
        put_c_exec(out);
    } else if mode & 0o170000u32 == 0o010000u32 {
        put_c_fifo(out);
    } else if mode & 0o170000u32 == 0o140000u32 {
        put_c_sock(out);
    } else {
        put_c_norm(out);
    }
}

fn write_class(out: &mut Vec<u8>, class_of: Option<(bool, u32)>, opts: &Options)
    ensures
        final(out)@ == old(out)@ + class_attr(*opts, class_of),
{
    match class_of {
        Some((d, m)) => {
            if opts.force_color {
                let ghost o0 = out@;
                put_class_open(out);
                class_of_mode(out, d, m);
                put_dquote(out);
                proof {
                    cat3(o0, class_open(), class_name(d, m), dquote());
                }
            } else {
                assert(out@ =~= old(out)@ + class_attr(*opts, class_of));
            }
        },
        None => {
            assert(out@ =~= old(out)@ + class_attr(*opts, class_of));
        },
    }
}

fn write_title(out: &mut Vec<u8>, comment: &Option<Vec<Vec<u8>>>)
    ensures
        final(out)@ == old(out)@ + title_attr(*comment),
{
    if let Some(lines) = comment {
        let ghost o0 = out@;
        put_title_open(out);
        let ghost start = out@;
        let n = lines.len();
        let mut i: usize = 0;
        while i < n
            invariant
                n == lines@.len(),
                i <= n,
                out@ == start + title_lines(lines@.take(i as int), n as int),
            decreases n - i,
        {
            let ghost before = out@;
            html_encode(out, lines[i].as_slice());
            let ghost mid = out@;
            if i + 1 < n {
                put_byte(out, 10u8);
            }
            proof {
                assert(lines@.take(i + 1).drop_last() =~= lines@.take(i as int));
                assert(lines@.take(i + 1).last() == lines@[i as int]);
                let sep = if i + 1 < n { seq![10u8] } else { Seq::empty() };
                assert(out@ =~= mid + sep);
                cat3(start, title_lines(lines@.take(i as int), n as int), html_encoded(lines@[i as int]@), sep);
            }
            i += 1;
        }
        assert(lines@.take(n as int) =~= lines@);
        put_dquote(out);
        proof {
            cat3(o0, title_open(), title_lines(lines@, n as int), dquote());
        }
    } else {
        assert(out@ =~= old(out)@ + title_attr(*comment));
    }
}

fn write_root_note(out: &mut Vec<u8>, kind: &RootKind)
    ensures
        final(out)@ == old(out)@ + root_note(*kind),
{
    crate::output::text::write_root_note(out, kind);
}

/// An entry's own line in the HTML listing: indent, anchor, annotation
/// and line break, without what is listed below it.
pub open spec fn html_line(g: LineDraw, dirlen: nat, node: Node, parent: Seq<u8>, stack: Seq<bool>, last: bool, o: Options) -> Seq<u8> {
    let display = if o.full_path {
        joined(parent, node.name@)
    } else {
        node.name@
    };
    (if o.noindent {
        Seq::empty()
    } else {
        html_indent(g, stack, Some(last))
    }) + anchor_text(
        o,
        dirlen,
        Some(parent),
        display,
        node.comment,
        Some((node.is_dir, followed_mode(node))),
        true,
        node.is_dir,
        descend_of(node),
    ) + note_part(node.err) + br_nl()
}

/// The indent of nested levels is built level by level: that of the
/// outer levels, then that of the inner ones.
pub proof fn law_html_stack_concat(g: LineDraw, outer: Seq<bool>, inner: Seq<bool>)
    ensures
        html_stack(g, outer + inner) == html_stack(g, outer) + html_stack(g, inner),
    decreases inner.len(),
{
    if inner.len() == 0 {
        assert(outer + inner =~= outer);
        assert(html_stack(g, outer) + html_stack(g, inner) =~= html_stack(g, outer));
    } else {
        assert((outer + inner).drop_last() =~= outer + inner.drop_last());
        assert((outer + inner).last() == inner.last());
        law_html_stack_concat(g, outer, inner.drop_last());
        let bit = (if inner.last() { g.vert@ } else { nbsp3() }) + nbsp();
        assert(html_stack(g, outer + inner) == html_stack(g, outer + inner.drop_last()) + bit);
        assert(html_stack(g, inner) == html_stack(g, inner.drop_last()) + bit);
        assert(html_stack(g, outer) + html_stack(g, inner.drop_last()) + bit =~= html_stack(g, outer) + (html_stack(
            g,
            inner.drop_last(),
        ) + bit));
    }
}

/// One level of indent: the vertical bar where its directory has more
/// entries to come, three non-breaking spaces where it has none, then
/// one more.
pub proof fn law_html_stack_level(g: LineDraw, more: bool)
    ensures
        html_stack(g, seq![more]) == (if more { g.vert@ } else { nbsp3() }) + nbsp(),
{
    assert(seq![more].drop_last() =~= Seq::<bool>::empty());
    assert(seq![more].last() == more);
    assert(html_stack(g, Seq::<bool>::empty()) == Seq::<u8>::empty());
    assert(html_stack(g, seq![more]) =~= (if more { g.vert@ } else { nbsp3() }) + nbsp());
}

proof fn lemma_html_seq_starts_with_indent(
    g: LineDraw,
    dirlen: nat,
    nodes: Seq<Node>,
    total: int,
    parent: Seq<u8>,
    stack: Seq<bool>,
    o: Options,
)
    requires
        nodes.len() > 0,
        !o.noindent,
    ensures
        (seq![9u8] + html_stack(g, stack)).is_prefix_of(html_seq(g, dirlen, nodes, total, parent, stack, o)),
    decreases nodes.len(),
{
    let p = seq![9u8] + html_stack(g, stack);
    if nodes.len() == 1 {
        let n = nodes.last();
        let l = nodes.len() == total;
        assert(html_seq(g, dirlen, nodes.drop_last(), total, parent, stack, o) =~= Seq::<u8>::empty());
        let t = html_node(g, dirlen, n, parent, stack, l, o);
        let ind = html_indent(g, stack, Some(l));
        assert(p =~= ind.subrange(0, p.len() as int));
        assert(ind =~= t.subrange(0, ind.len() as int));
        assert(p =~= t.subrange(0, p.len() as int));
        assert(Seq::<u8>::empty() + t =~= t);
    } else {
        lemma_html_seq_starts_with_indent(g, dirlen, nodes.drop_last(), total, parent, stack, o);
        let a = html_seq(g, dirlen, nodes.drop_last(), total, parent, stack, o);
        let b = html_node(g, dirlen, nodes.last(), parent, stack, nodes.len() == total, o);
        assert(p =~= (a + b).subrange(0, p.len() as int));
    }
}

/// Below an entry its level stays drawn: the first line listed under
/// an entry continues the enclosing levels' indent with the vertical
/// bar when the entry is not the last of its directory, and with
/// non-breaking spaces when it is.
pub proof fn law_html_indent_below_entry(
    g: LineDraw,
    dirlen: nat,
    node: Node,
    parent: Seq<u8>,
    stack: Seq<bool>,
    last: bool,
    o: Options,
)
    requires
        !o.noindent,
        node.children matches Some(c) && c@.len() > 0,
    ensures
        (html_line(g, dirlen, node, parent, stack, last, o) + seq![9u8] + html_stack(g, stack) + (if last {
            nbsp3()
        } else {
            g.vert@
        }) + nbsp()).is_prefix_of(html_node(g, dirlen, node, parent, stack, last, o)),
{
    let c = node.children.unwrap();
    let e = html_line(g, dirlen, node, parent, stack, last, o);
    let below = stack.push(!last);
    let kids = html_seq(g, dirlen, c@, c@.len() as int, joined(parent, node.name@), below, o);
    lemma_html_seq_starts_with_indent(g, dirlen, c@, c@.len() as int, joined(parent, node.name@), below, o);
    assert(below.drop_last() =~= stack);
    let next = (if last { nbsp3() } else { g.vert@ }) + nbsp();
    assert(html_stack(g, below) == html_stack(g, stack) + next);
    assert(html_node(g, dirlen, node, parent, stack, last, o) =~= e + kids);
    let p = e + seq![9u8] + html_stack(g, stack) + next;
    assert(p =~= e + (seq![9u8] + html_stack(g, below)));
    assert(p =~= (e + kids).subrange(0, p.len() as int));
}

/// An entry's line opens with a tab, the enclosing levels' indent and
/// then a corner when the entry is the last of its directory, a tee
/// when more entries follow.
pub proof fn law_html_entry_glyph(g: LineDraw, dirlen: nat, node: Node, parent: Seq<u8>, stack: Seq<bool>, last: bool, o: Options)
    requires
        !o.noindent,
    ensures
        (seq![9u8] + html_stack(g, stack) + (if last { g.corner@ } else { g.tee@ }) + nbsp()).is_prefix_of(
            html_node(g, dirlen, node, parent, stack, last, o),
        ),
{
    let p = seq![9u8] + html_stack(g, stack) + (if last { g.corner@ } else { g.tee@ }) + nbsp();
    let t = html_node(g, dirlen, node, parent, stack, last, o);
    assert(p =~= html_indent(g, stack, Some(last)));
    assert(p =~= t.subrange(0, p.len() as int));
}

/// In a directory's listing the last entry is the one drawn as last
/// (see `law_last_entry_drawn_last` for the text listing).
pub proof fn law_html_last_entry_drawn_last(
    g: LineDraw,
    dirlen: nat,
    nodes: Seq<Node>,
    parent: Seq<u8>,
    stack: Seq<bool>,
    o: Options,
    k: int,
)
    requires
        0 <= k < nodes.len(),
    ensures
        html_seq(g, dirlen, nodes.take(k + 1), nodes.len() as int, parent, stack, o) == html_seq(
            g,
            dirlen,
            nodes.take(k),
            nodes.len() as int,
            parent,
            stack,
            o,
        ) + html_node(g, dirlen, nodes[k], parent, stack, k == nodes.len() - 1, o),
{
    assert(nodes.take(k + 1).drop_last() =~= nodes.take(k));
    assert(nodes.take(k + 1).last() == nodes[k]);
}

} // verus!
