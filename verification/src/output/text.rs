//! Plain-text rendering: the classic tree lines.

use vstd::prelude::*;
use crate::digits::{decimal, octal3, push_decimal, push_octal3};
use crate::lits::{error_opening, over_limit_tail, bytes_used_in, put_error_opening, put_over_limit_tail, put_bytes_used_in};
use crate::options::Options;
use crate::output::{LineDraw, Totals};
use crate::seqs::{put_byte, cat2, cat3, cat4, cat5, cat6};
use crate::walk::{Node, Root, RootKind, append, join_path, joined};

verus! {

/// The letter that follows `\` for the control bytes 7 to 13.
pub open spec fn ctrl_letter(c: u8) -> u8 {
    if c == 7 {
        97
    } else if c == 8 {
        98
    } else if c == 9 {
        116
    } else if c == 10 {
        110
    } else if c == 11 {
        118
    } else if c == 12 {
        102
    } else {
        114
    }
}

/// What one byte of a name prints as: `\a`..`\r` for the control bytes
/// 7 to 13, `\` before a backslash, before a space (or, under -Q,
/// before a double quote); printable ASCII as itself; anything else as
/// `?` under -q, else as `\` and three octal digits.
pub open spec fn escaped_byte(c: u8, o: Options) -> Seq<u8> {
    if (7 <= c <= 13) || c == 92 || (c == 34 && o.quote) || (c == 32 && !o.quote) {
        if c > 13 {
            seq![92u8, c]
        } else {
            seq![92u8, ctrl_letter(c)]
        }
    } else if 32 <= c <= 126 {
        seq![c]
    } else if o.qmark {
        seq![63u8]
    } else {
        seq![92u8] + octal3(c)
    }
}

/// Every byte of `s` escaped.
pub open spec fn escaped(s: Seq<u8>, o: Options) -> Seq<u8>
    decreases s.len(),
{
    if s.len() == 0 {
        Seq::empty()
    } else {
        escaped(s.drop_last(), o) + escaped_byte(s.last(), o)
    }
}

/// A double quote under -Q, else nothing.
pub open spec fn quote_mark(o: Options) -> Seq<u8> {
    if o.quote {
        seq![34u8]
    } else {
        Seq::empty()
    }
}

/// How a name prints: quoted under -Q, escaped unless -N.
pub open spec fn name_text(s: Seq<u8>, o: Options) -> Seq<u8> {
    quote_mark(o) + (if o.no_escape {
        s
    } else {
        escaped(s, o)
    }) + quote_mark(o)
}

/// Three spaces: the indent of a level with no more entries.
pub open spec fn blank3() -> Seq<u8> {
    seq![32u8, 32u8, 32u8]
}

/// The indent columns of the enclosing levels: a vertical bar where
/// more entries follow at that level, blanks where none do.
pub open spec fn stack_text(g: LineDraw, stack: Seq<bool>) -> Seq<u8>
    decreases stack.len(),
{
    if stack.len() == 0 {
        Seq::empty()
    } else {
        stack_text(g, stack.drop_last()) + (if stack.last() {
            g.vert@
        } else {
            blank3()
        }) + seq![32u8]
    }
}

/// The indent before an entry: the enclosing levels, then a corner for
/// the last entry of its directory and a tee for the others.
pub open spec fn line_prefix(g: LineDraw, stack: Seq<bool>, last: bool, o: Options) -> Seq<u8> {
    if o.noindent {
        Seq::empty()
    } else {
        stack_text(g, stack) + (if last {
            g.corner@
        } else {
            g.tee@
        }) + seq![32u8]
    }
}

/// The glyph that frames comment line `idx` of `n`.
pub open spec fn comment_glyph(g: LineDraw, idx: int, n: int) -> Seq<u8> {
    if n == 1 {
        g.csingle@
    } else if idx == 0 {
        g.ctop@
    } else if idx == 1 {
        if n == 2 {
            g.cbot@
        } else {
            g.cmid@
        }
    } else if idx == n - 1 {
        g.cbot@
    } else {
        g.cext@
    }
}

/// The indent before a comment line: the enclosing levels, then a bar
/// unless the entry was the last of its directory.
pub open spec fn comment_prefix(g: LineDraw, stack: Seq<bool>, last: bool, noindent: bool) -> Seq<u8> {
    if noindent {
        Seq::empty()
    } else {
        stack_text(g, stack) + (if last {
            blank3()
        } else {
            g.vert@
        }) + seq![32u8]
    }
}

/// One --info comment line under an entry.
pub open spec fn comment_line(
    g: LineDraw,
    line: Seq<u8>,
    idx: int,
    n: int,
    stack: Seq<bool>,
    last: bool,
    noindent: bool,
) -> Seq<u8> {
    comment_prefix(g, stack, last, noindent) + comment_glyph(g, idx, n) + seq![32u8] + line + seq![10u8]
}

/// The comment lines `lines` (the first ones of `n`).
pub open spec fn comment_seq(
    g: LineDraw,
    lines: Seq<Vec<u8>>,
    n: int,
    stack: Seq<bool>,
    last: bool,
    noindent: bool,
) -> Seq<u8>
    decreases lines.len(),
{
    if lines.len() == 0 {
        Seq::empty()
    } else {
        comment_seq(g, lines.drop_last(), n, stack, last, noindent) + comment_line(
            g,
            lines.last()@,
            lines.len() - 1,
            n,
            stack,
            last,
            noindent,
        )
    }
}

/// " -> ": between a link and its target.
pub open spec fn arrow() -> Seq<u8> {
    seq![32u8, 45u8, 62u8, 32u8]
}

/// An annotation after an entry: two spaces and the text in brackets.
pub open spec fn annotation(e: Seq<u8>) -> Seq<u8> {
    seq![32u8, 32u8, 91u8] + e + seq![93u8]
}

/// An entry's own line: indent, name, link target, annotation.
pub open spec fn entry_line(g: LineDraw, node: Node, parent: Seq<u8>, stack: Seq<bool>, last: bool, o: Options) -> Seq<u8> {
    let display = if o.full_path {
        joined(parent, node.name@)
    } else {
        node.name@
    };
    line_prefix(g, stack, last, o) + name_text(display, o) + link_part(node.link, o) + note_part(node.err)
        + seq![10u8]
}

/// " -> target" for a symlink, else nothing.
pub open spec fn link_part(link: Option<Vec<u8>>, o: Options) -> Seq<u8> {
    match link {
        Some(t) => arrow() + name_text(t@, o),
        None => Seq::empty(),
    }
}

/// "  [note]" when there is a note, else nothing.
pub open spec fn note_part(note: Option<Vec<u8>>) -> Seq<u8> {
    match note {
        Some(e) => annotation(e@),
        None => Seq::empty(),
    }
}

/// One entry's line, its comment lines and everything below it.
pub open spec fn text_node(g: LineDraw, node: Node, parent: Seq<u8>, stack: Seq<bool>, last: bool, o: Options) -> Seq<u8>
    decreases node,
{
    entry_line(g, node, parent, stack, last, o) + comment_part(g, node.comment, stack, last, o.noindent)
        + children_part(g, node.children, joined(parent, node.name@), stack.push(!last), o)
}

/// The comment lines of an entry, if it has any.
pub open spec fn comment_part(g: LineDraw, comment: Option<Vec<Vec<u8>>>, stack: Seq<bool>, last: bool, noindent: bool) -> Seq<u8> {
    match comment {
        Some(lines) => comment_seq(g, lines@, lines@.len() as int, stack, last, noindent),
        None => Seq::empty(),
    }
}

/// What is listed below an entry, if anything.
pub open spec fn children_part(g: LineDraw, children: Option<Vec<Node>>, path: Seq<u8>, stack: Seq<bool>, o: Options) -> Seq<u8>
    decreases children,
{
    match children {
        Some(ch) => text_seq(g, ch@, ch@.len() as int, path, stack, o),
        None => Seq::empty(),
    }
}

/// The entries `nodes` (the first ones of `total` in one directory).
pub open spec fn text_seq(
    g: LineDraw,
    nodes: Seq<Node>,
    total: int,
    parent: Seq<u8>,
    stack: Seq<bool>,
    o: Options,
) -> Seq<u8>
    decreases nodes,
{
    if nodes.len() == 0 {
        Seq::empty()
    } else {
        text_seq(g, nodes.drop_last(), total, parent, stack, o) + text_node(
            g,
            nodes.last(),
            parent,
            stack,
            nodes.len() == total,
            o,
        )
    }
}

/// The annotation of a root that was not listed.
pub open spec fn root_note(kind: RootKind) -> Seq<u8> {
    match kind {
        RootKind::Missing => annotation(error_opening()),
        RootKind::Unreadable => annotation(error_opening()),
        RootKind::OverLimit(n) => annotation(over_limit_text(n as nat)),
        RootKind::Opened(_) => Seq::empty(),
    }
}



/// "N entries exceeds filelimit, not opening dir"
pub open spec fn over_limit_text(n: nat) -> Seq<u8> {
    decimal(n) + over_limit_tail()
}

/// A root's line and everything listed below it.
pub open spec fn text_root(g: LineDraw, root: Root, o: Options) -> Seq<u8> {
    name_text(root.name@, o) + root_note(root.kind) + seq![10u8] + text_listing(g, root, o)
}

/// What is listed below a root.
pub open spec fn text_listing(g: LineDraw, root: Root, o: Options) -> Seq<u8> {
    match root.kind {
        RootKind::Opened(ch) => text_seq(g, ch@, ch@.len() as int, root.name@, Seq::empty(), o),
        _ => Seq::empty(),
    }
}

/// "director" followed by "y" for one, "ies" otherwise.
pub open spec fn directories_word(n: nat) -> Seq<u8> {
    seq![100u8, 105, 114, 101, 99, 116, 111, 114] + if n == 1 {
        seq![121u8]
    } else {
        seq![105u8, 101, 115]
    }
}

/// "file" followed by "s" unless one.
pub open spec fn files_word(n: nat) -> Seq<u8> {
    seq![102u8, 105, 108, 101] + if n == 1 {
        Seq::empty()
    } else {
        seq![115u8]
    }
}


/// ", F files", unless -d.
pub open spec fn files_part(t: Totals, o: Options) -> Seq<u8> {
    if o.dirs_only {
        Seq::empty()
    } else {
        seq![44u8, 32u8] + decimal(t.files as nat) + seq![32u8] + files_word(t.files as nat)
    }
}

/// The counts line: "D directories, F files" (directories only under -d).
pub open spec fn counts_line(t: Totals, o: Options) -> Seq<u8> {
    decimal(t.dirs as nat) + seq![32u8] + directories_word(t.dirs as nat) + files_part(t, o) + seq![10u8]
}

/// Under --du, the rendered size and " bytes used in ".
pub open spec fn du_part(o: Options, du_size: Seq<u8>) -> Seq<u8> {
    if o.du {
        du_size + bytes_used_in()
    } else {
        Seq::empty()
    }
}

/// The text report: a blank line, under --du the rendered size and
/// " bytes used in ", then the counts line.
pub open spec fn text_report(t: Totals, o: Options, du_size: Seq<u8>) -> Seq<u8> {
    seq![10u8] + du_part(o, du_size) + counts_line(t, o)
}

fn ctrl_char(c: u8) -> (r: u8)
    requires
        7 <= c <= 13,
    ensures
        r == ctrl_letter(c),
{
    if c == 7 {
        97
    } else if c == 8 {
        98
    } else if c == 9 {
        116
    } else if c == 10 {
        110
    } else if c == 11 {
        118
    } else if c == 12 {
        102
    } else {
        114
    }
}

/// Writes a name as a listing shows it in a single-byte locale,
/// honoring -N, -Q and -q.
pub fn write_name(out: &mut Vec<u8>, bytes: &[u8], opts: &Options)
    ensures
        final(out)@ == old(out)@ + name_text(bytes@, *opts),
{
    if opts.no_escape {
        if opts.quote {
            put_byte(out, 34u8);
        }
        append(out, bytes);
        if opts.quote {
            put_byte(out, 34u8);
        }
        assert(final(out)@ =~= old(out)@ + name_text(bytes@, *opts));
        return ;
    }
    if opts.quote {
        put_byte(out, 34u8);
    }
    let ghost start = out@;
    let mut i: usize = 0;
    while i < bytes.len()
        invariant
            i <= bytes@.len(),
            out@ == start + escaped(bytes@.take(i as int), *opts),
        decreases bytes@.len() - i,
    {
        let byte = bytes[i];
        if (7u8 <= byte && byte <= 13u8) || byte == 92u8 || (byte == 34u8 && opts.quote) || (byte
            == 32u8 && !opts.quote) {
            put_byte(out, 92u8);
            if byte > 13u8 {
                put_byte(out, byte);
            } else {
                put_byte(out, ctrl_char(byte));
            }
        } else if 32u8 <= byte && byte <= 126u8 {
            put_byte(out, byte);
        } else if opts.qmark {
            put_byte(out, 63u8);
        } else {
            put_byte(out, 92u8);
            push_octal3(out, byte);
        }
        proof {
            assert(bytes@.take(i + 1).drop_last() =~= bytes@.take(i as int));
            assert(bytes@.take(i + 1).last() == byte);
        }
        i += 1;
        assert(out@ =~= start + escaped(bytes@.take(i as int), *opts));
    }
    assert(bytes@.take(bytes@.len() as int) =~= bytes@);
    if opts.quote {
        put_byte(out, 34u8);
    }
    assert(final(out)@ =~= old(out)@ + name_text(bytes@, *opts));
}

pub struct TextFormatter {
    glyphs: LineDraw,
}

impl TextFormatter {
    /// A text formatter drawing with `glyphs`.
    pub fn new(glyphs: LineDraw) -> (f: Self)
        ensures
            f.glyph_set() == glyphs,
    {
        TextFormatter { glyphs }
    }

    /// The glyphs this formatter draws with.
    pub closed spec fn glyph_set(&self) -> LineDraw {
        self.glyphs
    }

    fn write_stack(&self, out: &mut Vec<u8>, stack: &[bool])
        ensures
            final(out)@ == old(out)@ + stack_text(self.glyph_set(), stack@),
    {
        let ghost start = out@;
        let mut i: usize = 0;
        while i < stack.len()
            invariant
                i <= stack@.len(),
                out@ == start + stack_text(self.glyph_set(), stack@.take(i as int)),
            decreases stack@.len() - i,
        {
            if stack[i] {
                append(out, self.glyphs.vert.as_slice());
            } else {
                put_byte(out, 32u8);
                put_byte(out, 32u8);
                put_byte(out, 32u8);
            }
            put_byte(out, 32u8);
            proof {
                assert(stack@.take(i + 1).drop_last() =~= stack@.take(i as int));
            }
            i += 1;
            assert(out@ =~= start + stack_text(self.glyph_set(), stack@.take(i as int)));
        }
        assert(stack@.take(stack@.len() as int) =~= stack@);
    }

    fn write_comment_prefix(&self, out: &mut Vec<u8>, stack: &[bool], last: bool, noindent: bool)
        ensures
            final(out)@ == old(out)@ + comment_prefix(self.glyph_set(), stack@, last, noindent),
    {
        if !noindent {
            self.write_stack(out, stack);
            if last {
                put_byte(out, 32u8);
                put_byte(out, 32u8);
                put_byte(out, 32u8);
            } else {
                append(out, self.glyphs.vert.as_slice());
            }
            put_byte(out, 32u8);
        }
        assert(final(out)@ =~= old(out)@ + comment_prefix(self.glyph_set(), stack@, last, noindent));
    }

    fn comment_glyph_of(&self, index: usize, n: usize) -> (r: &Vec<u8>)
        requires
            index < n,
        ensures
            r@ == comment_glyph(self.glyph_set(), index as int, n as int),
    {
        if n == 1 {
            &self.glyphs.csingle
        } else if index == 0 {
            &self.glyphs.ctop
        } else if index == 1 {
            if n == 2 {
                &self.glyphs.cbot
            } else {
                &self.glyphs.cmid
            }
        } else if index == n - 1 {
            &self.glyphs.cbot
        } else {
            &self.glyphs.cext
        }
    }

    fn write_comment_line(
        &self,
        out: &mut Vec<u8>,
        line: &[u8],
        index: usize,
        n: usize,
        stack: &[bool],
        last: bool,
        noindent: bool,
    )
        requires
            index < n,
        ensures
            final(out)@ == old(out)@ + comment_line(
                self.glyph_set(),
                line@,
                index as int,
                n as int,
                stack@,
                last,
                noindent,
            ),
    {
        let ghost o0 = out@;
        let ghost pa = comment_prefix(self.glyph_set(), stack@, last, noindent);
        let ghost pb = comment_glyph(self.glyph_set(), index as int, n as int);
        self.write_comment_prefix(out, stack, last, noindent);
        let glyph = self.comment_glyph_of(index, n);
        append(out, glyph.as_slice());
        put_byte(out, 32u8);
        append(out, line);
        put_byte(out, 10u8);
        proof {
            cat5(o0, pa, pb, seq![32u8], line@, seq![10u8]);
        }
    }

    fn write_prefix(&self, out: &mut Vec<u8>, stack: &[bool], last: bool, opts: &Options)
        ensures
            final(out)@ == old(out)@ + line_prefix(self.glyph_set(), stack@, last, *opts),
    {
        let ghost o0 = out@;
        if !opts.noindent {
            self.write_stack(out, stack);
            if last {
                append(out, self.glyphs.corner.as_slice());
            } else {
                append(out, self.glyphs.tee.as_slice());
            }
            put_byte(out, 32u8);
            proof {
                let g = self.glyph_set();
                cat3(o0, stack_text(g, stack@), if last { g.corner@ } else { g.tee@ }, seq![32u8]);
            }
        } else {
            assert(out@ =~= o0 + line_prefix(self.glyph_set(), stack@, last, *opts));
        }
    }

    #[verifier::spinoff_prover]
    #[verifier::rlimit(40)]
    fn write_entry_line(&self, out: &mut Vec<u8>, node: &Node, parent_path: &[u8], stack: &[bool], last: bool, opts: &Options)
        ensures
            final(out)@ == old(out)@ + entry_line(self.glyph_set(), *node, parent_path@, stack@, last, *opts),
    {
        let ghost o0 = out@;
        let ghost g = self.glyph_set();
        let ghost display = if opts.full_path {
            joined(parent_path@, node.name@)
        } else {
            node.name@
        };
        let ghost pa = line_prefix(g, stack@, last, *opts);
        let ghost pb = name_text(display, *opts);
        let ghost pc = link_part(node.link, *opts);
        let ghost pd = note_part(node.err);
        self.write_prefix(out, stack, last, opts);
        let ghost o1 = out@;
        if opts.full_path {
            let full = join_path(parent_path, node.name.as_slice());
            write_name(out, full.as_slice(), opts);
        } else {
            write_name(out, node.name.as_slice(), opts);
        }
        let ghost o2 = out@;
        write_link(out, &node.link, opts);
        let ghost o3 = out@;
        write_note_bytes(out, &node.err);
        let ghost o4 = out@;
        put_byte(out, 10u8);
        proof {
            assert(o1 == o0 + pa);
            assert(o2 == o1 + pb);
            assert(o3 == o2 + pc);
            assert(o4 == o3 + pd);
            assert(entry_line(g, *node, parent_path@, stack@, last, *opts) == pa + pb + pc + pd + seq![10u8]);
            cat5(o0, pa, pb, pc, pd, seq![10u8]);
        }
    }

    /// --info comment lines under an entry.
    fn emit_comment(&self, out: &mut Vec<u8>, lines: &[Vec<u8>], stack: &[bool], last: bool, noindent: bool)
        ensures
            final(out)@ == old(out)@ + comment_seq(
                self.glyph_set(),
                lines@,
                lines@.len() as int,
                stack@,
                last,
                noindent,
            ),
    {
        let ghost start = out@;
        let ghost g = self.glyph_set();
        let n = lines.len();
        let mut index: usize = 0;
        while index < n
            invariant
                n == lines@.len(),
                index <= n,
                g == self.glyph_set(),
                out@ == start + comment_seq(g, lines@.take(index as int), n as int, stack@, last, noindent),
            decreases n - index,
        {
            self.write_comment_line(out, lines[index].as_slice(), index, n, stack, last, noindent);
            proof {
                assert(lines@.take(index + 1).drop_last() =~= lines@.take(index as int));
                assert(lines@.take(index + 1).last() == lines@[index as int]);
            }
            index += 1;
        }
        assert(lines@.take(n as int) =~= lines@);
    }

    /// One entry: its line, its comment lines and, one level deeper,
    /// everything listed below it.
    #[verifier::spinoff_prover]
    #[verifier::rlimit(40)]
    fn emit_node(&self, out: &mut Vec<u8>, node: &Node, parent_path: &[u8], stack: &mut Vec<bool>, last: bool, opts: &Options)
        ensures
            final(out)@ == old(out)@ + text_node(self.glyph_set(), *node, parent_path@, old(stack)@, last, *opts),
            final(stack)@ == old(stack)@,
        decreases *node, 0int,
    {
        let ghost g = self.glyph_set();
        let ghost st = stack@;
        let ghost before = out@;
        let ghost pa = entry_line(g, *node, parent_path@, st, last, *opts);
        let ghost pb = comment_part(g, node.comment, st, last, opts.noindent);
        let ghost pc = children_part(g, node.children, joined(parent_path@, node.name@), st.push(!last), *opts);
        self.write_entry_line(out, node, parent_path, stack.as_slice(), last, opts);
        let ghost after_line = out@;
        if let Some(comment) = &node.comment {
            self.emit_comment(out, comment.as_slice(), stack.as_slice(), last, opts.noindent);
        }
        let ghost after_comment = out@;
        if let Some(children) = &node.children {
            stack.push(!last);
            let child_parent = join_path(parent_path, node.name.as_slice());
            self.emit_children(out, children.as_slice(), child_parent.as_slice(), stack, opts);
            stack.pop();
            assert(stack@ =~= st);
        } else {
            assert(pc == Seq::<u8>::empty());
        }
        proof {
            assert(after_line == before + pa);
            assert(after_comment == after_line + pb);
            assert(out@ == after_comment + pc);
            cat3(before, pa, pb, pc);
        }
    }

    /// The entries of one directory, their comment lines and, below
    /// each, its own entries one level deeper.
    #[verifier::spinoff_prover]
    fn emit_children(&self, out: &mut Vec<u8>, nodes: &[Node], parent_path: &[u8], stack: &mut Vec<bool>, opts: &Options)
        ensures
            final(out)@ == old(out)@ + text_seq(
                self.glyph_set(),
                nodes@,
                nodes@.len() as int,
                parent_path@,
                old(stack)@,
                *opts,
            ),
            final(stack)@ == old(stack)@,
        decreases nodes@, 1int,
    {
        let ghost start = out@;
        let ghost g = self.glyph_set();
        let ghost st = stack@;
        let n = nodes.len();
        let mut index: usize = 0;
        while index < n
            invariant
                n == nodes@.len(),
                index <= n,
                g == self.glyph_set(),
                stack@ == st,
                out@ == start + text_seq(g, nodes@.take(index as int), n as int, parent_path@, st, *opts),
            decreases n - index,
        {
            let ghost before = out@;
            let node = &nodes[index];
            let last = index + 1 == n;
            assert(decreases_to!(nodes@ => *node));
            self.emit_node(out, node, parent_path, stack, last, opts);
            proof {
                assert(nodes@.take(index + 1).drop_last() =~= nodes@.take(index as int));
                assert(nodes@.take(index + 1).last() == nodes@[index as int]);
                cat2(start, text_seq(g, nodes@.take(index as int), n as int, parent_path@, st, *opts), text_node(g, nodes@[index as int], parent_path@, st, last, *opts));
            }
            index += 1;
        }
        assert(nodes@.take(n as int) =~= nodes@);
    }

    /// A root's line (its name and, when it was not listed, why) and
    /// everything listed below it.
    pub fn emit_root(&self, out: &mut Vec<u8>, root: &Root, opts: &Options)
        ensures
            final(out)@ == old(out)@ + text_root(self.glyph_set(), *root, *opts),
    {
        let ghost o0 = out@;
        write_name(out, root.name.as_slice(), opts);
        write_root_note(out, &root.kind);
        put_byte(out, 10u8);
        let ghost o3 = out@;
        if let RootKind::Opened(children) = &root.kind {
            let mut stack: Vec<bool> = Vec::new();
            assert(stack@ =~= Seq::<bool>::empty());
            self.emit_children(out, children.as_slice(), root.name.as_slice(), &mut stack, opts);
        } else {
            assert(out@ =~= o3 + text_listing(self.glyph_set(), *root, *opts));
        }
        proof {
            cat4(o0, name_text(root.name@, *opts), root_note(root.kind), seq![10u8], text_listing(self.glyph_set(), *root, *opts));
        }
    }

    /// The closing report. `du_size` is the total size as the size
    /// column renders it; it is printed only under --du.
    pub fn emit_report(&self, out: &mut Vec<u8>, totals: &Totals, opts: &Options, du_size: &[u8])
        ensures
            final(out)@ == old(out)@ + text_report(*totals, *opts, du_size@),
    {
        let ghost o0 = out@;
        put_byte(out, 10u8);
        let ghost o1 = out@;
        if opts.du {
            append(out, du_size);
            put_bytes_used_in(out);
            proof {
                cat2(o1, du_size@, bytes_used_in());
            }
        } else {
            assert(out@ =~= o1 + du_part(*opts, du_size@));
        }
        write_counts(out, totals, opts);
        proof {
            cat3(o0, seq![10u8], du_part(*opts, du_size@), counts_line(*totals, *opts));
        }
    }
}

/// Appends "N entries exceeds filelimit, not opening dir".
pub fn write_over_limit(out: &mut Vec<u8>, n: usize)
    ensures
        final(out)@ == old(out)@ + over_limit_text(n as nat),
{
    push_decimal(out, n as u64);
    put_over_limit_tail(out);
    assert(final(out)@ =~= old(out)@ + over_limit_text(n as nat));
}


/// Appends the counts line of the report.
pub fn write_counts(out: &mut Vec<u8>, totals: &Totals, opts: &Options)
    ensures
        final(out)@ == old(out)@ + counts_line(*totals, *opts),
{
    let ghost o0 = out@;
    push_decimal(out, totals.dirs);
    put_byte(out, 32u8);
    write_directories_word(out, totals.dirs);
    write_files_part(out, totals, opts);
    put_byte(out, 10u8);
    proof {
        cat5(o0, decimal(totals.dirs as nat), seq![32u8], directories_word(totals.dirs as nat), files_part(*totals, *opts), seq![10u8]);
    }
}

fn write_directories_word(out: &mut Vec<u8>, n: u64)
    ensures
        final(out)@ == old(out)@ + directories_word(n as nat),
{
    let s: [u8; 8] = [100, 105, 114, 101, 99, 116, 111, 114];
    append(out, &s);
    if n == 1 {
        out.push(121u8);
    } else {
        out.push(105u8);
        out.push(101u8);
        out.push(115u8);
    }
    assert(final(out)@ =~= old(out)@ + directories_word(n as nat));
}

fn write_files_part(out: &mut Vec<u8>, totals: &Totals, opts: &Options)
    ensures
        final(out)@ == old(out)@ + files_part(*totals, *opts),
{
    if !opts.dirs_only {
        let ghost o0 = out@;
        put_byte(out, 44u8);
        put_byte(out, 32u8);
        push_decimal(out, totals.files);
        put_byte(out, 32u8);
        let f: [u8; 4] = [102, 105, 108, 101];
        append(out, &f);
        let ghost o5 = out@;
        if totals.files != 1 {
            out.push(115u8);
        }
        assert(out@ =~= o5 + if totals.files == 1 { Seq::<u8>::empty() } else { seq![115u8] });
        proof {
            cat6(o0, seq![44u8], seq![32u8], decimal(totals.files as nat), seq![32u8], f@, if totals.files == 1 { Seq::<u8>::empty() } else { seq![115u8] });
            assert(f@ =~= seq![102u8, 105, 108, 101]);
            assert(seq![44u8] + seq![32u8] + decimal(totals.files as nat) + seq![32u8] + f@ + (if totals.files == 1 { Seq::<u8>::empty() } else { seq![115u8] }) =~= files_part(*totals, *opts));
        }
    } else {
        assert(out@ =~= old(out)@ + files_part(*totals, *opts));
    }
}


/// Appends " -> " and the target's name, for a symlink.
fn write_link(out: &mut Vec<u8>, link: &Option<Vec<u8>>, opts: &Options)
    ensures
        final(out)@ == old(out)@ + link_part(*link, *opts),
{
    if let Some(target) = link {
        put_byte(out, 32u8);
        put_byte(out, 45u8);
        put_byte(out, 62u8);
        put_byte(out, 32u8);
        let ghost mid = out@;
        write_name(out, target.as_slice(), opts);
        assert(final(out)@ =~= old(out)@ + (arrow() + name_text(target@, *opts)));
    } else {
        assert(final(out)@ =~= old(out)@ + Seq::<u8>::empty());
    }
}

/// Appends "  [note]" when there is a note.
pub fn write_note_bytes(out: &mut Vec<u8>, note: &Option<Vec<u8>>)
    ensures
        final(out)@ == old(out)@ + note_part(*note),
{
    if let Some(err) = note {
        put_byte(out, 32u8);
        put_byte(out, 32u8);
        put_byte(out, 91u8);
        append(out, err.as_slice());
        put_byte(out, 93u8);
        assert(final(out)@ =~= old(out)@ + annotation(err@));
    } else {
        assert(final(out)@ =~= old(out)@ + Seq::<u8>::empty());
    }
}

/// Appends the annotation of a root that was not listed.
pub fn write_root_note(out: &mut Vec<u8>, kind: &RootKind)
    ensures
        final(out)@ == old(out)@ + root_note(*kind),
{
    match kind {
        RootKind::Missing | RootKind::Unreadable => {
            put_byte(out, 32u8);
            put_byte(out, 32u8);
            put_byte(out, 91u8);
            put_error_opening(out);
            put_byte(out, 93u8);
            assert(out@ =~= old(out)@ + root_note(*kind));
        },
        RootKind::OverLimit(entries) => {
            put_byte(out, 32u8);
            put_byte(out, 32u8);
            put_byte(out, 91u8);
            write_over_limit(out, *entries);
            put_byte(out, 93u8);
            assert(out@ =~= old(out)@ + root_note(*kind));
        },
        RootKind::Opened(_) => {
            assert(out@ =~= old(out)@ + root_note(*kind));
        },
    }
}
} // verus!
