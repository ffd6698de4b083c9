//! How the text listing relates to the report under it.

use vstd::prelude::*;
use crate::digits::decimal;
use crate::options::Options;
use crate::output::LineDraw;
use crate::output::encoding_laws::law_name_text_printable;
use crate::output::text::{
    children_part, comment_part, entry_line, line_prefix, link_part, name_text, note_part, root_note,
    stack_text, text_listing, text_node, text_root, text_seq, arrow, blank3,
};
use crate::walk::{Node, Root, RootKind, dirs_in, files_in, joined, node_dirs, node_files};

verus! {

/// The number of line ends in `s`.
pub open spec fn newlines(s: Seq<u8>) -> nat
    decreases s.len(),
{
    if s.len() == 0 {
        0
    } else {
        newlines(s.drop_last()) + if s.last() == 10 {
            1nat
        } else {
            0nat
        }
    }
}

/// `s` holds no line end.
pub open spec fn one_line(s: Seq<u8>) -> bool {
    forall|i: int| 0 <= i < s.len() ==> #[trigger] s[i] != 10
}

/// Entries without --info comments whose notes hold no line end, at
/// every level.
pub open spec fn plain_entries(nodes: Seq<Node>) -> bool
    decreases nodes,
{
    if nodes.len() == 0 {
        true
    } else {
        plain_entries(nodes.drop_last()) && plain_entry(nodes.last())
    }
}

/// See `plain_entries`.
pub open spec fn plain_entry(n: Node) -> bool
    decreases n,
{
    &&& n.comment is None
    &&& n.err matches Some(e) ==> one_line(e@)
    &&& match n.children {
        Some(c) => plain_entries(c@),
        None => true,
    }
}

proof fn lemma_newlines_concat(a: Seq<u8>, b: Seq<u8>)
    ensures
        newlines(a + b) == newlines(a) + newlines(b),
    decreases b.len(),
{
    if b.len() == 0 {
        assert(a + b =~= a);
    } else {
        lemma_newlines_concat(a, b.drop_last());
        assert((a + b).drop_last() =~= a + b.drop_last());
    }
}

proof fn lemma_line_end()
    ensures
        newlines(seq![10u8]) == 1,
{
    let s = seq![10u8];
    assert(s.drop_last() =~= Seq::<u8>::empty());
    assert(newlines(s.drop_last()) == 0);
    assert(s.last() == 10);
}

proof fn lemma_one_line(s: Seq<u8>)
    requires
        one_line(s),
    ensures
        newlines(s) == 0,
    decreases s.len(),
{
    if s.len() > 0 {
        lemma_one_line(s.drop_last());
    }
}

proof fn lemma_one_line_concat(a: Seq<u8>, b: Seq<u8>)
    requires
        one_line(a),
        one_line(b),
    ensures
        one_line(a + b),
{
    assert forall|i: int| 0 <= i < (a + b).len() implies #[trigger] (a + b)[i] != 10 by {
        if i >= a.len() {
            assert((a + b)[i] == b[i - a.len()]);
        }
    }
}

proof fn lemma_decimal_one_line(n: nat)
    ensures
        one_line(decimal(n)),
    decreases n,
{
    if n >= 10 {
        lemma_decimal_one_line(n / 10);
        assert forall|i: int| 0 <= i < decimal(n).len() implies #[trigger] decimal(n)[i] != 10 by {
            if i < decimal(n / 10).len() {
                assert(decimal(n)[i] == decimal(n / 10)[i]);
            }
        }
    }
}

proof fn lemma_name_one_line(s: Seq<u8>, o: Options)
    requires
        !o.no_escape,
    ensures
        one_line(name_text(s, o)),
{
    law_name_text_printable(s, o);
}

proof fn lemma_stack_one_line(g: LineDraw, stack: Seq<bool>)
    requires
        one_line(g.vert@),
    ensures
        one_line(stack_text(g, stack)),
    decreases stack.len(),
{
    if stack.len() > 0 {
        lemma_stack_one_line(g, stack.drop_last());
        let part = if stack.last() {
            g.vert@
        } else {
            blank3()
        };
        lemma_one_line_concat(stack_text(g, stack.drop_last()), part);
        lemma_one_line_concat(stack_text(g, stack.drop_last()) + part, seq![32u8]);
    }
}

proof fn lemma_entry_line(g: LineDraw, node: Node, parent: Seq<u8>, stack: Seq<bool>, last: bool, o: Options)
    requires
        !o.no_escape,
        one_line(g.vert@),
        one_line(g.tee@),
        one_line(g.corner@),
        node.err matches Some(e) ==> one_line(e@),
    ensures
        newlines(entry_line(g, node, parent, stack, last, o)) == 1,
{
    let display = if o.full_path {
        joined(parent, node.name@)
    } else {
        node.name@
    };
    let pre = line_prefix(g, stack, last, o);
    let nm = name_text(display, o);
    let lk = link_part(node.link, o);
    let nt = note_part(node.err);
    lemma_stack_one_line(g, stack);
    if !o.noindent {
        let glyph = if last {
            g.corner@
        } else {
            g.tee@
        };
        lemma_one_line_concat(stack_text(g, stack), glyph);
        lemma_one_line_concat(stack_text(g, stack) + glyph, seq![32u8]);
    }
    lemma_name_one_line(display, o);
    match node.link {
        Some(t) => {
            lemma_name_one_line(t@, o);
            lemma_one_line_concat(arrow(), name_text(t@, o));
        },
        None => {},
    }
    match node.err {
        Some(e) => {
            lemma_one_line_concat(seq![32u8, 32u8, 91u8], e@);
            lemma_one_line_concat(seq![32u8, 32u8, 91u8] + e@, seq![93u8]);
        },
        None => {},
    }
    lemma_one_line_concat(pre, nm);
    lemma_one_line_concat(pre + nm, lk);
    lemma_one_line_concat(pre + nm + lk, nt);
    lemma_one_line(pre + nm + lk + nt);
    lemma_newlines_concat(pre + nm + lk + nt, seq![10u8]);
    lemma_line_end();
}

proof fn lemma_text_seq(g: LineDraw, nodes: Seq<Node>, total: int, parent: Seq<u8>, stack: Seq<bool>, o: Options)
    requires
        !o.no_escape,
        one_line(g.vert@),
        one_line(g.tee@),
        one_line(g.corner@),
        plain_entries(nodes),
    ensures
        newlines(text_seq(g, nodes, total, parent, stack, o)) == dirs_in(nodes) + files_in(nodes),
    decreases nodes,
{
    if nodes.len() > 0 {
        lemma_text_seq(g, nodes.drop_last(), total, parent, stack, o);
        lemma_text_node(g, nodes.last(), parent, stack, nodes.len() == total, o);
        lemma_newlines_concat(
            text_seq(g, nodes.drop_last(), total, parent, stack, o),
            text_node(g, nodes.last(), parent, stack, nodes.len() == total, o),
        );
    }
}

proof fn lemma_text_node(g: LineDraw, node: Node, parent: Seq<u8>, stack: Seq<bool>, last: bool, o: Options)
    requires
        !o.no_escape,
        one_line(g.vert@),
        one_line(g.tee@),
        one_line(g.corner@),
        plain_entry(node),
    ensures
        newlines(text_node(g, node, parent, stack, last, o)) == node_dirs(node) + node_files(node),
    decreases node,
{
    lemma_entry_line(g, node, parent, stack, last, o);
    let line = entry_line(g, node, parent, stack, last, o);
    let below = children_part(g, node.children, joined(parent, node.name@), stack.push(!last), o);
    assert(comment_part(g, node.comment, stack, last, o.noindent) == Seq::<u8>::empty());
    assert(line + Seq::<u8>::empty() =~= line);
    match node.children {
        Some(c) => {
            assert(decreases_to!(node => c));
            lemma_text_seq(g, c@, c@.len() as int, joined(parent, node.name@), stack.push(!last), o);
        },
        None => {
            assert(newlines(below) == 0);
        },
    }
    lemma_newlines_concat(line, below);
}

/// One line per entry: unless -N, the text listing of a root has its own
/// line and then exactly one line for every entry the report counts
/// below it (directories and files), when the glyphs and annotations
/// hold no line end and no entry carries --info comments.
pub proof fn law_one_line_per_entry(g: LineDraw, root: Root, o: Options)
    requires
        !o.no_escape,
        one_line(g.vert@),
        one_line(g.tee@),
        one_line(g.corner@),
        root.kind matches RootKind::Opened(c) ==> plain_entries(c@),
    ensures
        newlines(text_root(g, root, o)) == 1 + match root.kind {
            RootKind::Opened(c) => dirs_in(c@) + files_in(c@),
            _ => 0,
        },
{
    let head = name_text(root.name@, o) + root_note(root.kind);
    lemma_name_one_line(root.name@, o);
    match root.kind {
        RootKind::OverLimit(n) => {
            lemma_decimal_one_line(n as nat);
            lemma_one_line_concat(decimal(n as nat), crate::lits::over_limit_tail());
            lemma_one_line_concat(seq![32u8, 32u8, 91u8], decimal(n as nat) + crate::lits::over_limit_tail());
            lemma_one_line_concat(seq![32u8, 32u8, 91u8] + (decimal(n as nat) + crate::lits::over_limit_tail()), seq![93u8]);
        },
        RootKind::Opened(_) => {
            assert(root_note(root.kind) == Seq::<u8>::empty());
        },
        _ => {
            lemma_one_line_concat(seq![32u8, 32u8, 91u8], crate::lits::error_opening());
            lemma_one_line_concat(seq![32u8, 32u8, 91u8] + crate::lits::error_opening(), seq![93u8]);
        },
    }
    lemma_one_line_concat(name_text(root.name@, o), root_note(root.kind));
    lemma_one_line(head);
    lemma_newlines_concat(head, seq![10u8]);
    lemma_line_end();
    match root.kind {
        RootKind::Opened(c) => {
            lemma_text_seq(g, c@, c@.len() as int, root.name@, Seq::empty(), o);
        },
        _ => {
            assert(text_listing(g, root, o) == Seq::<u8>::empty());
        },
    }
    lemma_newlines_concat(head + seq![10u8], text_listing(g, root, o));
}

/// The indent of nested levels is built level by level: that of the
/// outer levels, then that of the inner ones.
pub proof fn law_stack_text_concat(g: LineDraw, outer: Seq<bool>, inner: Seq<bool>)
    ensures
        stack_text(g, outer + inner) == stack_text(g, outer) + stack_text(g, inner),
    decreases inner.len(),
{
    if inner.len() == 0 {
        assert(outer + inner =~= outer);
        assert(stack_text(g, outer) + stack_text(g, inner) =~= stack_text(g, outer));
    } else {
        assert((outer + inner).drop_last() =~= outer + inner.drop_last());
        assert((outer + inner).last() == inner.last());
        law_stack_text_concat(g, outer, inner.drop_last());
        let bit = (if inner.last() { g.vert@ } else { blank3() }) + seq![32u8];
        assert(stack_text(g, outer + inner) == stack_text(g, outer + inner.drop_last()) + bit);
        assert(stack_text(g, inner) == stack_text(g, inner.drop_last()) + bit);
        assert(stack_text(g, outer) + stack_text(g, inner.drop_last()) + bit =~= stack_text(g, outer) + (stack_text(
            g,
            inner.drop_last(),
        ) + bit));
    }
}

/// One level of indent: the vertical bar where its directory has more
/// entries to come, three blanks where it has none, then a space.
pub proof fn law_stack_text_level(g: LineDraw, more: bool)
    ensures
        stack_text(g, seq![more]) == (if more { g.vert@ } else { blank3() }) + seq![32u8],
{
    assert(seq![more].drop_last() =~= Seq::<bool>::empty());
    assert(seq![more].last() == more);
    assert(stack_text(g, Seq::<bool>::empty()) == Seq::<u8>::empty());
    assert(stack_text(g, seq![more]) =~= (if more { g.vert@ } else { blank3() }) + seq![32u8]);
}

proof fn lemma_prefix_extend(p: Seq<u8>, s: Seq<u8>, t: Seq<u8>)
    requires
        p.is_prefix_of(s),
    ensures
        p.is_prefix_of(s + t),
{
    assert(p =~= (s + t).subrange(0, p.len() as int));
}

proof fn lemma_seq_starts_with_indent(g: LineDraw, nodes: Seq<Node>, total: int, parent: Seq<u8>, stack: Seq<bool>, o: Options)
    requires
        nodes.len() > 0,
        !o.noindent,
    ensures
        stack_text(g, stack).is_prefix_of(text_seq(g, nodes, total, parent, stack, o)),
    decreases nodes.len(),
{
    if nodes.len() == 1 {
        let n = nodes.last();
        let l = nodes.len() == total;
        assert(text_seq(g, nodes.drop_last(), total, parent, stack, o) =~= Seq::<u8>::empty());
        let t = text_node(g, n, parent, stack, l, o);
        assert(t == entry_line(g, n, parent, stack, l, o) + comment_part(g, n.comment, stack, l, o.noindent)
            + children_part(g, n.children, joined(parent, n.name@), stack.push(!l), o));
        assert(stack_text(g, stack) =~= t.subrange(0, stack_text(g, stack).len() as int));
        assert(Seq::<u8>::empty() + t =~= t);
    } else {
        lemma_seq_starts_with_indent(g, nodes.drop_last(), total, parent, stack, o);
        lemma_prefix_extend(
            stack_text(g, stack),
            text_seq(g, nodes.drop_last(), total, parent, stack, o),
            text_node(g, nodes.last(), parent, stack, nodes.len() == total, o),
        );
    }
}

/// Below an entry its level stays drawn: the first line listed under
/// an entry (without --info comments) continues the enclosing levels'
/// indent with the vertical bar when the entry is not the last of its
/// directory, and with blanks when it is.
pub proof fn law_indent_below_entry(g: LineDraw, node: Node, parent: Seq<u8>, stack: Seq<bool>, last: bool, o: Options)
    requires
        !o.noindent,
        node.comment is None,
        node.children matches Some(c) && c@.len() > 0,
    ensures
        (entry_line(g, node, parent, stack, last, o) + stack_text(g, stack) + (if last {
            blank3()
        } else {
            g.vert@
        }) + seq![32u8]).is_prefix_of(text_node(g, node, parent, stack, last, o)),
{
    let c = node.children.unwrap();
    let e = entry_line(g, node, parent, stack, last, o);
    let below = stack.push(!last);
    let kids = text_seq(g, c@, c@.len() as int, joined(parent, node.name@), below, o);
    lemma_seq_starts_with_indent(g, c@, c@.len() as int, joined(parent, node.name@), below, o);
    assert(below.drop_last() =~= stack);
    let next = (if last { blank3() } else { g.vert@ }) + seq![32u8];
    assert(stack_text(g, below) == stack_text(g, stack) + next);
    assert(comment_part(g, node.comment, stack, last, o.noindent) =~= Seq::<u8>::empty());
    assert(text_node(g, node, parent, stack, last, o) =~= e + kids);
    let p = e + stack_text(g, stack) + next;
    assert(p =~= e + stack_text(g, below));
    assert(p =~= (e + kids).subrange(0, p.len() as int));
}

/// An entry's line opens with the enclosing levels' indent and then a
/// corner when the entry is the last of its directory, a tee when more
/// entries follow.
pub proof fn law_entry_glyph(g: LineDraw, node: Node, parent: Seq<u8>, stack: Seq<bool>, last: bool, o: Options)
    requires
        !o.noindent,
    ensures
        (stack_text(g, stack) + (if last { g.corner@ } else { g.tee@ }) + seq![32u8]).is_prefix_of(
            text_node(g, node, parent, stack, last, o),
        ),
{
    let p = stack_text(g, stack) + (if last { g.corner@ } else { g.tee@ }) + seq![32u8];
    let t = text_node(g, node, parent, stack, last, o);
    assert(p == line_prefix(g, stack, last, o));
    assert(p =~= t.subrange(0, p.len() as int));
}

/// In a directory's listing the last entry is the one drawn as last:
/// the entries `nodes` of a directory listed in full are those before
/// the last one, each drawn as having more after it, then the last one
/// drawn as last.
pub proof fn law_last_entry_drawn_last(g: LineDraw, nodes: Seq<Node>, parent: Seq<u8>, stack: Seq<bool>, o: Options, k: int)
    requires
        0 <= k < nodes.len(),
    ensures
        text_seq(g, nodes.take(k + 1), nodes.len() as int, parent, stack, o) == text_seq(
            g,
            nodes.take(k),
            nodes.len() as int,
            parent,
            stack,
            o,
        ) + text_node(g, nodes[k], parent, stack, k == nodes.len() - 1, o),
{
    assert(nodes.take(k + 1).drop_last() =~= nodes.take(k));
    assert(nodes.take(k + 1).last() == nodes[k]);
}

} // verus!
