//! JSON rendering (-J).

use vstd::prelude::*;
use crate::digits::{decimal, signed_decimal, hex2, push_decimal, push_signed, push_hex2};
use crate::lits::{
    t_file, t_directory, t_link, t_char, t_block, t_socket, t_fifo, t_unknown, put_t_file,
    put_t_directory, put_t_link, put_t_char, put_t_block, put_t_socket, put_t_fifo, put_t_unknown,
    j_type_open, dquote, j_name, j_info, escaped_nl, j_target, j_contents, close_brace,
    j_error_open, j_error_close, j_close, comma, j_inode, j_dev, j_size, open_bracket, j_end,
    j_report, j_dirs, j_files, indent_unit, error_opening, over_limit_tail, recursive_note,
    put_j_type_open, put_dquote, put_j_name, put_j_info, put_escaped_nl, put_j_target,
    put_j_contents, put_close_brace, put_j_error_open, put_j_error_close, put_j_close, put_comma,
    put_j_inode, put_j_dev, put_j_size, put_open_bracket, put_j_end, put_j_report, put_j_dirs,
    put_j_files, put_indent_unit, j_mode, j_prot, put_j_mode, put_j_prot, put_error_opening, put_over_limit_tail, put_recursive_note,
};
use crate::options::Options;
use crate::output::Totals;
use crate::seqs::{cat2, cat3, cat4, cat5, cat6, cat8, cat9};
use crate::walk::{
    Meta, Node, Root, RootKind, append, join_path, joined, full_tree, depth_within, node_depth_within,
    lemma_depth_within,
};

verus! {

/// The JSON type of a file mode.
pub open spec fn mode_kind(mode: u32) -> Seq<u8> {
    let t = mode & 0o170000u32;
    if t == 0o100000u32 {
        t_file()
    } else if t == 0o040000u32 {
        t_directory()
    } else if t == 0o120000u32 {
        t_link()
    } else if t == 0o020000u32 {
        t_char()
    } else if t == 0o060000u32 {
        t_block()
    } else if t == 0o140000u32 {
        t_socket()
    } else if t == 0o010000u32 {
        t_fifo()
    } else {
        t_unknown()
    }
}

/// The letter after `\` for a control byte, or `-` when it has none.
pub open spec fn ctrl_code(c: u8) -> u8 {
    if c == 8 {
        98
    } else if c == 9 {
        116
    } else if c == 10 {
        110
    } else if c == 12 {
        102
    } else if c == 13 {
        114
    } else {
        45
    }
}

/// What one byte becomes inside a JSON string: control bytes as `\b`,
/// `\t`, `\n`, `\f`, `\r` or `\u00XX` (NUL included); quote and backslash with a
/// backslash before them; every other byte (128 and up included) as
/// itself.
pub open spec fn json_byte(c: u8) -> Seq<u8> {
    if c < 32 {
        if ctrl_code(c) != 45 {
            seq![92u8, ctrl_code(c)]
        } else {
            seq![92u8, 117u8, 48u8, 48u8] + hex2(c, false)
        }
    } else if c == 34 || c == 92 {
        seq![92u8, c]
    } else {
        seq![c]
    }
}

/// Every byte of `s` encoded.
pub open spec fn json_encoded(s: Seq<u8>) -> Seq<u8>
    decreases s.len(),
{
    if s.len() == 0 {
        Seq::empty()
    } else {
        json_encoded(s.drop_last()) + json_byte(s.last())
    }
}

/// `u` repeated `n` times.
pub open spec fn repeat(u: Seq<u8>, n: nat) -> Seq<u8>
    decreases n,
{
    if n == 0 {
        Seq::empty()
    } else {
        repeat(u, (n - 1) as nat) + u
    }
}

/// The indent of nesting `level`: one unit more than the level (and a
/// single unit for negative levels); nothing under -i.
pub open spec fn json_indent(level: int, o: Options) -> Seq<u8> {
    if o.noindent {
        Seq::empty()
    } else {
        repeat(indent_unit(), (if level < 0 {
            0
        } else {
            level
        } + 1) as nat)
    }
}

/// A newline, except under -i.
pub open spec fn nl(o: Options) -> Seq<u8> {
    if o.noindent {
        Seq::empty()
    } else {
        seq![10u8]
    }
}

/// A comma when more follows.
pub open spec fn comma_if(more: bool) -> Seq<u8> {
    if more {
        comma()
    } else {
        Seq::empty()
    }
}

/// The inode member, under --inodes.
pub open spec fn inode_member(m: Meta, o: Options) -> Seq<u8> {
    if o.show_inode {
        j_inode() + decimal(m.fino as nat)
    } else {
        Seq::empty()
    }
}

/// The device member, under --device (the device number cut to 32
/// bits, signed).
pub open spec fn dev_member(m: Meta, o: Options) -> Seq<u8> {
    if o.show_device {
        j_dev() + signed_decimal((m.fdev as i32) as int)
    } else {
        Seq::empty()
    }
}

/// The low twelve mode bits (permissions, setuid, setgid, sticky) as
/// four octal digits.
#[verifier::opaque]
pub open spec fn octal4(mode: u32) -> Seq<u8> {
    let p = (mode & 0o7777u32) as int;
    seq![(48 + p / 512 % 8) as u8, (48 + p / 64 % 8) as u8, (48 + p / 8 % 8) as u8, (48 + p % 8) as u8]
}

/// The letter of a file type in a permission string.
pub open spec fn type_letter(mode: u32) -> u8 {
    let t = mode & 0o170000u32;
    if t == 0o010000u32 {
        112
    } else if t == 0o020000u32 {
        99
    } else if t == 0o040000u32 {
        100
    } else if t == 0o060000u32 {
        98
    } else if t == 0o100000u32 {
        45
    } else if t == 0o120000u32 {
        108
    } else if t == 0o140000u32 {
        115
    } else if t == 0 {
        46
    } else {
        63
    }
}

/// `letter` when `bit` of `mode` is set, else `-`.
pub open spec fn bit_letter(mode: u32, bit: u32, letter: u8) -> u8 {
    if mode & bit != 0 {
        letter
    } else {
        45
    }
}

/// `base` with the special bit `bit` of `mode` shown over it: `lower`
/// over an execute letter, `upper` over a `-`.
pub open spec fn special_letter(mode: u32, bit: u32, base: u8, upper: u8, lower: u8) -> u8 {
    if mode & bit != 0 {
        if base == 45 {
            upper
        } else {
            lower
        }
    } else {
        base
    }
}

/// A mode as `ls -l` writes it: the type letter, then read, write and
/// execute for the owner, the group and the others, with `s`/`S` for
/// setuid and setgid and `t`/`T` for sticky in place of the execute
/// letters.
#[verifier::opaque]
pub open spec fn perm_text(mode: u32) -> Seq<u8> {
    seq![
        type_letter(mode),
        bit_letter(mode, 0o400u32, 114),
        bit_letter(mode, 0o200u32, 119),
        special_letter(mode, 0o4000u32, bit_letter(mode, 0o100u32, 120), 83, 115),
        bit_letter(mode, 0o40u32, 114),
        bit_letter(mode, 0o20u32, 119),
        special_letter(mode, 0o2000u32, bit_letter(mode, 0o10u32, 120), 83, 115),
        bit_letter(mode, 0o4u32, 114),
        bit_letter(mode, 0o2u32, 119),
        special_letter(mode, 0o1000u32, bit_letter(mode, 0o1u32, 120), 84, 116),
    ]
}

/// The mode and permission members, under -p.
#[verifier::opaque]
pub open spec fn perms_member(m: Meta, o: Options) -> Seq<u8> {
    if o.show_perms {
        j_mode() + octal4(m.mode) + j_prot() + perm_text(m.mode) + dquote()
    } else {
        Seq::empty()
    }
}

/// The size member, under -s.
pub open spec fn size_member(m: Meta, o: Options) -> Seq<u8> {
    if o.show_size {
        j_size() + signed_decimal(m.size as int)
    } else {
        Seq::empty()
    }
}

/// The metadata members of an entry: inode, device, mode and
/// permissions, size.
pub open spec fn json_info(m: Meta, o: Options) -> Seq<u8> {
    inode_member(m, o) + dev_member(m, o) + perms_member(m, o) + size_member(m, o)
}

/// The comment lines `lines` (the first of `n`), encoded and joined by
/// an escaped newline.
pub open spec fn info_lines(lines: Seq<Vec<u8>>, n: int) -> Seq<u8>
    decreases lines.len(),
{
    if lines.len() == 0 {
        Seq::empty()
    } else {
        info_lines(lines.drop_last(), n) + json_encoded(lines.last()@) + if lines.len() < n {
            escaped_nl()
        } else {
            Seq::empty()
        }
    }
}

/// The "info" member of an entry with comment lines.
pub open spec fn info_part(comment: Option<Vec<Vec<u8>>>) -> Seq<u8> {
    match comment {
        Some(lines) => j_info() + info_lines(lines@, lines@.len() as int) + dquote(),
        None => Seq::empty(),
    }
}

/// The "target" member of a symlink.
pub open spec fn target_part(link: Option<Vec<u8>>) -> Seq<u8> {
    match link {
        Some(t) => j_target() + json_encoded(t@) + dquote(),
        None => Seq::empty(),
    }
}

/// The error object of an annotated entry.
pub open spec fn error_part(err: Option<Vec<u8>>) -> Seq<u8> {
    match err {
        Some(e) => j_error_open() + e@ + j_error_close(),
        None => Seq::empty(),
    }
}

/// The start of an object: indent, type and the name key.
pub open spec fn head_start(level: int, mode: u32, o: Options) -> Seq<u8> {
    json_indent(level, o) + j_type_open() + mode_kind(mode) + dquote() + j_name()
}

/// An entry's object up to its contents.
pub open spec fn node_head(node: Node, parent: Seq<u8>, level: int, o: Options) -> Seq<u8> {
    let display = if o.full_path {
        joined(parent, node.name@)
    } else {
        node.name@
    };
    head_start(level, node.meta.mode, o) + json_encoded(display) + dquote() + info_part(node.comment)
        + target_part(node.link) + json_info(node.meta, o)
}

/// Whether an annotation is the recursive-link tag, which outside
/// full-tree mode closes the contents at the entry's own level.
pub open spec fn recursive_tag(node: Node, o: Options) -> bool {
    node.err matches Some(e) && e@ == recursive_note() && !full_tree(o)
}

/// An entry's whole object: head, then either a closing brace or its
/// contents array (its error object and its children), and a comma
/// when `more` entries follow.
pub open spec fn json_node(node: Node, parent: Seq<u8>, level: int, more: bool, o: Options) -> Seq<u8>
    decreases node,
{
    let descend = node.children is Some;
    let contents = descend || node.err is Some;
    node_head(node, parent, level, o) + contents_open(contents) + error_part(node.err) + json_children(
        node.children,
        joined(parent, node.name@),
        level + 1,
        o,
    ) + node_close(contents, if descend || recursive_tag(node, o) {
        level
    } else {
        -1
    }, more, o)
}

/// The opening of an entry's contents array, or its closing brace
/// when it has no contents.
pub open spec fn contents_open(contents: bool) -> Seq<u8> {
    if contents {
        j_contents()
    } else {
        close_brace()
    }
}

/// The end of an entry: its contents array closed at `close_level`
/// when it has one, a comma when more follow, and a newline.
pub open spec fn node_close(contents: bool, close_level: int, more: bool, o: Options) -> Seq<u8> {
    if contents {
        json_indent(close_level, o) + j_close() + comma_if(more) + nl(o)
    } else {
        comma_if(more) + nl(o)
    }
}

/// The children of an entry at `level`, after a newline.
pub open spec fn json_children(children: Option<Vec<Node>>, path: Seq<u8>, level: int, o: Options) -> Seq<u8>
    decreases children,
{
    match children {
        Some(ch) => nl(o) + json_seq(ch@, ch@.len() as int, path, level, o),
        None => Seq::empty(),
    }
}

/// The entries `nodes` (the first of `total` in one directory).
pub open spec fn json_seq(nodes: Seq<Node>, total: int, parent: Seq<u8>, level: int, o: Options) -> Seq<u8>
    decreases nodes,
{
    if nodes.len() == 0 {
        Seq::empty()
    } else {
        json_seq(nodes.drop_last(), total, parent, level, o) + json_node(
            nodes.last(),
            parent,
            level,
            nodes.len() < total,
            o,
        )
    }
}

/// The end of a root object: the indent, the closing of its contents,
/// a comma when more roots follow, a newline.
pub open spec fn root_end(o: Options, more_roots: bool) -> Seq<u8> {
    json_indent(0, o) + j_close() + comma_if(more_roots) + nl(o)
}

/// The contents array and closing of a root object.
pub open spec fn root_body(root: Root, o: Options, more_roots: bool) -> Seq<u8> {
    match root.kind {
        RootKind::Missing => j_contents() + j_error_open() + error_opening() + j_error_close() + nl(o) + root_end(
            o,
            more_roots,
        ),
        RootKind::Unreadable => j_contents() + j_error_open() + error_opening() + j_error_close() + nl(o)
            + root_end(o, more_roots),
        RootKind::OverLimit(n) => j_contents() + j_error_open() + (decimal(n as nat) + over_limit_tail())
            + j_error_close() + nl(o) + root_end(o, more_roots),
        RootKind::Opened(ch) => if ch@.len() == 0 {
            close_brace() + comma_if(more_roots) + nl(o)
        } else {
            j_contents() + nl(o) + json_seq(ch@, ch@.len() as int, root.name@, 1, o) + root_end(o, more_roots)
        },
    }
}

/// The metadata members of a root, when it could be stat'ed.
pub open spec fn root_info(meta: Option<Meta>, o: Options) -> Seq<u8> {
    match meta {
        Some(m) => json_info(m, o),
        None => Seq::empty(),
    }
}

/// The mode a root is typed by (0 when it could not be stat'ed).
pub open spec fn root_mode(meta: Option<Meta>) -> u32 {
    match meta {
        Some(m) => m.mode,
        None => 0u32,
    }
}

/// A root's whole object.
pub open spec fn json_root(root: Root, o: Options, more_roots: bool) -> Seq<u8> {
    json_indent(0, o) + j_type_open() + mode_kind(root_mode(root.meta)) + dquote() + j_name() + json_encoded(
        root.name@,
    ) + dquote() + root_info(root.meta, o) + root_body(root, o, more_roots)
}

/// The size member of the report, under --du.
pub open spec fn du_member(t: Totals, o: Options) -> Seq<u8> {
    if o.du {
        j_size() + signed_decimal(t.size as int)
    } else {
        Seq::empty()
    }
}

/// The files member of the report, unless -d.
pub open spec fn files_member(t: Totals, o: Options) -> Seq<u8> {
    if o.dirs_only {
        Seq::empty()
    } else {
        j_files() + decimal(t.files as nat)
    }
}

/// The report object.
pub open spec fn json_report(t: Totals, o: Options) -> Seq<u8> {
    comma() + json_indent(0, o) + j_report() + du_member(t, o) + j_dirs() + decimal(t.dirs as nat) + files_member(
        t,
        o,
    ) + close_brace()
}

/// The JSON type of a file mode.
fn type_of(out: &mut Vec<u8>, mode: u32)
    ensures
        final(out)@ == old(out)@ + mode_kind(mode),
{
    let t = mode & 0o170000u32;
    if t == 0o100000u32 {
        put_t_file(out);
    } else if t == 0o040000u32 {
        put_t_directory(out);
    } else if t == 0o120000u32 {
        put_t_link(out);
    } else if t == 0o020000u32 {
        put_t_char(out);
    } else if t == 0o060000u32 {
        put_t_block(out);
    } else if t == 0o140000u32 {
        put_t_socket(out);
    } else if t == 0o010000u32 {
        put_t_fifo(out);
    } else {
        put_t_unknown(out);
    }
}

fn ctrl_of(c: u8) -> (r: u8)
    ensures
        r == ctrl_code(c),
{
    if c == 8 {
        98
    } else if c == 9 {
        116
    } else if c == 10 {
        110
    } else if c == 12 {
        102
    } else if c == 13 {
        114
    } else {
        45
    }
}

/// Appends the four octal digits of `mode`'s low twelve bits.
fn push_octal4(out: &mut Vec<u8>, mode: u32)
    ensures
        final(out)@ == old(out)@ + octal4(mode),
{
    let p = mode & 0o7777u32;
    assert(p <= 0o7777u32) by (bit_vector)
        requires
            p == mode & 0o7777u32,
    ;
    out.push(48u8 + (p / 512 % 8) as u8);
    out.push(48u8 + (p / 64 % 8) as u8);
    out.push(48u8 + (p / 8 % 8) as u8);
    out.push(48u8 + (p % 8) as u8);
    reveal(octal4);
    assert(final(out)@ =~= old(out)@ + octal4(mode));
}

fn type_letter_of(mode: u32) -> (r: u8)
    ensures
        r == type_letter(mode),
{
    let t = mode & 0o170000u32;
    if t == 0o010000u32 {
        112
    } else if t == 0o020000u32 {
        99
    } else if t == 0o040000u32 {
        100
    } else if t == 0o060000u32 {
        98
    } else if t == 0o100000u32 {
        45
    } else if t == 0o120000u32 {
        108
    } else if t == 0o140000u32 {
        115
    } else if t == 0 {
        46
    } else {
        63
    }
}

fn bit_letter_of(mode: u32, bit: u32, letter: u8) -> (r: u8)
    ensures
        r == bit_letter(mode, bit, letter),
{
    if mode & bit != 0 {
        letter
    } else {
        45
    }
}

fn special_letter_of(mode: u32, bit: u32, base: u8, upper: u8, lower: u8) -> (r: u8)
    ensures
        r == special_letter(mode, bit, base, upper, lower),
{
    if mode & bit != 0 {
        if base == 45 {
            upper
        } else {
            lower
        }
    } else {
        base
    }
}

/// Appends `mode` as `ls -l` writes it (see `perm_text`).
fn push_perm_text(out: &mut Vec<u8>, mode: u32)
    ensures
        final(out)@ == old(out)@ + perm_text(mode),
{
    out.push(type_letter_of(mode));
    out.push(bit_letter_of(mode, 0o400u32, 114));
    out.push(bit_letter_of(mode, 0o200u32, 119));
    let x = bit_letter_of(mode, 0o100u32, 120);
    out.push(special_letter_of(mode, 0o4000u32, x, 83, 115));
    out.push(bit_letter_of(mode, 0o40u32, 114));
    out.push(bit_letter_of(mode, 0o20u32, 119));
    let x = bit_letter_of(mode, 0o10u32, 120);
    out.push(special_letter_of(mode, 0o2000u32, x, 83, 115));
    out.push(bit_letter_of(mode, 0o4u32, 114));
    out.push(bit_letter_of(mode, 0o2u32, 119));
    let x = bit_letter_of(mode, 0o1u32, 120);
    out.push(special_letter_of(mode, 0o1000u32, x, 84, 116));
    reveal(perm_text);
    assert(final(out)@ =~= old(out)@ + perm_text(mode));
}

/// Writes `s` as the inside of a JSON string.
pub fn encode(out: &mut Vec<u8>, s: &[u8])
    ensures
        final(out)@ == old(out)@ + json_encoded(s@),
{
    let ghost start = out@;
    let mut i: usize = 0;
    while i < s.len()
        invariant
            i <= s@.len(),
            out@ == start + json_encoded(s@.take(i as int)),
        decreases s@.len() - i,
    {
        let c = s[i];
        if c < 32u8 {
            let k = ctrl_of(c);
            if k != 45u8 {
                out.push(92u8);
                out.push(k);
            } else {
                out.push(92u8);
                out.push(117u8);
                out.push(48u8);
                out.push(48u8);
                push_hex2(out, c, false);
            }
        } else if c == 34u8 || c == 92u8 {
            out.push(92u8);
            out.push(c);
        } else {
            out.push(c);
        }
        proof {
            assert(s@.take(i + 1).drop_last() =~= s@.take(i as int));
            assert(s@.take(i + 1).last() == c);
        }
        i += 1;
        assert(out@ =~= start + json_encoded(s@.take(i as int)));
    }
    assert(s@.take(s@.len() as int) =~= s@);
}

pub struct JsonFormatter {}

impl JsonFormatter {
    pub fn new(_opts: &Options) -> Self {
        JsonFormatter {  }
    }

    fn nl(&self, out: &mut Vec<u8>, opts: &Options)
        ensures
            final(out)@ == old(out)@ + nl(*opts),
    {
        if !opts.noindent {
            out.push(10u8);
        }
        assert(final(out)@ =~= old(out)@ + nl(*opts));
    }

    fn indent(&self, out: &mut Vec<u8>, level: i32, opts: &Options)
        ensures
            final(out)@ == old(out)@ + json_indent(level as int, *opts),
    {
        if opts.noindent {
            return ;
        }
        // A negative level still prints its one leading unit.
        let top: i32 = if level < 0 {
            0
        } else {
            level
        };
        let ghost start = out@;
        let top: i64 = top as i64;
        let mut i: i64 = 0;
        while i <= top
            invariant
                0 <= top <= i32::MAX,
                0 <= i <= top + 1,
                out@ == start + repeat(indent_unit(), i as nat),
            decreases top + 1 - i,
        {
            put_indent_unit(out);
            i += 1;
        }
    }

    fn fillinfo(&self, out: &mut Vec<u8>, m: &Meta, opts: &Options)
        ensures
            final(out)@ == old(out)@ + json_info(*m, *opts),
    {
        let ghost o0 = out@;
        if opts.show_inode {
            let ghost a = out@;
            put_j_inode(out);
            push_decimal(out, m.fino);
            proof {
                cat2(a, j_inode(), decimal(m.fino as nat));
            }
        } else {
            assert(out@ =~= o0 + inode_member(*m, *opts));
        }
        let ghost o1 = out@;
        if opts.show_device {
            put_j_dev(out);
            push_signed(out, (m.fdev as i32) as i64);
            proof {
                cat2(o1, j_dev(), signed_decimal((m.fdev as i32) as int));
            }
        } else {
            assert(out@ =~= o1 + dev_member(*m, *opts));
        }
        let ghost o2 = out@;
        reveal(perms_member);
        if opts.show_perms {
            put_j_mode(out);
            push_octal4(out, m.mode);
            put_j_prot(out);
            push_perm_text(out, m.mode);
            put_dquote(out);
            proof {
                cat5(o2, j_mode(), octal4(m.mode), j_prot(), perm_text(m.mode), dquote());
            }
        } else {
            assert(out@ =~= o2 + perms_member(*m, *opts));
        }
        let ghost o3 = out@;
        if opts.show_size {
            put_j_size(out);
            push_signed(out, m.size);
            proof {
                cat2(o3, j_size(), signed_decimal(m.size as int));
            }
        } else {
            assert(out@ =~= o3 + size_member(*m, *opts));
        }
        proof {
            cat4(o0, inode_member(*m, *opts), dev_member(*m, *opts), perms_member(*m, *opts), size_member(*m, *opts));
        }
    }

    fn write_head_start(&self, out: &mut Vec<u8>, level: i32, mode: u32, opts: &Options)
        ensures
            final(out)@ == old(out)@ + head_start(level as int, mode, *opts),
    {
        let ghost o0 = out@;
        self.indent(out, level, opts);
        put_j_type_open(out);
        type_of(out, mode);
        put_dquote(out);
        put_j_name(out);
        proof {
            cat5(o0, json_indent(level as int, *opts), j_type_open(), mode_kind(mode), dquote(), j_name());
        }
    }

    fn write_display(&self, out: &mut Vec<u8>, node: &Node, parent: &[u8], opts: &Options)
        ensures
            final(out)@ == old(out)@ + json_encoded(
                if opts.full_path {
                    joined(parent@, node.name@)
                } else {
                    node.name@
                },
            ),
    {
        if opts.full_path {
            let full = join_path(parent, node.name.as_slice());
            encode(out, full.as_slice());
        } else {
            encode(out, node.name.as_slice());
        }
    }

    fn write_head(&self, out: &mut Vec<u8>, node: &Node, parent: &[u8], level: i32, opts: &Options)
        ensures
            final(out)@ == old(out)@ + node_head(*node, parent@, level as int, *opts),
    {
        let ghost o0 = out@;
        let ghost display = if opts.full_path {
            joined(parent@, node.name@)
        } else {
            node.name@
        };
        self.write_head_start(out, level, node.meta.mode, opts);
        self.write_display(out, node, parent, opts);
        put_dquote(out);
        write_info(out, &node.comment);
        write_target(out, &node.link);
        self.fillinfo(out, &node.meta, opts);
        proof {
            cat6(
                o0,
                head_start(level as int, node.meta.mode, *opts),
                json_encoded(display),
                dquote(),
                info_part(node.comment),
                target_part(node.link),
                json_info(node.meta, *opts),
            );
        }
    }

    /// One entry's object, with everything listed below it.
    #[verifier::spinoff_prover]
    #[verifier::rlimit(100)]
    fn emit_node(&self, out: &mut Vec<u8>, node: &Node, parent: &[u8], level: i32, more: bool, opts: &Options)
        requires
            0 <= level,
            node_depth_within(*node, i32::MAX - level),
        ensures
            final(out)@ == old(out)@ + json_node(*node, parent@, level as int, more, *opts),
        decreases *node, 0int,
    {
        let ghost o0 = out@;
        self.write_head(out, node, parent, level, opts);
        let ghost oh = out@;
        let descend = node.children.is_some();
        let contents = descend || node.err.is_some();
        if contents {
            put_j_contents(out);
        } else {
            put_close_brace(out);
        }
        let ghost o1 = out@;
        assert(o1 == oh + contents_open(contents));
        write_error(out, &node.err);
        let ghost o2 = out@;
        if let Some(children) = &node.children {
            self.nl(out, opts);
            let child_parent = join_path(parent, node.name.as_slice());
            self.emit_nodes(out, children.as_slice(), child_parent.as_slice(), level + 1, opts);
        }
        let ghost o3 = out@;
        // The contents close at the entry's level when it had children,
        // or carries the recursive-link tag outside full-tree mode;
        // otherwise at the leading unit.
        let recursive = is_recursive_tag(&node.err) && !(opts.prune || opts.matchdirs || opts.du);
        let close_level: i32 = if descend || recursive {
            level
        } else {
            -1
        };
        self.write_close(out, contents, close_level, more, opts);
        proof {
            let head = node_head(*node, parent@, level as int, *opts);
            let kids = json_children(node.children, joined(parent@, node.name@), level + 1, *opts);
            let tail = node_close(contents, close_level as int, more, *opts);
            assert(o1 == o0 + head + contents_open(contents));
            assert(o2 == o1 + error_part(node.err));
            assert(o3 == o2 + kids);
            assert(out@ == o3 + tail);
            lemma_json_node(*node, parent@, level as int, more, *opts);
            cat5(o0, head, contents_open(contents), error_part(node.err), kids, tail);
        }
    }

    fn write_close(&self, out: &mut Vec<u8>, contents: bool, close_level: i32, more: bool, opts: &Options)
        ensures
            final(out)@ == old(out)@ + node_close(contents, close_level as int, more, *opts),
    {
        let ghost o0 = out@;
        if contents {
            self.indent(out, close_level, opts);
            put_j_close(out);
        }
        let ghost o1 = out@;
        write_comma_if(out, more);
        self.nl(out, opts);
        proof {
            let a = if contents { json_indent(close_level as int, *opts) + j_close() } else { Seq::empty() };
            if contents {
                assert(o1 == o0 + a);
            } else {
                assert(o1 =~= o0 + a);
            }
            cat3(o0, a, comma_if(more), nl(*opts));
            if !contents {
                assert(a + comma_if(more) + nl(*opts) =~= comma_if(more) + nl(*opts));
            }
        }
    }

    /// The entries of one directory at `level`.
    #[verifier::spinoff_prover]
    fn emit_nodes(&self, out: &mut Vec<u8>, nodes: &[Node], parent: &[u8], level: i32, opts: &Options)
        requires
            0 <= level,
            depth_within(nodes@, i32::MAX - level),
        ensures
            final(out)@ == old(out)@ + json_seq(nodes@, nodes@.len() as int, parent@, level as int, *opts),
        decreases nodes@, 1int,
    {
        let ghost start = out@;
        let n = nodes.len();
        let mut i: usize = 0;
        while i < n
            invariant
                n == nodes@.len(),
                i <= n,
                0 <= level,
                depth_within(nodes@, i32::MAX - level),
                out@ == start + json_seq(nodes@.take(i as int), n as int, parent@, level as int, *opts),
            decreases n - i,
        {
            let node = &nodes[i];
            proof {
                lemma_depth_within(nodes@, i32::MAX - level, i as int);
            }
            assert(decreases_to!(nodes@ => *node));
            self.emit_node(out, node, parent, level, i + 1 < n, opts);
            proof {
                assert(nodes@.take(i + 1).drop_last() =~= nodes@.take(i as int));
                assert(nodes@.take(i + 1).last() == nodes@[i as int]);
            }
            i += 1;
        }
        assert(nodes@.take(n as int) =~= nodes@);
    }

    /// The opening of the whole document.
    pub fn intro(&self, out: &mut Vec<u8>, opts: &Options)
        ensures
            final(out)@ == old(out)@ + open_bracket() + nl(*opts),
    {
        put_open_bracket(out);
        self.nl(out, opts);
    }

    /// The closing of the whole document.
    pub fn outro(&self, out: &mut Vec<u8>, opts: &Options)
        ensures
            final(out)@ == old(out)@ + nl(*opts) + j_end(),
    {
        self.nl(out, opts);
        put_j_end(out);
    }

    /// A root's object, with everything listed below it, and a comma
    /// when more roots follow.
    pub fn emit_root(&self, out: &mut Vec<u8>, root: &Root, opts: &Options, more_roots: bool)
        requires
            root.kind matches RootKind::Opened(ch) ==> depth_within(ch@, i32::MAX - 1),
        ensures
            final(out)@ == old(out)@ + json_root(*root, *opts, more_roots),
    {
        let ghost o0 = out@;
        self.indent(out, 0, opts);
        put_j_type_open(out);
        let mode = match &root.meta {
            Some(m) => m.mode,
            None => 0u32,
        };
        type_of(out, mode);
        put_dquote(out);
        put_j_name(out);
        encode(out, root.name.as_slice());
        put_dquote(out);
        self.write_root_info(out, &root.meta, opts);
        self.write_root_body(out, root, opts, more_roots);
        proof {
            cat9(
                o0,
                json_indent(0, *opts),
                j_type_open(),
                mode_kind(mode),
                dquote(),
                j_name(),
                json_encoded(root.name@),
                dquote(),
                root_info(root.meta, *opts),
                root_body(*root, *opts, more_roots),
            );
        }
    }

    fn write_root_info(&self, out: &mut Vec<u8>, meta: &Option<Meta>, opts: &Options)
        ensures
            final(out)@ == old(out)@ + root_info(*meta, *opts),
    {
        if let Some(m) = meta {
            self.fillinfo(out, m, opts);
        } else {
            assert(out@ =~= old(out)@ + root_info(*meta, *opts));
        }
    }

    fn write_root_body(&self, out: &mut Vec<u8>, root: &Root, opts: &Options, more_roots: bool)
        requires
            root.kind matches RootKind::Opened(ch) ==> depth_within(ch@, i32::MAX - 1),
        ensures
            final(out)@ == old(out)@ + root_body(*root, *opts, more_roots),
    {
        let ghost o0 = out@;
        match &root.kind {
            RootKind::Missing | RootKind::Unreadable => {
                put_j_contents(out);
                put_j_error_open(out);
                put_error_opening(out);
                put_j_error_close(out);
                self.nl(out, opts);
                self.write_root_end(out, opts, more_roots);
                proof {
                    cat6(
                        o0,
                        j_contents(),
                        j_error_open(),
                        error_opening(),
                        j_error_close(),
                        nl(*opts),
                        root_end(*opts, more_roots),
                    );
                }
            },
            RootKind::OverLimit(entries) => {
                put_j_contents(out);
                put_j_error_open(out);
                let ghost o2 = out@;
                push_decimal(out, *entries as u64);
                put_over_limit_tail(out);
                let ghost o3 = out@;
                put_j_error_close(out);
                self.nl(out, opts);
                self.write_root_end(out, opts, more_roots);
                proof {
                    cat2(o2, decimal(*entries as nat), over_limit_tail());
                    cat6(
                        o0,
                        j_contents(),
                        j_error_open(),
                        decimal(*entries as nat) + over_limit_tail(),
                        j_error_close(),
                        nl(*opts),
                        root_end(*opts, more_roots),
                    );
                }
            },
            RootKind::Opened(children) => {
                if children.len() == 0 {
                    put_close_brace(out);
                    write_comma_if(out, more_roots);
                    self.nl(out, opts);
                    proof {
                        cat3(o0, close_brace(), comma_if(more_roots), nl(*opts));
                    }
                } else {
                    put_j_contents(out);
                    self.nl(out, opts);
                    self.emit_nodes(out, children.as_slice(), root.name.as_slice(), 1, opts);
                    self.write_root_end(out, opts, more_roots);
                    proof {
                        cat4(
                            o0,
                            j_contents(),
                            nl(*opts),
                            json_seq(children@, children@.len() as int, root.name@, 1, *opts),
                            root_end(*opts, more_roots),
                        );
                    }
                }
            },
        }
    }

    fn write_root_end(&self, out: &mut Vec<u8>, opts: &Options, more_roots: bool)
        ensures
            final(out)@ == old(out)@ + root_end(*opts, more_roots),
    {
        let ghost o0 = out@;
        self.indent(out, 0, opts);
        put_j_close(out);
        write_comma_if(out, more_roots);
        self.nl(out, opts);
        proof {
            cat4(o0, json_indent(0, *opts), j_close(), comma_if(more_roots), nl(*opts));
        }
    }

    /// The report object (written before the closing bracket).
    pub fn emit_report(&self, out: &mut Vec<u8>, totals: &Totals, opts: &Options)
        ensures
            final(out)@ == old(out)@ + json_report(*totals, *opts),
    {
        let ghost o0 = out@;
        put_comma(out);
        self.indent(out, 0, opts);
        put_j_report(out);
        write_du_member(out, totals, opts);
        put_j_dirs(out);
        push_decimal(out, totals.dirs);
        write_files_member(out, totals, opts);
        put_close_brace(out);
        proof {
            cat8(
                o0,
                comma(),
                json_indent(0, *opts),
                j_report(),
                du_member(*totals, *opts),
                j_dirs(),
                decimal(totals.dirs as nat),
                files_member(*totals, *opts),
                close_brace(),
            );
        }
    }
}

fn write_comma_if(out: &mut Vec<u8>, more: bool)
    ensures
        final(out)@ == old(out)@ + comma_if(more),
{
    if more {
        put_comma(out);
    } else {
        assert(out@ =~= old(out)@ + comma_if(more));
    }
}

fn write_du_member(out: &mut Vec<u8>, totals: &Totals, opts: &Options)
    ensures
        final(out)@ == old(out)@ + du_member(*totals, *opts),
{
    if opts.du {
        let ghost o0 = out@;
        put_j_size(out);
        push_signed(out, totals.size);
        proof {
            cat2(o0, j_size(), signed_decimal(totals.size as int));
        }
    } else {
        assert(out@ =~= old(out)@ + du_member(*totals, *opts));
    }
}

fn write_files_member(out: &mut Vec<u8>, totals: &Totals, opts: &Options)
    ensures
        final(out)@ == old(out)@ + files_member(*totals, *opts),
{
    if !opts.dirs_only {
        let ghost o0 = out@;
        put_j_files(out);
        push_decimal(out, totals.files);
        proof {
            cat2(o0, j_files(), decimal(totals.files as nat));
        }
    } else {
        assert(out@ =~= old(out)@ + files_member(*totals, *opts));
    }
}

/// Whether an annotation is "recursive, not followed".
fn is_recursive_tag(err: &Option<Vec<u8>>) -> (r: bool)
    ensures
        r == (err matches Some(e) && e@ == recursive_note()),
{
    match err {
        Some(e) => {
            let mut t: Vec<u8> = Vec::new();
            put_recursive_note(&mut t);
            bytes_equal(e.as_slice(), t.as_slice())
        },
        None => false,
    }
}

/// Whether two byte strings are equal.
pub(crate) fn bytes_equal(a: &[u8], b: &[u8]) -> (r: bool)
    ensures
        r == (a@ == b@),
{
    if a.len() != b.len() {
        return false;
    }
    let mut i: usize = 0;
    while i < a.len()
        invariant
            i <= a@.len(),
            a@.len() == b@.len(),
            forall|j: int| 0 <= j < i ==> a@[j] == b@[j],
        decreases a@.len() - i,
    {
        if a[i] != b[i] {
            return false;
        }
        i += 1;
    }
    assert(a@ =~= b@);
    true
}

fn write_info(out: &mut Vec<u8>, comment: &Option<Vec<Vec<u8>>>)
    ensures
        final(out)@ == old(out)@ + info_part(*comment),
{
    if let Some(lines) = comment {
        let ghost o0 = out@;
        put_j_info(out);
        let ghost start = out@;
        let n = lines.len();
        let mut i: usize = 0;
        while i < n
            invariant
                n == lines@.len(),
                i <= n,
                out@ == start + info_lines(lines@.take(i as int), n as int),
            decreases n - i,
        {
            encode(out, lines[i].as_slice());
            let ghost mid = out@;
            if i + 1 < n {
                put_escaped_nl(out);
            } else {
                assert(out@ =~= mid + Seq::<u8>::empty());
            }
            proof {
                assert(lines@.take(i + 1).drop_last() =~= lines@.take(i as int));
                assert(lines@.take(i + 1).last() == lines@[i as int]);
                let sep = if i + 1 < n { escaped_nl() } else { Seq::empty() };
                cat3(start, info_lines(lines@.take(i as int), n as int), json_encoded(lines@[i as int]@), sep);
            }
            i += 1;
        }
        assert(lines@.take(n as int) =~= lines@);
        put_dquote(out);
        proof {
            cat3(o0, j_info(), info_lines(lines@, n as int), dquote());
        }
    } else {
        assert(final(out)@ =~= old(out)@ + info_part(*comment));
    }
}

fn write_target(out: &mut Vec<u8>, link: &Option<Vec<u8>>)
    ensures
        final(out)@ == old(out)@ + target_part(*link),
{
    if let Some(t) = link {
        let ghost o0 = out@;
        put_j_target(out);
        encode(out, t.as_slice());
        put_dquote(out);
        proof {
            cat3(o0, j_target(), json_encoded(t@), dquote());
        }
    } else {
        assert(final(out)@ =~= old(out)@ + target_part(*link));
    }
}

fn write_error(out: &mut Vec<u8>, err: &Option<Vec<u8>>)
    ensures
        final(out)@ == old(out)@ + error_part(*err),
{
    if let Some(e) = err {
        let ghost o0 = out@;
        put_j_error_open(out);
        append(out, e.as_slice());
        put_j_error_close(out);
        proof {
            cat3(o0, j_error_open(), e@, j_error_close());
        }
    } else {
        assert(final(out)@ =~= old(out)@ + error_part(*err));
    }
}


proof fn lemma_json_node(node: Node, parent: Seq<u8>, level: int, more: bool, o: Options)
    ensures
        json_node(node, parent, level, more, o) == node_head(node, parent, level, o) + contents_open(
            node.children is Some || node.err is Some,
        ) + error_part(node.err) + json_children(node.children, joined(parent, node.name@), level + 1, o)
            + node_close(
            node.children is Some || node.err is Some,
            if node.children is Some || recursive_tag(node, o) {
                level
            } else {
                -1
            },
            more,
            o,
        ),
{
}
} // verus!
