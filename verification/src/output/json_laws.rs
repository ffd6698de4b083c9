//! The -J listing is JSON text as RFC 8259 defines it.

use vstd::prelude::*;
use crate::digits::{decimal, signed_decimal};
use crate::options::Options;
use crate::output::Totals;
use crate::output::encoding_laws::{json_string_body, lemma_body_concat, law_json_encoding_valid};
use crate::output::json::{
    json_indent, nl, repeat, mode_kind, json_encoded, info_lines, info_part, target_part, json_info, inode_member,
    dev_member, size_member, json_node, json_seq, json_children, node_head, head_start, recursive_tag, error_part,
    contents_open, node_close, comma_if, root_end, root_body, root_info, root_mode, json_root, du_member,
    files_member, json_report, octal4, perm_text, perms_member,
};
use crate::lits::{
    indent_unit, j_type_open, dquote, j_name, j_info, j_target, j_inode, j_dev, j_size, escaped_nl, t_file,
    t_directory, t_link, t_char, t_block, t_socket, t_fifo, t_unknown, j_contents, close_brace, j_error_open,
    j_error_close, j_close, comma, error_opening, over_limit_tail, open_bracket, j_end, j_report, j_dirs, j_files,
    j_mode, j_prot,
};
use crate::walk::{Meta, Node, Root, RootKind, joined};
use crate::traverse::{quiet, tidy, tidy_all};

verus! {

/// A JSON value, with the white space around its tokens.
pub enum Json {
    /// A string: the text between its quotes.
    Str(Seq<u8>),
    /// A number, as written.
    Num(Seq<u8>),
    /// An array: its items, or, when it has none, the white space inside.
    Arr(Seq<Item>, Seq<u8>),
    /// An object: its members, or, when it has none, the white space inside.
    Obj(Seq<Member>, Seq<u8>),
}

/// An array item: a value with white space before and after it.
pub struct Item {
    pub pre: Seq<u8>,
    pub value: Json,
    pub post: Seq<u8>,
}

/// An object member: white space, the key (a string), a colon, white
/// space, the value, white space.
pub struct Member {
    pub pre: Seq<u8>,
    pub key: Seq<u8>,
    pub gap: Seq<u8>,
    pub value: Json,
    pub post: Seq<u8>,
}

/// The text of a JSON value.
pub open spec fn render(j: Json) -> Seq<u8>
    decreases j,
{
    match j {
        Json::Str(b) => seq![34u8] + b + seq![34u8],
        Json::Num(t) => t,
        Json::Arr(items, w) => seq![91u8] + (if items.len() == 0 {
            w
        } else {
            render_items(items)
        }) + seq![93u8],
        Json::Obj(ms, w) => seq![123u8] + (if ms.len() == 0 {
            w
        } else {
            render_members(ms)
        }) + seq![125u8],
    }
}

/// Array items, separated by commas.
pub open spec fn render_items(items: Seq<Item>) -> Seq<u8>
    decreases items,
{
    if items.len() == 0 {
        Seq::empty()
    } else if items.len() == 1 {
        render_item(items[0])
    } else {
        render_items(items.drop_last()) + seq![44u8] + render_item(items.last())
    }
}

/// One array item.
pub open spec fn render_item(i: Item) -> Seq<u8>
    decreases i,
{
    i.pre + render(i.value) + i.post
}

/// Object members, separated by commas.
pub open spec fn render_members(ms: Seq<Member>) -> Seq<u8>
    decreases ms,
{
    if ms.len() == 0 {
        Seq::empty()
    } else if ms.len() == 1 {
        render_member(ms[0])
    } else {
        render_members(ms.drop_last()) + seq![44u8] + render_member(ms.last())
    }
}

/// One object member.
pub open spec fn render_member(m: Member) -> Seq<u8>
    decreases m,
{
    m.pre + seq![34u8] + m.key + seq![34u8, 58u8] + m.gap + render(m.value) + m.post
}

/// JSON white space: spaces, tabs, line feeds and carriage returns.
pub open spec fn blank(s: Seq<u8>) -> bool {
    forall|i: int| 0 <= i < s.len() ==> (#[trigger] s[i] == 32 || s[i] == 9 || s[i] == 10 || s[i] == 13)
}

/// A decimal digit.
pub open spec fn digit(b: u8) -> bool {
    48 <= b <= 57
}

/// An integer as JSON writes it: an optional minus, then digits with
/// no leading zero.
pub open spec fn integer_text(t: Seq<u8>) -> bool {
    let d = if t.len() > 0 && t[0] == 45 {
        t.drop_first()
    } else {
        t
    };
    &&& d.len() > 0
    &&& forall|i: int| 0 <= i < d.len() ==> digit(#[trigger] d[i])
    &&& (d.len() == 1 || d[0] != 48)
}

/// The value obeys the grammar: white space where white space goes,
/// valid string bodies and numbers.
pub open spec fn well_formed(j: Json) -> bool
    decreases j,
{
    match j {
        Json::Str(b) => json_string_body(b),
        Json::Num(t) => integer_text(t),
        Json::Arr(items, w) => blank(w) && items_ok(items),
        Json::Obj(ms, w) => blank(w) && members_ok(ms),
    }
}

/// Every item obeys the grammar.
pub open spec fn items_ok(items: Seq<Item>) -> bool
    decreases items,
{
    if items.len() == 0 {
        true
    } else {
        items_ok(items.drop_last()) && item_ok(items.last())
    }
}

/// The item obeys the grammar.
pub open spec fn item_ok(i: Item) -> bool
    decreases i,
{
    blank(i.pre) && blank(i.post) && well_formed(i.value)
}

/// Every member obeys the grammar.
pub open spec fn members_ok(ms: Seq<Member>) -> bool
    decreases ms,
{
    if ms.len() == 0 {
        true
    } else {
        members_ok(ms.drop_last()) && member_ok(ms.last())
    }
}

/// The member obeys the grammar.
pub open spec fn member_ok(m: Member) -> bool
    decreases m,
{
    blank(m.pre) && json_string_body(m.key) && blank(m.gap) && well_formed(m.value) && blank(m.post)
}

/// JSON text: one value with white space around it.
pub open spec fn json_text(s: Seq<u8>) -> bool {
    exists|a: Seq<u8>, j: Json, b: Seq<u8>| blank(a) && blank(b) && well_formed(j) && s == a + render(j) + b
}

proof fn lemma_blank_concat(a: Seq<u8>, b: Seq<u8>)
    requires
        blank(a),
        blank(b),
    ensures
        blank(a + b),
{
    assert forall|i: int| 0 <= i < (a + b).len() implies (#[trigger] (a + b)[i] == 32 || (a + b)[i] == 9
        || (a + b)[i] == 10 || (a + b)[i] == 13) by {
        if i >= a.len() {
            assert((a + b)[i] == b[i - a.len()]);
        }
    }
}

proof fn lemma_repeat_blank(u: Seq<u8>, n: nat)
    requires
        blank(u),
    ensures
        blank(repeat(u, n)),
    decreases n,
{
    if n > 0 {
        lemma_repeat_blank(u, (n - 1) as nat);
        lemma_blank_concat(repeat(u, (n - 1) as nat), u);
    } else {
        assert(blank(Seq::<u8>::empty()));
    }
}

proof fn lemma_indent_blank(level: int, o: Options)
    ensures
        blank(json_indent(level, o)),
        blank(nl(o)),
{
    assert(blank(indent_unit()));
    lemma_repeat_blank(indent_unit(), (if level < 0 { 0 } else { level } + 1) as nat);
    assert(blank(Seq::<u8>::empty()));
    assert(blank(seq![10u8]));
}

proof fn lemma_decimal_digits(n: nat)
    ensures
        decimal(n).len() > 0,
        forall|i: int| 0 <= i < decimal(n).len() ==> digit(#[trigger] decimal(n)[i]),
        n >= 1 ==> decimal(n)[0] != 48,
    decreases n,
{
    if n >= 10 {
        lemma_decimal_digits(n / 10);
        assert forall|i: int| 0 <= i < decimal(n).len() implies digit(#[trigger] decimal(n)[i]) by {
            if i < decimal(n / 10).len() {
                assert(decimal(n)[i] == decimal(n / 10)[i]);
            }
        }
        assert(decimal(n)[0] == decimal(n / 10)[0]);
    }
}

proof fn lemma_decimal_number(n: nat)
    ensures
        integer_text(decimal(n)),
{
    lemma_decimal_digits(n);
}

proof fn lemma_signed_number(x: int)
    ensures
        integer_text(signed_decimal(x)),
{
    if x < 0 {
        let t = signed_decimal(x);
        lemma_decimal_digits((-x) as nat);
        assert(t.drop_first() =~= decimal((-x) as nat));
    } else {
        lemma_decimal_digits(x as nat);
    }
}

/// Bytes that stand for themselves in a JSON string.
pub open spec fn plain_text(s: Seq<u8>) -> bool {
    forall|i: int| 0 <= i < s.len() ==> #[trigger] s[i] >= 32 && s[i] != 34 && s[i] != 92
}

proof fn lemma_plain_body(s: Seq<u8>)
    requires
        plain_text(s),
    ensures
        json_string_body(s),
    decreases s.len(),
{
    if s.len() > 0 {
        assert(plain_text(s.drop_first())) by {
            assert forall|i: int| 0 <= i < s.drop_first().len() implies #[trigger] s.drop_first()[i] >= 32
                && s.drop_first()[i] != 34 && s.drop_first()[i] != 92 by {
                assert(s.drop_first()[i] == s[i + 1]);
            }
        }
        lemma_plain_body(s.drop_first());
    }
}

pub open spec fn k_type() -> Seq<u8> {
    seq![116u8, 121, 112, 101]
}

pub open spec fn k_name() -> Seq<u8> {
    seq![110u8, 97, 109, 101]
}

pub open spec fn k_info() -> Seq<u8> {
    seq![105u8, 110, 102, 111]
}

pub open spec fn k_target() -> Seq<u8> {
    seq![116u8, 97, 114, 103, 101, 116]
}

pub open spec fn k_inode() -> Seq<u8> {
    seq![105u8, 110, 111, 100, 101]
}

pub open spec fn k_dev() -> Seq<u8> {
    seq![100u8, 101, 118]
}

pub open spec fn k_size() -> Seq<u8> {
    seq![115u8, 105, 122, 101]
}

pub open spec fn k_mode() -> Seq<u8> {
    seq![109u8, 111, 100, 101]
}

pub open spec fn k_prot() -> Seq<u8> {
    seq![112u8, 114, 111, 116]
}

/// A member holding a string, with no white space.
pub open spec fn str_member(key: Seq<u8>, body: Seq<u8>) -> Member {
    Member { pre: Seq::empty(), key, gap: Seq::empty(), value: Json::Str(body), post: Seq::empty() }
}

/// A member holding a number, with no white space.
pub open spec fn num_member(key: Seq<u8>, t: Seq<u8>) -> Member {
    Member { pre: Seq::empty(), key, gap: Seq::empty(), value: Json::Num(t), post: Seq::empty() }
}

/// `m` when `c` holds, else nothing.
pub open spec fn opt_member(c: bool, m: Member) -> Seq<Member> {
    if c {
        seq![m]
    } else {
        Seq::empty()
    }
}

/// The metadata members of an entry (see `json_info`).
pub open spec fn info_members(m: Meta, o: Options) -> Seq<Member> {
    opt_member(o.show_inode, num_member(k_inode(), decimal(m.fino as nat))) + opt_member(
        o.show_device,
        num_member(k_dev(), signed_decimal((m.fdev as i32) as int)),
    ) + perm_members(m, o) + opt_member(o.show_size, num_member(k_size(), signed_decimal(m.size as int)))
}

/// The mode and permission members of an entry (see `perms_member`).
pub open spec fn perm_members(m: Meta, o: Options) -> Seq<Member> {
    opt_member(o.show_perms, str_member(k_mode(), octal4(m.mode))) + opt_member(
        o.show_perms,
        str_member(k_prot(), perm_text(m.mode)),
    )
}

/// The member of an entry's comment lines, if it has any.
pub open spec fn comment_members(comment: Option<Vec<Vec<u8>>>) -> Seq<Member> {
    match comment {
        Some(lines) => seq![str_member(k_info(), info_lines(lines@, lines@.len() as int))],
        None => Seq::empty(),
    }
}

/// The member of a symlink's target, if it is one.
pub open spec fn link_members(link: Option<Vec<u8>>) -> Seq<Member> {
    match link {
        Some(t) => seq![str_member(k_target(), json_encoded(t@))],
        None => Seq::empty(),
    }
}

/// The members of an entry's object before its contents: type, name,
/// comment lines, link target, metadata.
#[verifier::opaque]
pub open spec fn head_members(kind: Seq<u8>, display: Seq<u8>, comment: Option<Vec<Vec<u8>>>, link: Option<Vec<u8>>, m: Meta, o: Options) -> Seq<Member> {
    seq![str_member(k_type(), kind), str_member(k_name(), json_encoded(display))] + comment_members(comment)
        + link_members(link) + info_members(m, o)
}

/// The text of an entry's object before its contents, as the listing
/// writes it (without the indent).
#[verifier::opaque]
pub open spec fn head_text(kind: Seq<u8>, display: Seq<u8>, comment: Option<Vec<Vec<u8>>>, link: Option<Vec<u8>>, m: Meta, o: Options) -> Seq<u8> {
    j_type_open() + kind + dquote() + j_name() + json_encoded(display) + dquote() + info_part(comment)
        + target_part(link) + json_info(m, o)
}

proof fn lemma_members_push(ms: Seq<Member>, m: Member)
    requires
        ms.len() > 0,
    ensures
        render_members(ms.push(m)) == render_members(ms) + seq![44u8] + render_member(m),
        members_ok(ms.push(m)) == (members_ok(ms) && member_ok(m)),
{
    assert(ms.push(m).drop_last() =~= ms);
}

proof fn lemma_members_opt(ms: Seq<Member>, c: bool, m: Member)
    requires
        ms.len() > 0,
    ensures
        render_members(ms + opt_member(c, m)) == render_members(ms) + if c {
            seq![44u8] + render_member(m)
        } else {
            Seq::<u8>::empty()
        },
        members_ok(ms + opt_member(c, m)) == (members_ok(ms) && (c ==> member_ok(m))),
        (ms + opt_member(c, m)).len() > 0,
{
    if c {
        assert(ms + opt_member(c, m) =~= ms.push(m));
        lemma_members_push(ms, m);
    } else {
        assert(ms + opt_member(c, m) =~= ms);
        assert(render_members(ms) + Seq::<u8>::empty() =~= render_members(ms));
    }
}

proof fn lemma_plain_kind(mode: u32)
    ensures
        json_string_body(mode_kind(mode)),
{
    assert(plain_text(t_file()));
    assert(plain_text(t_directory()));
    assert(plain_text(t_link()));
    assert(plain_text(t_char()));
    assert(plain_text(t_block()));
    assert(plain_text(t_socket()));
    assert(plain_text(t_fifo()));
    assert(plain_text(t_unknown()));
    lemma_plain_body(mode_kind(mode));
}

proof fn lemma_keys()
    ensures
        json_string_body(k_type()),
        json_string_body(k_name()),
        json_string_body(k_info()),
        json_string_body(k_target()),
        json_string_body(k_inode()),
        json_string_body(k_dev()),
        json_string_body(k_size()),
        json_string_body(k_mode()),
        json_string_body(k_prot()),
{
    assert(plain_text(k_mode()));
    assert(plain_text(k_prot()));
    lemma_plain_body(k_mode());
    lemma_plain_body(k_prot());
    assert(plain_text(k_type()));
    assert(plain_text(k_name()));
    assert(plain_text(k_info()));
    assert(plain_text(k_target()));
    assert(plain_text(k_inode()));
    assert(plain_text(k_dev()));
    assert(plain_text(k_size()));
    lemma_plain_body(k_type());
    lemma_plain_body(k_name());
    lemma_plain_body(k_info());
    lemma_plain_body(k_target());
    lemma_plain_body(k_inode());
    lemma_plain_body(k_dev());
    lemma_plain_body(k_size());
}

proof fn lemma_info_lines(lines: Seq<Vec<u8>>, n: int)
    requires
    ensures
        json_string_body(info_lines(lines, n)),
    decreases lines.len(),
{
    if lines.len() == 0 {
        assert(json_string_body(Seq::<u8>::empty()));
    } else {
        lemma_info_lines(lines.drop_last(), n);
        let l = lines.last()@;
        law_json_encoding_valid(l);
        lemma_body_concat(info_lines(lines.drop_last(), n), json_encoded(l));
        let tail = if lines.len() < n {
            escaped_nl()
        } else {
            Seq::<u8>::empty()
        };
        assert(json_string_body(escaped_nl())) by {
            assert(json_string_body(Seq::<u8>::empty()));
            assert(escaped_nl().subrange(2, 2) =~= Seq::<u8>::empty());
        }
        assert(json_string_body(Seq::<u8>::empty()));
        lemma_body_concat(info_lines(lines.drop_last(), n) + json_encoded(l), tail);
    }
}

proof fn lemma_base(kind: Seq<u8>, display: Seq<u8>)
    requires
        json_string_body(kind),
    ensures
        ({
            let base = seq![str_member(k_type(), kind), str_member(k_name(), json_encoded(display))];
            &&& seq![123u8] + render_members(base) == j_type_open() + kind + dquote() + j_name() + json_encoded(
                display,
            ) + dquote()
            &&& members_ok(base)
        }),
{
    lemma_keys();
    law_json_encoding_valid(display);
    let m0 = str_member(k_type(), kind);
    let m1 = str_member(k_name(), json_encoded(display));
    let base = seq![m0, m1];
    assert(base.drop_last() =~= seq![m0]);
    assert(base.last() == m1);
    assert(render_members(seq![m0]) == render_member(m0));
    assert(render_members(base) == render_member(m0) + seq![44u8] + render_member(m1));
    assert(well_formed(m0.value));
    assert(member_ok(m0));
    assert(well_formed(m1.value));
    assert(member_ok(m1));
    assert(members_ok(seq![m0]) == member_ok(m0)) by {
        assert(members_ok(Seq::<Member>::empty()));
        assert(seq![m0].drop_last() =~= Seq::<Member>::empty());
    }
    assert(members_ok(base));
    assert(seq![123u8] + render_members(base) =~= j_type_open() + kind + dquote() + j_name() + json_encoded(display)
        + dquote());
}

proof fn lemma_comment_part(ms: Seq<Member>, comment: Option<Vec<Vec<u8>>>)
    requires
        ms.len() > 0,
        members_ok(ms),
    ensures
        render_members(ms + comment_members(comment)) == render_members(ms) + info_part(comment),
        members_ok(ms + comment_members(comment)),
        (ms + comment_members(comment)).len() > 0,
{
    match comment {
        Some(lines) => {
            let mi = str_member(k_info(), info_lines(lines@, lines@.len() as int));
            lemma_keys();
            lemma_info_lines(lines@, lines@.len() as int);
            assert(well_formed(mi.value));
            lemma_members_opt(ms, true, mi);
            assert(comment_members(comment) == opt_member(true, mi));
            assert(seq![44u8] + render_member(mi) =~= info_part(comment));
        },
        None => {
            assert(ms + comment_members(comment) =~= ms);
            assert(render_members(ms) + info_part(comment) =~= render_members(ms));
        },
    }
}

proof fn lemma_link_part(ms: Seq<Member>, link: Option<Vec<u8>>)
    requires
        ms.len() > 0,
        members_ok(ms),
    ensures
        render_members(ms + link_members(link)) == render_members(ms) + target_part(link),
        members_ok(ms + link_members(link)),
        (ms + link_members(link)).len() > 0,
{
    match link {
        Some(t) => {
            let mt = str_member(k_target(), json_encoded(t@));
            lemma_keys();
            law_json_encoding_valid(t@);
            assert(well_formed(mt.value));
            lemma_members_opt(ms, true, mt);
            assert(link_members(link) == opt_member(true, mt));
            assert(seq![44u8] + render_member(mt) =~= target_part(link));
        },
        None => {
            assert(ms + link_members(link) =~= ms);
            assert(render_members(ms) + target_part(link) =~= render_members(ms));
        },
    }
}

proof fn lemma_num_part(ms: Seq<Member>, c: bool, key: Seq<u8>, t: Seq<u8>, text: Seq<u8>)
    requires
        ms.len() > 0,
        members_ok(ms),
        json_string_body(key),
        integer_text(t),
        text == if c {
            seq![44u8, 34u8] + key + seq![34u8, 58u8] + t
        } else {
            Seq::<u8>::empty()
        },
    ensures
        render_members(ms + opt_member(c, num_member(key, t))) == render_members(ms) + text,
        members_ok(ms + opt_member(c, num_member(key, t))),
        (ms + opt_member(c, num_member(key, t))).len() > 0,
{
    let mm = num_member(key, t);
    assert(well_formed(mm.value));
    lemma_members_opt(ms, c, mm);
    if c {
        assert(seq![44u8] + render_member(mm) =~= text);
    } else {
        assert(render_members(ms) + text =~= render_members(ms));
    }
}

proof fn lemma_str_part(ms: Seq<Member>, c: bool, key: Seq<u8>, body: Seq<u8>)
    requires
        ms.len() > 0,
        members_ok(ms),
        json_string_body(key),
        json_string_body(body),
    ensures
        render_members(ms + opt_member(c, str_member(key, body))) == render_members(ms) + if c {
            seq![44u8, 34u8] + key + seq![34u8, 58u8, 34u8] + body + seq![34u8]
        } else {
            Seq::<u8>::empty()
        },
        members_ok(ms + opt_member(c, str_member(key, body))),
        (ms + opt_member(c, str_member(key, body))).len() > 0,
{
    let mm = str_member(key, body);
    assert(well_formed(mm.value));
    lemma_members_opt(ms, c, mm);
    if c {
        assert(seq![44u8] + render_member(mm) =~= seq![44u8, 34u8] + key + seq![34u8, 58u8, 34u8] + body + seq![34u8]);
    }
}

proof fn lemma_perm_bodies(mode: u32)
    ensures
        json_string_body(octal4(mode)),
        json_string_body(perm_text(mode)),
{
    reveal(octal4);
    reveal(perm_text);
    let p = (mode & 0o7777u32) as int;
    assert(plain_text(octal4(mode)));
    assert(plain_text(perm_text(mode)));
    lemma_plain_body(octal4(mode));
    lemma_plain_body(perm_text(mode));
}

proof fn lemma_perms_part(ms: Seq<Member>, m: Meta, o: Options)
    requires
        ms.len() > 0,
        members_ok(ms),
    ensures
        render_members(ms + perm_members(m, o)) == render_members(ms) + perms_member(m, o),
        members_ok(ms + perm_members(m, o)),
        (ms + perm_members(m, o)).len() > 0,
{
    lemma_keys();
    lemma_perm_bodies(m.mode);
    let b1 = ms + opt_member(o.show_perms, str_member(k_mode(), octal4(m.mode)));
    let b2 = b1 + opt_member(o.show_perms, str_member(k_prot(), perm_text(m.mode)));
    lemma_str_part(ms, o.show_perms, k_mode(), octal4(m.mode));
    lemma_str_part(b1, o.show_perms, k_prot(), perm_text(m.mode));
    reveal(perms_member);
    assert(b2 =~= ms + perm_members(m, o));
    assert(render_members(b2) =~= render_members(ms) + perms_member(m, o));
}

#[verifier::spinoff_prover]
#[verifier::rlimit(60)]
proof fn lemma_info_part(ms: Seq<Member>, m: Meta, o: Options)
    requires
        ms.len() > 0,
        members_ok(ms),
    ensures
        render_members(ms + info_members(m, o)) == render_members(ms) + json_info(m, o),
        members_ok(ms + info_members(m, o)),
        (ms + info_members(m, o)).len() > 0,
{
    lemma_keys();
    let ti = decimal(m.fino as nat);
    let td = signed_decimal((m.fdev as i32) as int);
    let tz = signed_decimal(m.size as int);
    lemma_decimal_number(m.fino as nat);
    lemma_signed_number((m.fdev as i32) as int);
    lemma_signed_number(m.size as int);
    assert(inode_member(m, o) =~= if o.show_inode {
        seq![44u8, 34u8] + k_inode() + seq![34u8, 58u8] + ti
    } else {
        Seq::<u8>::empty()
    });
    assert(dev_member(m, o) =~= if o.show_device {
        seq![44u8, 34u8] + k_dev() + seq![34u8, 58u8] + td
    } else {
        Seq::<u8>::empty()
    });
    assert(size_member(m, o) =~= if o.show_size {
        seq![44u8, 34u8] + k_size() + seq![34u8, 58u8] + tz
    } else {
        Seq::<u8>::empty()
    });
    let a1 = ms + opt_member(o.show_inode, num_member(k_inode(), ti));
    let a2 = a1 + opt_member(o.show_device, num_member(k_dev(), td));
    let b2 = a2 + perm_members(m, o);
    let a3 = b2 + opt_member(o.show_size, num_member(k_size(), tz));
    lemma_num_part(ms, o.show_inode, k_inode(), ti, inode_member(m, o));
    lemma_num_part(a1, o.show_device, k_dev(), td, dev_member(m, o));
    lemma_perms_part(a2, m, o);
    lemma_num_part(b2, o.show_size, k_size(), tz, size_member(m, o));
    assert(a3 =~= ms + info_members(m, o));
    let r0 = render_members(ms);
    assert(render_members(a3) == r0 + inode_member(m, o) + dev_member(m, o) + perms_member(m, o) + size_member(m, o));
    assert(r0 + inode_member(m, o) + dev_member(m, o) + perms_member(m, o) + size_member(m, o) =~= r0 + json_info(m, o));
}

#[verifier::spinoff_prover]
#[verifier::rlimit(40)]
proof fn lemma_head(kind: Seq<u8>, display: Seq<u8>, comment: Option<Vec<Vec<u8>>>, link: Option<Vec<u8>>, m: Meta, o: Options)
    requires
        json_string_body(kind),
    ensures
        seq![123u8] + render_members(head_members(kind, display, comment, link, m, o)) == head_text(
            kind,
            display,
            comment,
            link,
            m,
            o,
        ),
        members_ok(head_members(kind, display, comment, link, m, o)),
        head_members(kind, display, comment, link, m, o).len() > 0,
{
    reveal(head_members);
    reveal(head_text);
    let base = seq![str_member(k_type(), kind), str_member(k_name(), json_encoded(display))];
    lemma_base(kind, display);
    lemma_comment_part(base, comment);
    let b1 = base + comment_members(comment);
    lemma_link_part(b1, link);
    let b2 = b1 + link_members(link);
    lemma_info_part(b2, m, o);
    assert(b2 + info_members(m, o) =~= head_members(kind, display, comment, link, m, o));
    let t0 = j_type_open() + kind + dquote() + j_name() + json_encoded(display) + dquote();
    assert(seq![123u8] + render_members(b1) =~= t0 + info_part(comment));
    assert(seq![123u8] + render_members(b2) =~= t0 + info_part(comment) + target_part(link));
    assert(seq![123u8] + render_members(b2 + info_members(m, o)) =~= t0 + info_part(comment) + target_part(link)
        + json_info(m, o));
}

pub open spec fn k_contents() -> Seq<u8> {
    seq![99u8, 111, 110, 116, 101, 110, 116, 115]
}

pub open spec fn k_error() -> Seq<u8> {
    seq![101u8, 114, 114, 111, 114]
}

/// An error object: `{"error": "text"}`.
pub open spec fn error_json(e: Seq<u8>) -> Json {
    Json::Obj(
        seq![Member { pre: Seq::empty(), key: k_error(), gap: seq![32u8], value: Json::Str(e), post: Seq::empty() }],
        Seq::empty(),
    )
}

/// The contents member of an entry holding the array `a`.
pub open spec fn contents_member(a: Json) -> Member {
    Member { pre: Seq::empty(), key: k_contents(), gap: Seq::empty(), value: a, post: Seq::empty() }
}

/// How an entry is named in the listing.
pub open spec fn display_of(node: Node, parent: Seq<u8>, o: Options) -> Seq<u8> {
    if o.full_path {
        joined(parent, node.name@)
    } else {
        node.name@
    }
}

/// The members of an entry's object before its contents.
pub open spec fn node_head_members(node: Node, parent: Seq<u8>, o: Options) -> Seq<Member> {
    head_members(mode_kind(node.meta.mode), display_of(node, parent, o), node.comment, node.link, node.meta, o)
}

/// An entry's object, as the listing writes it.
#[verifier::opaque]
pub open spec fn node_json(node: Node, parent: Seq<u8>, level: int, o: Options) -> Json
    decreases node,
{
    let head = node_head_members(node, parent, o);
    let close = if node.children is Some || recursive_tag(node, o) {
        level
    } else {
        -1
    };
    match node.children {
        Some(ch) => Json::Obj(
            head.push(
                contents_member(
                    if ch@.len() == 0 {
                        Json::Arr(Seq::empty(), nl(o) + json_indent(level, o))
                    } else {
                        Json::Arr(
                            child_items(ch@, ch@.len() as int, joined(parent, node.name@), level + 1, level, o),
                            Seq::empty(),
                        )
                    },
                ),
            ),
            Seq::empty(),
        ),
        None => match node.err {
            Some(e) => Json::Obj(
                head.push(
                    contents_member(
                        Json::Arr(
                            seq![Item { pre: Seq::empty(), value: error_json(e@), post: json_indent(close, o) }],
                            Seq::empty(),
                        ),
                    ),
                ),
                Seq::empty(),
            ),
            None => Json::Obj(head, Seq::empty()),
        },
    }
}

/// The array items of the entries `nodes` (the first of `total`): each
/// on its own line, the last followed by the closing indent.
#[verifier::opaque]
pub open spec fn child_items(nodes: Seq<Node>, total: int, parent: Seq<u8>, level: int, close: int, o: Options) -> Seq<Item>
    decreases nodes,
{
    if nodes.len() == 0 {
        Seq::empty()
    } else {
        child_items(nodes.drop_last(), total, parent, level, close, o).push(
            Item {
                pre: nl(o) + json_indent(level, o),
                value: node_json(nodes.last(), parent, level, o),
                post: if nodes.len() == total {
                    nl(o) + json_indent(close, o)
                } else {
                    Seq::empty()
                },
            },
        )
    }
}

/// Entries the JSON listing can write as JSON: annotations that are
/// string bodies already, and no entry both annotated and listed (names,
/// link targets and comment lines are encoded, whatever bytes they hold).
pub open spec fn ready_nodes(nodes: Seq<Node>) -> bool
    decreases nodes,
{
    if nodes.len() == 0 {
        true
    } else {
        ready_nodes(nodes.drop_last()) && ready_node(nodes.last())
    }
}

/// See `ready_nodes`.
pub open spec fn ready_node(n: Node) -> bool
    decreases n,
{
    &&& n.err matches Some(e) ==> json_string_body(e@)
    &&& !(n.err is Some && n.children is Some)
    &&& match n.children {
        Some(c) => ready_nodes(c@),
        None => true,
    }
}

proof fn lemma_error_json(e: Seq<u8>)
    requires
        json_string_body(e),
    ensures
        render(error_json(e)) == j_error_open() + e + j_error_close(),
        well_formed(error_json(e)),
{
    let em = Member { pre: Seq::<u8>::empty(), key: k_error(), gap: seq![32u8], value: Json::Str(e), post: Seq::<u8>::empty() };
    assert(plain_text(k_error()));
    lemma_plain_body(k_error());
    assert(render_members(seq![em]) == render_member(em));
    assert(members_ok(seq![em])) by {
        assert(members_ok(Seq::<Member>::empty()));
        assert(seq![em].drop_last() =~= Seq::<Member>::empty());
        assert(well_formed(em.value));
        assert(blank(seq![32u8]));
        assert(member_ok(em));
    }
    assert(render(error_json(e)) =~= j_error_open() + e + j_error_close());
}

proof fn lemma_obj_plain(head: Seq<Member>, htext: Seq<u8>)
    requires
        head.len() > 0,
        seq![123u8] + render_members(head) == htext,
    ensures
        render(Json::Obj(head, Seq::empty())) == htext + close_brace(),
{
    assert(render(Json::Obj(head, Seq::empty())) =~= htext + close_brace());
}

proof fn lemma_obj_with(head: Seq<Member>, htext: Seq<u8>, a: Json)
    requires
        head.len() > 0,
        seq![123u8] + render_members(head) == htext,
    ensures
        render(Json::Obj(head.push(contents_member(a)), Seq::empty())) == htext + seq![44u8, 34u8] + k_contents()
            + seq![34u8, 58u8] + render(a) + seq![125u8],
{
    lemma_members_push(head, contents_member(a));
    assert(render(Json::Obj(head.push(contents_member(a)), Seq::empty())) =~= htext + seq![44u8, 34u8] + k_contents()
        + seq![34u8, 58u8] + render(a) + seq![125u8]);
}

proof fn lemma_contents_ok(head: Seq<Member>, a: Json)
    requires
        head.len() > 0,
        members_ok(head),
        well_formed(a),
    ensures
        members_ok(head.push(contents_member(a))),
{
    assert(plain_text(k_contents()));
    lemma_plain_body(k_contents());
    assert(blank(Seq::<u8>::empty()));
    assert(member_ok(contents_member(a)));
    lemma_members_push(head, contents_member(a));
}

/// The shared part of an entry's object: the head members and their
/// text.
proof fn lemma_node_head(node: Node, parent: Seq<u8>, level: int, o: Options)
    requires
        ready_node(node),
    ensures
        ({
            let head = node_head_members(node, parent, o);
            let htext = head_text(mode_kind(node.meta.mode), display_of(node, parent, o), node.comment, node.link, node.meta, o);
            &&& node_head(node, parent, level, o) == json_indent(level, o) + htext
            &&& seq![123u8] + render_members(head) == htext
            &&& members_ok(head)
            &&& head.len() > 0
        }),
{
    let display = display_of(node, parent, o);
    let kind = mode_kind(node.meta.mode);
    lemma_plain_kind(node.meta.mode);
    lemma_head(kind, display, node.comment, node.link, node.meta, o);
    reveal(head_text);
    assert(node_head(node, parent, level, o) =~= json_indent(level, o) + head_text(kind, display, node.comment, node.link, node.meta, o));
}

#[verifier::spinoff_prover]
proof fn lemma_node_plain(node: Node, parent: Seq<u8>, level: int, more: bool, o: Options)
    requires
        ready_node(node),
        node.children is None,
        node.err is None,
    ensures
        json_node(node, parent, level, more, o) == json_indent(level, o) + render(node_json(node, parent, level, o))
            + comma_if(more) + nl(o),
        well_formed(node_json(node, parent, level, o)),
{
    let head = node_head_members(node, parent, o);
    let htext = head_text(mode_kind(node.meta.mode), display_of(node, parent, o), node.comment, node.link, node.meta, o);
    lemma_node_head(node, parent, level, o);
    lemma_obj_plain(head, htext);
    assert(blank(Seq::<u8>::empty()));
    reveal(node_json);
    assert(node_json(node, parent, level, o) == Json::Obj(head, Seq::empty()));
    assert(json_node(node, parent, level, more, o) =~= json_indent(level, o) + render(node_json(node, parent, level, o))
        + comma_if(more) + nl(o));
}

proof fn lemma_assembly(
    ind: Seq<u8>,
    htext: Seq<u8>,
    ep: Seq<u8>,
    jc: Seq<u8>,
    ic: Seq<u8>,
    t: Seq<u8>,
    ra: Seq<u8>,
    inner: Seq<u8>,
    jn: Seq<u8>,
    rn: Seq<u8>,
)
    requires
        jn == ind + htext + j_contents() + ep + jc + (ic + j_close() + t),
        ra == seq![91u8] + inner + seq![93u8],
        inner == ep + jc + ic,
        rn == htext + seq![44u8, 34u8] + k_contents() + seq![34u8, 58u8] + ra + seq![125u8],
    ensures
        jn == ind + rn + t,
{
    assert(jn =~= ind + rn + t);
}

#[verifier::spinoff_prover]
proof fn lemma_node_err(node: Node, parent: Seq<u8>, level: int, more: bool, o: Options)
    requires
        ready_node(node),
        node.children is None,
        node.err is Some,
    ensures
        json_node(node, parent, level, more, o) == json_indent(level, o) + render(node_json(node, parent, level, o))
            + comma_if(more) + nl(o),
        well_formed(node_json(node, parent, level, o)),
{
    let head = node_head_members(node, parent, o);
    let htext = head_text(mode_kind(node.meta.mode), display_of(node, parent, o), node.comment, node.link, node.meta, o);
    let e = node.err.unwrap();
    let close = if recursive_tag(node, o) {
        level
    } else {
        -1
    };
    lemma_node_head(node, parent, level, o);
    lemma_error_json(e@);
    lemma_indent_blank(close, o);
    assert(blank(Seq::<u8>::empty()));
    let it = Item { pre: Seq::<u8>::empty(), value: error_json(e@), post: json_indent(close, o) };
    let a = Json::Arr(seq![it], Seq::empty());
    assert(render_items(seq![it]) == render_item(it));
    assert(items_ok(seq![it])) by {
        assert(items_ok(Seq::<Item>::empty()));
        assert(seq![it].drop_last() =~= Seq::<Item>::empty());
        assert(item_ok(it));
    }
    assert(well_formed(a));
    lemma_obj_with(head, htext, a);
    lemma_contents_ok(head, a);
    reveal(node_json);
    assert(node_json(node, parent, level, o) == Json::Obj(head.push(contents_member(a)), Seq::empty()));
    let inner = j_error_open() + e@ + j_error_close() + Seq::<u8>::empty() + json_indent(close, o);
    assert(render(a) =~= seq![91u8] + inner + seq![93u8]);
    let jn = json_node(node, parent, level, more, o);
    assert(jn == node_head(node, parent, level, o) + contents_open(true) + error_part(node.err) + json_children(
        node.children,
        joined(parent, node.name@),
        level + 1,
        o,
    ) + node_close(true, close, more, o));
    assert(jn =~= json_indent(level, o) + htext + j_contents() + (j_error_open() + e@ + j_error_close())
        + Seq::<u8>::empty() + (json_indent(close, o) + j_close() + (comma_if(more) + nl(o))));
    lemma_assembly(
        json_indent(level, o),
        htext,
        j_error_open() + e@ + j_error_close(),
        Seq::<u8>::empty(),
        json_indent(close, o),
        comma_if(more) + nl(o),
        render(a),
        inner,
        jn,
        render(node_json(node, parent, level, o)),
    );
    assert(json_indent(level, o) + render(node_json(node, parent, level, o)) + (comma_if(more) + nl(o)) =~= json_indent(
        level,
        o,
    ) + render(node_json(node, parent, level, o)) + comma_if(more) + nl(o));
}

#[verifier::spinoff_prover]
proof fn lemma_node_empty(node: Node, parent: Seq<u8>, level: int, more: bool, o: Options)
    requires
        ready_node(node),
        node.children matches Some(ch) && ch@.len() == 0,
    ensures
        json_node(node, parent, level, more, o) == json_indent(level, o) + render(node_json(node, parent, level, o))
            + comma_if(more) + nl(o),
        well_formed(node_json(node, parent, level, o)),
{
    let head = node_head_members(node, parent, o);
    let htext = head_text(mode_kind(node.meta.mode), display_of(node, parent, o), node.comment, node.link, node.meta, o);
    let ch = node.children.unwrap();
    let path = joined(parent, node.name@);
    lemma_node_head(node, parent, level, o);
    lemma_indent_blank(level, o);
    lemma_blank_concat(nl(o), json_indent(level, o));
    let a = Json::Arr(Seq::<Item>::empty(), nl(o) + json_indent(level, o));
    assert(items_ok(Seq::<Item>::empty()));
    assert(well_formed(a));
    lemma_obj_with(head, htext, a);
    lemma_contents_ok(head, a);
    reveal(node_json);
    assert(node_json(node, parent, level, o) == Json::Obj(head.push(contents_member(a)), Seq::empty()));
    assert(json_seq(ch@, 0, path, level + 1, o) == Seq::<u8>::empty());
    assert(json_children(node.children, path, level + 1, o) =~= nl(o));
    let inner = Seq::<u8>::empty() + nl(o) + json_indent(level, o);
    assert(render(a) =~= seq![91u8] + inner + seq![93u8]);
    let jn = json_node(node, parent, level, more, o);
    assert(jn == node_head(node, parent, level, o) + contents_open(true) + error_part(node.err) + json_children(
        node.children,
        path,
        level + 1,
        o,
    ) + node_close(true, level, more, o));
    assert(jn =~= json_indent(level, o) + htext + j_contents() + Seq::<u8>::empty() + nl(o) + (json_indent(level, o)
        + j_close() + (comma_if(more) + nl(o))));
    lemma_assembly(
        json_indent(level, o),
        htext,
        Seq::<u8>::empty(),
        nl(o),
        json_indent(level, o),
        comma_if(more) + nl(o),
        render(a),
        inner,
        jn,
        render(node_json(node, parent, level, o)),
    );
    assert(json_indent(level, o) + render(node_json(node, parent, level, o)) + (comma_if(more) + nl(o)) =~= json_indent(
        level,
        o,
    ) + render(node_json(node, parent, level, o)) + comma_if(more) + nl(o));
}

#[verifier::spinoff_prover]
proof fn lemma_node_listed(node: Node, parent: Seq<u8>, level: int, more: bool, o: Options)
    requires
        ready_node(node),
        node.children matches Some(ch) && ch@.len() > 0 && ({
            let items = child_items(ch@, ch@.len() as int, joined(parent, node.name@), level + 1, level, o);
            &&& items_ok(items)
            &&& items.len() > 0
            &&& nl(o) + json_seq(ch@, ch@.len() as int, joined(parent, node.name@), level + 1, o) + json_indent(level, o)
                == render_items(items)
        }),
    ensures
        json_node(node, parent, level, more, o) == json_indent(level, o) + render(node_json(node, parent, level, o))
            + comma_if(more) + nl(o),
        well_formed(node_json(node, parent, level, o)),
{
    let head = node_head_members(node, parent, o);
    let htext = head_text(mode_kind(node.meta.mode), display_of(node, parent, o), node.comment, node.link, node.meta, o);
    let ch = node.children.unwrap();
    let path = joined(parent, node.name@);
    let items = child_items(ch@, ch@.len() as int, path, level + 1, level, o);
    lemma_node_head(node, parent, level, o);
    assert(blank(Seq::<u8>::empty()));
    let a = Json::Arr(items, Seq::empty());
    assert(well_formed(a));
    lemma_obj_with(head, htext, a);
    lemma_contents_ok(head, a);
    reveal(node_json);
    assert(node_json(node, parent, level, o) == Json::Obj(head.push(contents_member(a)), Seq::empty()));
    let sq = json_seq(ch@, ch@.len() as int, path, level + 1, o);
    assert(json_children(node.children, path, level + 1, o) == nl(o) + sq);
    assert(render(a) == seq![91u8] + render_items(items) + seq![93u8]);
    let inner = Seq::<u8>::empty() + (nl(o) + sq) + json_indent(level, o);
    assert(inner =~= nl(o) + sq + json_indent(level, o));
    let jn = json_node(node, parent, level, more, o);
    assert(jn == node_head(node, parent, level, o) + contents_open(true) + error_part(node.err) + json_children(
        node.children,
        path,
        level + 1,
        o,
    ) + node_close(true, level, more, o));
    assert(jn =~= json_indent(level, o) + htext + j_contents() + Seq::<u8>::empty() + (nl(o) + sq) + (json_indent(level, o)
        + j_close() + (comma_if(more) + nl(o))));
    lemma_assembly(
        json_indent(level, o),
        htext,
        Seq::<u8>::empty(),
        nl(o) + sq,
        json_indent(level, o),
        comma_if(more) + nl(o),
        render(a),
        inner,
        jn,
        render(node_json(node, parent, level, o)),
    );
    assert(json_indent(level, o) + render(node_json(node, parent, level, o)) + (comma_if(more) + nl(o)) =~= json_indent(
        level,
        o,
    ) + render(node_json(node, parent, level, o)) + comma_if(more) + nl(o));
}

proof fn lemma_node(node: Node, parent: Seq<u8>, level: int, more: bool, o: Options)
    requires
        ready_node(node),
    ensures
        json_node(node, parent, level, more, o) == json_indent(level, o) + render(node_json(node, parent, level, o))
            + comma_if(more) + nl(o),
        well_formed(node_json(node, parent, level, o)),
    decreases node,
{
    match node.children {
        Some(ch) => {
            if ch@.len() == 0 {
                lemma_node_empty(node, parent, level, more, o);
            } else {
                assert(decreases_to!(node => ch@));
                lemma_items(ch@, ch@.len() as int, joined(parent, node.name@), level + 1, level, o);
                lemma_node_listed(node, parent, level, more, o);
            }
        },
        None => match node.err {
            Some(e) => lemma_node_err(node, parent, level, more, o),
            None => lemma_node_plain(node, parent, level, more, o),
        },
    }
}

proof fn lemma_step(nl: Seq<u8>, sp: Seq<u8>, rp: Seq<u8>, n: Seq<u8>, ind: Seq<u8>, r: Seq<u8>, t: Seq<u8>, p: Seq<u8>, j: Seq<u8>, more: bool)
    requires
        nl + sp == rp + seq![44u8] + nl,
        n == ind + r + t,
        more ==> t == seq![44u8] + nl && p == Seq::<u8>::empty(),
        !more ==> t == nl && p == nl + j,
    ensures
        more ==> nl + (sp + n) == (rp + seq![44u8] + (nl + ind + r + p)) + seq![44u8] + nl,
        !more ==> nl + (sp + n) + j == rp + seq![44u8] + (nl + ind + r + p),
{
    let x = rp + seq![44u8] + nl;
    assert(nl + (sp + n) =~= (nl + sp) + n);
    assert(nl + (sp + n) == x + n);
    if more {
        assert(x + n =~= (rp + seq![44u8] + (nl + ind + r + p)) + seq![44u8] + nl);
    } else {
        assert(x + n + j =~= rp + seq![44u8] + (nl + ind + r + p));
    }
}

proof fn lemma_first(nl: Seq<u8>, n: Seq<u8>, ind: Seq<u8>, r: Seq<u8>, t: Seq<u8>, p: Seq<u8>, j: Seq<u8>, more: bool)
    requires
        n == ind + r + t,
        more ==> t == seq![44u8] + nl && p == Seq::<u8>::empty(),
        !more ==> t == nl && p == nl + j,
    ensures
        more ==> nl + (Seq::<u8>::empty() + n) == (nl + ind + r + p) + seq![44u8] + nl,
        !more ==> nl + (Seq::<u8>::empty() + n) + j == nl + ind + r + p,
{
    if more {
        assert(nl + (Seq::<u8>::empty() + n) =~= (nl + ind + r + p) + seq![44u8] + nl);
    } else {
        assert(nl + (Seq::<u8>::empty() + n) + j =~= nl + ind + r + p);
    }
}

#[verifier::spinoff_prover]
#[verifier::rlimit(100)]
proof fn lemma_items(nodes: Seq<Node>, total: int, parent: Seq<u8>, level: int, close: int, o: Options)
    requires
        ready_nodes(nodes),
        0 < nodes.len() <= total,
    ensures
        child_items(nodes, total, parent, level, close, o).len() == nodes.len(),
        items_ok(child_items(nodes, total, parent, level, close, o)),
        nodes.len() < total ==> nl(o) + json_seq(nodes, total, parent, level, o) == render_items(
            child_items(nodes, total, parent, level, close, o),
        ) + seq![44u8] + nl(o),
        nodes.len() == total ==> nl(o) + json_seq(nodes, total, parent, level, o) + json_indent(close, o)
            == render_items(child_items(nodes, total, parent, level, close, o)),
    decreases nodes,
{
    let k = nodes.len();
    let last = nodes.last();
    let prev = nodes.drop_last();
    let more = k < total;
    lemma_node(last, parent, level, more, o);
    lemma_indent_blank(level, o);
    lemma_indent_blank(close, o);
    lemma_blank_concat(nl(o), json_indent(level, o));
    lemma_blank_concat(nl(o), json_indent(close, o));
    assert(blank(Seq::<u8>::empty()));
    reveal(child_items);
    let items = child_items(nodes, total, parent, level, close, o);
    let pitems = child_items(prev, total, parent, level, close, o);
    let it = items.last();
    assert(items == pitems.push(it));
    assert(items.drop_last() =~= pitems);
    assert(item_ok(it));
    let r = render(node_json(last, parent, level, o));
    let ind = json_indent(level, o);
    let n = json_node(last, parent, level, more, o);
    assert(n =~= ind + r + (comma_if(more) + nl(o)));
    let sp = json_seq(prev, total, parent, level, o);
    assert(json_seq(nodes, total, parent, level, o) == sp + n);
    assert(render_item(it) == nl(o) + ind + r + it.post);
    if k == 1 {
        assert(pitems.len() == 0);
        assert(items =~= seq![it]);
        assert(items_ok(pitems));
        assert(sp == Seq::<u8>::empty());
        assert(render_items(items) == render_item(it));
        lemma_first(nl(o), n, ind, r, comma_if(more) + nl(o), it.post, json_indent(close, o), more);
    } else {
        lemma_items(prev, total, parent, level, close, o);
        assert(render_items(items) == render_items(pitems) + seq![44u8] + render_item(it));
        lemma_step(nl(o), sp, render_items(pitems), n, ind, r, comma_if(more) + nl(o), it.post, json_indent(close, o), more);
    }
}

/// A root the JSON listing can write as JSON: its entries are ready (see
/// `ready_nodes`); its name may hold any bytes.
pub open spec fn ready_root(r: Root) -> bool {
    &&& r.kind matches RootKind::Opened(c) ==> ready_nodes(c@)
}

/// The members of a root's object before its contents.
pub open spec fn root_head_members(r: Root, o: Options) -> Seq<Member> {
    match r.meta {
        Some(m) => head_members(mode_kind(m.mode), r.name@, None, None, m, o),
        None => seq![str_member(k_type(), mode_kind(0u32)), str_member(k_name(), json_encoded(r.name@))],
    }
}

/// The text of a root's object before its contents.
pub open spec fn root_head_text(r: Root, o: Options) -> Seq<u8> {
    j_type_open() + mode_kind(root_mode(r.meta)) + dquote() + j_name() + json_encoded(r.name@) + dquote() + root_info(
        r.meta,
        o,
    )
}

/// The text of the error a root that was not listed shows.
pub open spec fn root_error(kind: RootKind) -> Seq<u8> {
    match kind {
        RootKind::OverLimit(n) => decimal(n as nat) + over_limit_tail(),
        _ => error_opening(),
    }
}

/// A root's object, as the listing writes it.
#[verifier::opaque]
pub open spec fn root_json(r: Root, o: Options) -> Json {
    let head = root_head_members(r, o);
    match r.kind {
        RootKind::Opened(ch) => if ch@.len() == 0 {
            Json::Obj(head, Seq::empty())
        } else {
            Json::Obj(
                head.push(contents_member(Json::Arr(child_items(ch@, ch@.len() as int, r.name@, 1, 0, o), Seq::empty()))),
                Seq::empty(),
            )
        },
        _ => Json::Obj(
            head.push(
                contents_member(
                    Json::Arr(
                        seq![Item { pre: Seq::empty(), value: error_json(root_error(r.kind)), post: nl(o) + json_indent(0, o) }],
                        Seq::empty(),
                    ),
                ),
            ),
            Seq::empty(),
        ),
    }
}

proof fn lemma_root_head(r: Root, o: Options)
    requires
    ensures
        seq![123u8] + render_members(root_head_members(r, o)) == root_head_text(r, o),
        members_ok(root_head_members(r, o)),
        root_head_members(r, o).len() > 0,
{
    lemma_plain_kind(root_mode(r.meta));
    match r.meta {
        Some(m) => {
            lemma_head(mode_kind(m.mode), r.name@, None, None, m, o);
            reveal(head_text);
            assert(root_head_text(r, o) =~= head_text(mode_kind(m.mode), r.name@, None, None, m, o));
        },
        None => {
            lemma_base(mode_kind(0u32), r.name@);
            assert(root_head_text(r, o) =~= j_type_open() + mode_kind(0u32) + dquote() + j_name() + json_encoded(r.name@)
                + dquote());
        },
    }
}

proof fn lemma_root_error(kind: RootKind)
    ensures
        json_string_body(root_error(kind)),
{
    let e = error_opening();
    assert(plain_text(e)) by {
        assert forall|i: int| 0 <= i < e.len() implies #[trigger] e[i] >= 32 && e[i] != 34 && e[i] != 92 by {
            assert(i == 0 || i == 1 || i == 2 || i == 3 || i == 4 || i == 5 || i == 6 || i == 7 || i == 8 || i == 9
                || i == 10 || i == 11 || i == 12 || i == 13 || i == 14 || i == 15 || i == 16);
        }
    }
    lemma_plain_body(e);
    match kind {
        RootKind::OverLimit(n) => {
            let t = over_limit_tail();
            assert(plain_text(t)) by {
                assert forall|i: int| 0 <= i < t.len() implies #[trigger] t[i] >= 32 && t[i] != 34 && t[i] != 92 by {
                    assert(t[i] == 32 || (97 <= t[i] <= 122) || t[i] == 44);
                }
            }
            lemma_decimal_digits(n as nat);
            let d = decimal(n as nat);
            assert(plain_text(d + t)) by {
                assert forall|i: int| 0 <= i < (d + t).len() implies #[trigger] (d + t)[i] >= 32 && (d + t)[i] != 34
                    && (d + t)[i] != 92 by {
                    if i < d.len() {
                        assert((d + t)[i] == d[i]);
                        assert(digit(d[i]));
                    } else {
                        assert((d + t)[i] == t[i - d.len()]);
                    }
                }
            }
            lemma_plain_body(d + t);
        },
        _ => {},
    }
}

#[verifier::spinoff_prover]
proof fn lemma_root_plain(r: Root, o: Options, more: bool)
    requires
        ready_root(r),
        r.kind matches RootKind::Opened(ch) && ch@.len() == 0,
    ensures
        json_root(r, o, more) == json_indent(0, o) + render(root_json(r, o)) + comma_if(more) + nl(o),
        well_formed(root_json(r, o)),
{
    let head = root_head_members(r, o);
    let htext = root_head_text(r, o);
    lemma_root_head(r, o);
    lemma_obj_plain(head, htext);
    assert(blank(Seq::<u8>::empty()));
    reveal(root_json);
    assert(root_json(r, o) == Json::Obj(head, Seq::empty()));
    assert(json_root(r, o, more) =~= json_indent(0, o) + render(root_json(r, o)) + comma_if(more) + nl(o));
}

#[verifier::spinoff_prover]
#[verifier::rlimit(60)]
proof fn lemma_root_listed(r: Root, o: Options, more: bool)
    requires
        ready_root(r),
        r.kind matches RootKind::Opened(ch) && ch@.len() > 0,
    ensures
        json_root(r, o, more) == json_indent(0, o) + render(root_json(r, o)) + comma_if(more) + nl(o),
        well_formed(root_json(r, o)),
{
    let head = root_head_members(r, o);
    let htext = root_head_text(r, o);
    let ch = match r.kind {
        RootKind::Opened(c) => c,
        _ => arbitrary(),
    };
    lemma_root_head(r, o);
    lemma_items(ch@, ch@.len() as int, r.name@, 1, 0, o);
    let items = child_items(ch@, ch@.len() as int, r.name@, 1, 0, o);
    let a = Json::Arr(items, Seq::empty());
    assert(blank(Seq::<u8>::empty()));
    assert(well_formed(a));
    lemma_obj_with(head, htext, a);
    lemma_contents_ok(head, a);
    reveal(root_json);
    assert(root_json(r, o) == Json::Obj(head.push(contents_member(a)), Seq::empty()));
    let sq = json_seq(ch@, ch@.len() as int, r.name@, 1, o);
    let inner = Seq::<u8>::empty() + (nl(o) + sq) + json_indent(0, o);
    assert(inner =~= nl(o) + sq + json_indent(0, o));
    assert(render(a) == seq![91u8] + inner + seq![93u8]);
    let jn = json_root(r, o, more);
    let body = root_body(r, o, more);
    assert(jn =~= json_indent(0, o) + htext + body);
    assert(body == j_contents() + nl(o) + sq + root_end(o, more));
    assert(jn =~= json_indent(0, o) + htext + j_contents() + Seq::<u8>::empty() + (nl(o) + sq) + (json_indent(0, o)
        + j_close() + (comma_if(more) + nl(o))));
    lemma_assembly(
        json_indent(0, o),
        htext,
        Seq::<u8>::empty(),
        nl(o) + sq,
        json_indent(0, o),
        comma_if(more) + nl(o),
        render(a),
        inner,
        jn,
        render(root_json(r, o)),
    );
    assert(json_indent(0, o) + render(root_json(r, o)) + (comma_if(more) + nl(o)) =~= json_indent(0, o) + render(
        root_json(r, o),
    ) + comma_if(more) + nl(o));
}

#[verifier::spinoff_prover]
#[verifier::rlimit(60)]
proof fn lemma_root_failed(r: Root, o: Options, more: bool)
    requires
        ready_root(r),
        !(r.kind is Opened),
    ensures
        json_root(r, o, more) == json_indent(0, o) + render(root_json(r, o)) + comma_if(more) + nl(o),
        well_formed(root_json(r, o)),
{
    let head = root_head_members(r, o);
    let htext = root_head_text(r, o);
    let e = root_error(r.kind);
    lemma_root_head(r, o);
    lemma_root_error(r.kind);
    lemma_error_json(e);
    lemma_indent_blank(0, o);
    lemma_blank_concat(nl(o), json_indent(0, o));
    assert(blank(Seq::<u8>::empty()));
    let it = Item { pre: Seq::<u8>::empty(), value: error_json(e), post: nl(o) + json_indent(0, o) };
    let a = Json::Arr(seq![it], Seq::empty());
    assert(render_items(seq![it]) == render_item(it));
    assert(items_ok(seq![it])) by {
        assert(items_ok(Seq::<Item>::empty()));
        assert(seq![it].drop_last() =~= Seq::<Item>::empty());
        assert(item_ok(it));
    }
    assert(well_formed(a));
    lemma_obj_with(head, htext, a);
    lemma_contents_ok(head, a);
    reveal(root_json);
    assert(root_json(r, o) == Json::Obj(head.push(contents_member(a)), Seq::empty()));
    let ep = j_error_open() + e + j_error_close();
    let inner = ep + nl(o) + json_indent(0, o);
    assert(render(a) =~= seq![91u8] + inner + seq![93u8]);
    let jn = json_root(r, o, more);
    let body = root_body(r, o, more);
    assert(jn =~= json_indent(0, o) + htext + body);
    assert(body == j_contents() + j_error_open() + e + j_error_close() + nl(o) + root_end(o, more));
    assert(jn =~= json_indent(0, o) + htext + j_contents() + ep + nl(o) + (json_indent(0, o) + j_close() + (comma_if(
        more,
    ) + nl(o))));
    lemma_assembly(
        json_indent(0, o),
        htext,
        ep,
        nl(o),
        json_indent(0, o),
        comma_if(more) + nl(o),
        render(a),
        inner,
        jn,
        render(root_json(r, o)),
    );
    assert(json_indent(0, o) + render(root_json(r, o)) + (comma_if(more) + nl(o)) =~= json_indent(0, o) + render(
        root_json(r, o),
    ) + comma_if(more) + nl(o));
}

proof fn lemma_root(r: Root, o: Options, more: bool)
    requires
        ready_root(r),
    ensures
        json_root(r, o, more) == json_indent(0, o) + render(root_json(r, o)) + comma_if(more) + nl(o),
        well_formed(root_json(r, o)),
{
    match r.kind {
        RootKind::Opened(ch) => if ch@.len() == 0 {
            lemma_root_plain(r, o, more);
        } else {
            lemma_root_listed(r, o, more);
        },
        _ => lemma_root_failed(r, o, more),
    }
}

/// The roots `roots` (the first of `total`) as the JSON listing writes
/// them: each followed by a comma unless it is the last.
pub open spec fn json_roots(roots: Seq<Root>, total: int, o: Options) -> Seq<u8>
    decreases roots.len(),
{
    if roots.len() == 0 {
        Seq::empty()
    } else {
        json_roots(roots.drop_last(), total, o) + json_root(roots.last(), o, roots.len() < total)
    }
}

/// A whole -J listing: the opening bracket, every root, the report
/// unless --noreport, the closing bracket; as `JsonFormatter::intro`,
/// `emit_root` (with `more_roots` for all roots but the last),
/// `emit_report` and `outro` write it.
pub open spec fn json_document(roots: Seq<Root>, t: Totals, o: Options) -> Seq<u8> {
    open_bracket() + nl(o) + json_roots(roots, roots.len() as int, o) + (if o.no_report {
        Seq::empty()
    } else {
        json_report(t, o)
    }) + nl(o) + j_end()
}

/// The array items of the roots `roots` (the first of `total`), the
/// last followed by a line end and `last_post`.
#[verifier::opaque]
pub open spec fn root_items(roots: Seq<Root>, total: int, o: Options, last_post: Seq<u8>) -> Seq<Item>
    decreases roots.len(),
{
    if roots.len() == 0 {
        Seq::empty()
    } else {
        root_items(roots.drop_last(), total, o, last_post).push(
            Item {
                pre: nl(o) + json_indent(0, o),
                value: root_json(roots.last(), o),
                post: if roots.len() == total {
                    nl(o) + last_post
                } else {
                    Seq::empty()
                },
            },
        )
    }
}

#[verifier::spinoff_prover]
#[verifier::rlimit(60)]
proof fn lemma_roots(roots: Seq<Root>, total: int, o: Options, lp: Seq<u8>)
    requires
        0 < roots.len() <= total,
        forall|i: int| 0 <= i < roots.len() ==> ready_root(#[trigger] roots[i]),
        blank(lp),
    ensures
        root_items(roots, total, o, lp).len() == roots.len(),
        items_ok(root_items(roots, total, o, lp)),
        roots.len() < total ==> nl(o) + json_roots(roots, total, o) == render_items(root_items(roots, total, o, lp))
            + seq![44u8] + nl(o),
        roots.len() == total ==> nl(o) + json_roots(roots, total, o) + lp == render_items(
            root_items(roots, total, o, lp),
        ),
    decreases roots.len(),
{
    let k = roots.len();
    let last = roots.last();
    let prev = roots.drop_last();
    let more = k < total;
    assert(ready_root(roots[k - 1]));
    lemma_root(last, o, more);
    lemma_indent_blank(0, o);
    lemma_blank_concat(nl(o), json_indent(0, o));
    lemma_blank_concat(nl(o), lp);
    assert(blank(Seq::<u8>::empty()));
    reveal(root_items);
    let items = root_items(roots, total, o, lp);
    let pitems = root_items(prev, total, o, lp);
    let it = items.last();
    assert(items == pitems.push(it));
    assert(items.drop_last() =~= pitems);
    assert(item_ok(it));
    let r = render(root_json(last, o));
    let ind = json_indent(0, o);
    let n = json_root(last, o, more);
    assert(n =~= ind + r + (comma_if(more) + nl(o)));
    let sp = json_roots(prev, total, o);
    assert(json_roots(roots, total, o) == sp + n);
    assert(render_item(it) == nl(o) + ind + r + it.post);
    if k == 1 {
        assert(pitems.len() == 0);
        assert(items =~= seq![it]);
        assert(items_ok(pitems));
        assert(sp == Seq::<u8>::empty());
        assert(render_items(items) == render_item(it));
        lemma_first(nl(o), n, ind, r, comma_if(more) + nl(o), it.post, lp, more);
    } else {
        assert forall|i: int| 0 <= i < prev.len() implies ready_root(#[trigger] prev[i]) by {
            assert(prev[i] == roots[i]);
        }
        lemma_roots(prev, total, o, lp);
        assert(render_items(items) == render_items(pitems) + seq![44u8] + render_item(it));
        lemma_step(nl(o), sp, render_items(pitems), n, ind, r, comma_if(more) + nl(o), it.post, lp, more);
    }
}

pub open spec fn k_report() -> Seq<u8> {
    seq![114u8, 101, 112, 111, 114, 116]
}

pub open spec fn k_directories() -> Seq<u8> {
    seq![100u8, 105, 114, 101, 99, 116, 111, 114, 105, 101, 115]
}

pub open spec fn k_files() -> Seq<u8> {
    seq![102u8, 105, 108, 101, 115]
}

/// The report's object, as the listing writes it.
pub open spec fn report_json(t: Totals, o: Options) -> Json {
    Json::Obj(
        seq![str_member(k_type(), k_report())] + opt_member(o.du, num_member(k_size(), signed_decimal(t.size as int)))
            + seq![num_member(k_directories(), decimal(t.dirs as nat))] + opt_member(
            !o.dirs_only,
            num_member(k_files(), decimal(t.files as nat)),
        ),
        Seq::empty(),
    )
}

#[verifier::spinoff_prover]
#[verifier::rlimit(60)]
proof fn lemma_report(t: Totals, o: Options)
    ensures
        json_report(t, o) == seq![44u8] + json_indent(0, o) + render(report_json(t, o)),
        well_formed(report_json(t, o)),
{
    lemma_keys();
    assert(plain_text(k_report()));
    lemma_plain_body(k_report());
    assert(plain_text(k_directories()));
    lemma_plain_body(k_directories());
    assert(plain_text(k_files()));
    lemma_plain_body(k_files());
    lemma_signed_number(t.size as int);
    lemma_decimal_number(t.dirs as nat);
    lemma_decimal_number(t.files as nat);
    let m0 = str_member(k_type(), k_report());
    let base = seq![m0];
    assert(render_members(base) == render_member(m0));
    assert(well_formed(m0.value));
    assert(members_ok(base)) by {
        assert(members_ok(Seq::<Member>::empty()));
        assert(base.drop_last() =~= Seq::<Member>::empty());
        assert(member_ok(m0));
    }
    assert(seq![123u8] + render_members(base) =~= j_report());
    let ts = signed_decimal(t.size as int);
    let td = decimal(t.dirs as nat);
    let tf = decimal(t.files as nat);
    assert(du_member(t, o) =~= if o.du {
        seq![44u8, 34u8] + k_size() + seq![34u8, 58u8] + ts
    } else {
        Seq::<u8>::empty()
    });
    let a1 = base + opt_member(o.du, num_member(k_size(), ts));
    lemma_num_part(base, o.du, k_size(), ts, du_member(t, o));
    let a2 = a1 + opt_member(true, num_member(k_directories(), td));
    assert(j_dirs() + td =~= seq![44u8, 34u8] + k_directories() + seq![34u8, 58u8] + td);
    lemma_num_part(a1, true, k_directories(), td, j_dirs() + td);
    assert(files_member(t, o) =~= if !o.dirs_only {
        seq![44u8, 34u8] + k_files() + seq![34u8, 58u8] + tf
    } else {
        Seq::<u8>::empty()
    });
    let a3 = a2 + opt_member(!o.dirs_only, num_member(k_files(), tf));
    lemma_num_part(a2, !o.dirs_only, k_files(), tf, files_member(t, o));
    assert(a2 =~= base + opt_member(o.du, num_member(k_size(), ts)) + seq![num_member(k_directories(), td)]);
    assert(report_json(t, o) == Json::Obj(a3, Seq::empty()));
    lemma_indent_blank(0, o);
    assert(blank(Seq::<u8>::empty()));
    assert(json_report(t, o) =~= seq![44u8] + json_indent(0, o) + render(report_json(t, o)));
}

proof fn lemma_doc_bare(nlo: Seq<u8>, jr: Seq<u8>, ri: Seq<u8>)
    requires
        nlo + jr + nlo == ri,
    ensures
        open_bracket() + nlo + jr + Seq::<u8>::empty() + nlo + j_end() == Seq::<u8>::empty() + (seq![91u8] + ri
            + seq![93u8]) + seq![10u8],
{
    assert(open_bracket() + nlo + jr + Seq::<u8>::empty() + nlo + j_end() =~= Seq::<u8>::empty() + (seq![91u8] + (
    nlo + jr + nlo) + seq![93u8]) + seq![10u8]);
}

proof fn lemma_doc_report(nlo: Seq<u8>, jr: Seq<u8>, ri: Seq<u8>, rep: Seq<u8>, ind: Seq<u8>, rr: Seq<u8>)
    requires
        nlo + jr + Seq::<u8>::empty() == ri,
        rep == seq![44u8] + ind + rr,
    ensures
        open_bracket() + nlo + jr + rep + nlo + j_end() == Seq::<u8>::empty() + (seq![91u8] + (ri + seq![44u8] + (ind
            + rr + nlo)) + seq![93u8]) + seq![10u8],
{
    assert(nlo + jr =~= ri);
    assert(open_bracket() + nlo + jr + rep + nlo + j_end() =~= Seq::<u8>::empty() + (seq![91u8] + ((nlo + jr)
        + seq![44u8] + (ind + rr + nlo)) + seq![93u8]) + seq![10u8]);
}

#[verifier::spinoff_prover]
proof fn lemma_document_bare(roots: Seq<Root>, t: Totals, o: Options)
    requires
        roots.len() > 0,
        forall|i: int| 0 <= i < roots.len() ==> ready_root(#[trigger] roots[i]),
        o.no_report,
    ensures
        json_text(json_document(roots, t, o)),
{
    let n = roots.len() as int;
    let doc = json_document(roots, t, o);
    let tail = seq![10u8];
    assert(blank(tail));
    assert(blank(Seq::<u8>::empty()));
    lemma_indent_blank(0, o);
    let lp = nl(o);
    lemma_roots(roots, n, o, lp);
    let items = root_items(roots, n, o, lp);
    let j = Json::Arr(items, Seq::empty());
    assert(well_formed(j));
    assert(render(j) == seq![91u8] + render_items(items) + seq![93u8]);
    lemma_doc_bare(nl(o), json_roots(roots, n, o), render_items(items));
    assert(doc == Seq::<u8>::empty() + render(j) + tail);
    assert(blank(Seq::<u8>::empty()) && blank(tail) && well_formed(j) && doc == Seq::<u8>::empty() + render(j) + tail);
}

#[verifier::spinoff_prover]
proof fn lemma_document_report(roots: Seq<Root>, t: Totals, o: Options)
    requires
        roots.len() > 0,
        forall|i: int| 0 <= i < roots.len() ==> ready_root(#[trigger] roots[i]),
        !o.no_report,
    ensures
        json_text(json_document(roots, t, o)),
{
    let n = roots.len() as int;
    let doc = json_document(roots, t, o);
    let tail = seq![10u8];
    assert(blank(tail));
    assert(blank(Seq::<u8>::empty()));
    lemma_indent_blank(0, o);
    let lp = Seq::<u8>::empty();
    lemma_roots(roots, n, o, lp);
    lemma_report(t, o);
    let ritems = root_items(roots, n, o, lp);
    let rep = Item { pre: json_indent(0, o), value: report_json(t, o), post: nl(o) };
    let items = ritems.push(rep);
    assert(items.drop_last() =~= ritems);
    assert(item_ok(rep));
    assert(items_ok(items));
    assert(render_items(items) == render_items(ritems) + seq![44u8] + render_item(rep));
    let j = Json::Arr(items, Seq::empty());
    assert(well_formed(j));
    assert(render(j) == seq![91u8] + render_items(items) + seq![93u8]);
    lemma_doc_report(
        nl(o),
        json_roots(roots, n, o),
        render_items(ritems),
        json_report(t, o),
        json_indent(0, o),
        render(report_json(t, o)),
    );
    assert(doc == Seq::<u8>::empty() + render(j) + tail);
    assert(blank(Seq::<u8>::empty()) && blank(tail) && well_formed(j) && doc == Seq::<u8>::empty() + render(j) + tail);
}

/// The -J listing is JSON text (RFC 8259) whenever its entries'
/// annotations need no escaping and no entry is both annotated and
/// listed (see `ready_root`); names, link targets and comment lines may
/// hold any bytes.
pub proof fn law_json_listing_is_json(roots: Seq<Root>, t: Totals, o: Options)
    requires
        roots.len() > 0,
        forall|i: int| 0 <= i < roots.len() ==> ready_root(#[trigger] roots[i]),
    ensures
        json_text(json_document(roots, t, o)),
{
    if o.no_report {
        lemma_document_bare(roots, t, o);
    } else {
        lemma_document_report(roots, t, o);
    }
}

proof fn lemma_quiet_body(e: Seq<u8>)
    requires
        quiet(e),
    ensures
        json_string_body(e),
{
    assert(plain_text(e));
    lemma_plain_body(e);
}

proof fn lemma_ready_nodes(nodes: Seq<Node>)
    requires
        tidy_all(nodes),
    ensures
        ready_nodes(nodes),
    decreases nodes,
{
    if nodes.len() > 0 {
        lemma_ready_nodes(nodes.drop_last());
        lemma_ready_node(nodes.last());
    }
}

proof fn lemma_ready_node(n: Node)
    requires
        tidy(n),
    ensures
        ready_node(n),
    decreases n,
{
    match n.err {
        Some(e) => lemma_quiet_body(e@),
        None => {},
    }
    match n.children {
        Some(c) => {
            assert(decreases_to!(n => c@));
            lemma_ready_nodes(c@);
        },
        None => {},
    }
}

/// What a finished walk gives (its entries tidy, see
/// `RootWalk::finish`) can be written as JSON, as
/// `law_json_listing_is_json` asks, whatever bytes its names hold.
pub proof fn law_walked_root_is_ready(r: Root)
    requires
        r.kind matches RootKind::Opened(c) ==> tidy_all(c@),
    ensures
        ready_root(r),
{
    match r.kind {
        RootKind::Opened(c) => lemma_ready_nodes(c@),
        _ => {},
    }
}

} // verus!
