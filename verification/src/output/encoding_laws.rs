//! Properties of the byte encodings that names go through on their way
//! into the listings: none of them loses a name, and each keeps out
//! the bytes its format reserves.

use vstd::prelude::*;
use crate::digits::{hex2, hex_digit, octal3};
use crate::options::Options;
use crate::output::json::{json_encoded, json_byte, ctrl_code};
use crate::output::text::{escaped, escaped_byte, name_text, quote_mark};
use crate::output::html::{html_encoded, html_byte, url_encoded, url_byte, url_safe};

verus! {

/// `s` with `code` applied to each byte, the results joined in order.
pub open spec fn flat(code: spec_fn(u8) -> Seq<u8>, s: Seq<u8>) -> Seq<u8>
    decreases s.len(),
{
    if s.len() == 0 {
        Seq::empty()
    } else {
        code(s[0]) + flat(code, s.drop_first())
    }
}

/// `a` is `b` or a beginning of it.
pub open spec fn starts(b: Seq<u8>, a: Seq<u8>) -> bool {
    a.len() <= b.len() && b.take(a.len() as int) == a
}

/// No byte's code is empty, and no byte's code begins another's.
pub open spec fn prefix_free(code: spec_fn(u8) -> Seq<u8>) -> bool {
    &&& forall|x: u8| #[trigger] code(x).len() > 0
    &&& forall|x: u8, y: u8| x != y ==> !starts(#[trigger] code(y), #[trigger] code(x))
}

/// `enc` is `code` applied byte by byte, built from the end.
pub open spec fn built_by(enc: spec_fn(Seq<u8>) -> Seq<u8>, code: spec_fn(u8) -> Seq<u8>) -> bool {
    &&& enc(Seq::empty()) == Seq::<u8>::empty()
    &&& forall|s: Seq<u8>| s.len() > 0 ==> #[trigger] enc(s) == enc(s.drop_last()) + code(s.last())
}

proof fn lemma_flat_push(code: spec_fn(u8) -> Seq<u8>, s: Seq<u8>, x: u8)
    ensures
        flat(code, s.push(x)) == flat(code, s) + code(x),
    decreases s.len(),
{
    if s.len() == 0 {
        assert(s.push(x).drop_first() =~= Seq::<u8>::empty());
        assert(flat(code, Seq::<u8>::empty()) == Seq::<u8>::empty());
        assert(flat(code, s) == Seq::<u8>::empty());
        assert(flat(code, s.push(x)) =~= code(x));
    } else {
        assert(s.push(x).drop_first() =~= s.drop_first().push(x));
        lemma_flat_push(code, s.drop_first(), x);
        assert(flat(code, s.push(x)) =~= flat(code, s) + code(x));
    }
}

proof fn lemma_flat_of(enc: spec_fn(Seq<u8>) -> Seq<u8>, code: spec_fn(u8) -> Seq<u8>, s: Seq<u8>)
    requires
        built_by(enc, code),
    ensures
        enc(s) == flat(code, s),
    decreases s.len(),
{
    if s.len() > 0 {
        lemma_flat_of(enc, code, s.drop_last());
        lemma_flat_push(code, s.drop_last(), s.last());
        assert(s.drop_last().push(s.last()) =~= s);
        assert(enc(s) == enc(s.drop_last()) + code(s.last()));
    } else {
        assert(s =~= Seq::<u8>::empty());
        assert(flat(code, s) == Seq::<u8>::empty());
    }
}

proof fn lemma_flat_len(code: spec_fn(u8) -> Seq<u8>, s: Seq<u8>)
    requires
        prefix_free(code),
        s.len() > 0,
    ensures
        flat(code, s).len() >= code(s[0]).len() > 0,
{
    assert(code(s[0]).len() > 0);
}

proof fn lemma_flat_injective(code: spec_fn(u8) -> Seq<u8>, a: Seq<u8>, b: Seq<u8>)
    requires
        prefix_free(code),
        flat(code, a) == flat(code, b),
    ensures
        a == b,
    decreases a.len(),
{
    if a.len() == 0 {
        if b.len() > 0 {
            lemma_flat_len(code, b);
        }
        assert(a =~= b);
    } else if b.len() == 0 {
        lemma_flat_len(code, a);
    } else {
        let f = flat(code, a);
        let ca = code(a[0]);
        let cb = code(b[0]);
        assert(f.take(ca.len() as int) =~= ca);
        assert(f.take(cb.len() as int) =~= cb);
        if a[0] != b[0] {
            if ca.len() <= cb.len() {
                assert(cb.take(ca.len() as int) =~= ca);
                assert(starts(cb, ca));
            } else {
                assert(ca.take(cb.len() as int) =~= cb);
                assert(starts(ca, cb));
            }
        }
        assert(flat(code, a.drop_first()) =~= f.subrange(ca.len() as int, f.len() as int));
        assert(flat(code, b.drop_first()) =~= f.subrange(cb.len() as int, f.len() as int));
        lemma_flat_injective(code, a.drop_first(), b.drop_first());
        assert(a =~= seq![a[0]] + a.drop_first());
        assert(b =~= seq![b[0]] + b.drop_first());
    }
}

proof fn lemma_flat_bytes(code: spec_fn(u8) -> Seq<u8>, ok: spec_fn(u8) -> bool, s: Seq<u8>)
    requires
        forall|x: u8, i: int| 0 <= i < code(x).len() ==> ok(#[trigger] code(x)[i]),
    ensures
        forall|i: int| 0 <= i < flat(code, s).len() ==> ok(#[trigger] flat(code, s)[i]),
    decreases s.len(),
{
    if s.len() > 0 {
        lemma_flat_bytes(code, ok, s.drop_first());
        let c = code(s[0]);
        let r = flat(code, s.drop_first());
        assert forall|i: int| 0 <= i < flat(code, s).len() implies ok(#[trigger] flat(code, s)[i]) by {
            if i < c.len() {
                assert(flat(code, s)[i] == c[i]);
            } else {
                assert(flat(code, s)[i] == r[i - c.len()]);
            }
        }
    }
}

proof fn lemma_hex2_low(x: u8, y: u8)
    requires
        x < 32,
        y < 32,
        hex2(x, false) == hex2(y, false),
    ensures
        x == y,
{
    assert(hex2(x, false)[0] == hex2(y, false)[0]);
    assert(hex2(x, false)[1] == hex2(y, false)[1]);
    assert(x / 16 == y / 16);
    assert(x % 16 == y % 16);
}

proof fn lemma_json_prefix_free()
    ensures
        prefix_free(|c: u8| json_byte(c)),
{
    let code = |c: u8| json_byte(c);
    assert forall|x: u8| #[trigger] code(x).len() > 0 by {}
    assert forall|x: u8, y: u8| x != y implies !starts(#[trigger] code(y), #[trigger] code(x)) by {
        let cx = json_byte(x);
        let cy = json_byte(y);
        if starts(cy, cx) {
            assert(cy[0] == cx[0]);
            if cx.len() >= 2 {
                assert(cy[1] == cx[1]);
            }
            if x < 32 && ctrl_code(x) == 45 {
                assert(cy[2] == cx[2] && cy[3] == cx[3] && cy[4] == cx[4] && cy[5] == cx[5]);
                assert(cy.subrange(4, 6) =~= hex2(y, false));
                assert(cx.subrange(4, 6) =~= hex2(x, false));
                lemma_hex2_low(x, y);
            }
        }
    }
}

/// Two names that differ never encode to the same JSON string text.
pub proof fn law_json_encoding_injective(a: Seq<u8>, b: Seq<u8>)
    requires
        json_encoded(a) == json_encoded(b),
    ensures
        a == b,
{
    let enc = |s: Seq<u8>| json_encoded(s);
    let code = |c: u8| json_byte(c);
    assert(built_by(enc, code));
    lemma_flat_of(enc, code, a);
    lemma_flat_of(enc, code, b);
    lemma_json_prefix_free();
    lemma_flat_injective(code, a, b);
}

/// A name encoded for a JSON string holds no control byte (none below
/// 32), whatever bytes the name has.
pub proof fn law_json_encoding_no_controls(s: Seq<u8>)
    ensures
        forall|i: int| 0 <= i < json_encoded(s).len() ==> #[trigger] json_encoded(s)[i] >= 32,
{
    let enc = |s: Seq<u8>| json_encoded(s);
    let code = |c: u8| json_byte(c);
    let ok = |b: u8| b >= 32;
    assert(built_by(enc, code));
    lemma_flat_of(enc, code, s);
    assert forall|x: u8, i: int| 0 <= i < code(x).len() implies ok(#[trigger] code(x)[i]) by {
        if x < 32 && ctrl_code(x) == 45 {
            assert(hex2(x, false)[0] == hex_digit((x / 16) as int, false));
            assert(hex2(x, false)[1] == hex_digit((x % 16) as int, false));
        }
    }
    lemma_flat_bytes(code, ok, s);
}

proof fn lemma_escape_prefix_free(o: Options)
    requires
        !o.qmark,
    ensures
        prefix_free(|c: u8| escaped_byte(c, o)),
{
    let code = |c: u8| escaped_byte(c, o);
    assert forall|x: u8| #[trigger] code(x).len() > 0 by {}
    assert forall|x: u8, y: u8| x != y implies !starts(#[trigger] code(y), #[trigger] code(x)) by {
        let cx = escaped_byte(x, o);
        let cy = escaped_byte(y, o);
        if starts(cy, cx) {
            assert(cy[0] == cx[0]);
            if cx.len() >= 2 {
                assert(cy[1] == cx[1]);
            }
            if cx.len() == 4 {
                assert(cx =~= seq![92u8] + octal3(x));
                assert(cy[2] == cx[2] && cy[3] == cx[3]);
                assert(cy =~= seq![92u8] + octal3(y));
                assert(x / 64 == y / 64);
                assert((x / 8) % 8 == (y / 8) % 8);
                assert(x % 8 == y % 8);
                assert(x == 64 * (x / 64) + 8 * ((x / 8) % 8) + x % 8) by (nonlinear_arith);
                assert(y == 64 * (y / 64) + 8 * ((y / 8) % 8) + y % 8) by (nonlinear_arith);
            }
        }
    }
}

proof fn lemma_name_text_parts(s: Seq<u8>, o: Options)
    ensures
        name_text(s, o).subrange(quote_mark(o).len() as int, name_text(s, o).len() - quote_mark(o).len())
            == (if o.no_escape { s } else { escaped(s, o) }),
{
    let body = if o.no_escape { s } else { escaped(s, o) };
    assert(name_text(s, o).subrange(quote_mark(o).len() as int, name_text(s, o).len() - quote_mark(o).len())
        =~= body);
}

/// With -q off, two names that differ never print as the same text:
/// the escapes of the listing can always be read back to the name.
pub proof fn law_name_text_injective(a: Seq<u8>, b: Seq<u8>, o: Options)
    requires
        !o.qmark,
        name_text(a, o) == name_text(b, o),
    ensures
        a == b,
{
    lemma_name_text_parts(a, o);
    lemma_name_text_parts(b, o);
    if !o.no_escape {
        let enc = |s: Seq<u8>| escaped(s, o);
        let code = |c: u8| escaped_byte(c, o);
        assert(built_by(enc, code));
        lemma_flat_of(enc, code, a);
        lemma_flat_of(enc, code, b);
        lemma_escape_prefix_free(o);
        lemma_flat_injective(code, a, b);
    }
}

/// Unless -N is given, a name prints as printable ASCII only (bytes 32
/// to 126), whatever bytes it holds.
pub proof fn law_name_text_printable(s: Seq<u8>, o: Options)
    requires
        !o.no_escape,
    ensures
        forall|i: int| 0 <= i < name_text(s, o).len() ==> 32 <= #[trigger] name_text(s, o)[i] <= 126,
{
    let enc = |s: Seq<u8>| escaped(s, o);
    let code = |c: u8| escaped_byte(c, o);
    let ok = |b: u8| 32 <= b <= 126;
    assert(built_by(enc, code));
    lemma_flat_of(enc, code, s);
    assert forall|x: u8, i: int| 0 <= i < code(x).len() implies ok(#[trigger] code(x)[i]) by {
        if code(x).len() == 4 {
            assert(code(x) =~= seq![92u8] + octal3(x));
        }
    }
    lemma_flat_bytes(code, ok, s);
    let e = escaped(s, o);
    let q = quote_mark(o);
    assert(name_text(s, o) == q + e + q);
    assert forall|i: int| 0 <= i < name_text(s, o).len() implies 32 <= #[trigger] name_text(s, o)[i] <= 126 by {
        if i < q.len() {
        } else if i < q.len() + e.len() {
            assert(name_text(s, o)[i] == e[i - q.len()]);
        } else {
            assert(name_text(s, o)[i] == q[i - q.len() - e.len()]);
        }
    }
}

proof fn lemma_html_prefix_free()
    ensures
        prefix_free(|c: u8| html_byte(c)),
{
    let code = |c: u8| html_byte(c);
    assert forall|x: u8| #[trigger] code(x).len() > 0 by {}
    assert forall|x: u8, y: u8| x != y implies !starts(#[trigger] code(y), #[trigger] code(x)) by {
        let cx = html_byte(x);
        let cy = html_byte(y);
        if starts(cy, cx) {
            assert(cy[0] == cx[0]);
            if cx.len() >= 2 {
                assert(cy[1] == cx[1]);
            }
        }
    }
}

/// Two names that differ never print as the same HTML text.
pub proof fn law_html_encoding_injective(a: Seq<u8>, b: Seq<u8>)
    requires
        html_encoded(a) == html_encoded(b),
    ensures
        a == b,
{
    let enc = |s: Seq<u8>| html_encoded(s);
    let code = |c: u8| html_byte(c);
    assert(built_by(enc, code));
    lemma_flat_of(enc, code, a);
    lemma_flat_of(enc, code, b);
    lemma_html_prefix_free();
    lemma_flat_injective(code, a, b);
}

/// A name in HTML form holds no `<`, `>` or `"`: it cannot open or close
/// a tag or end an attribute.
pub proof fn law_html_encoding_no_markup(s: Seq<u8>)
    ensures
        forall|i: int| 0 <= i < html_encoded(s).len() ==> {
            let b = #[trigger] html_encoded(s)[i];
            b != 60 && b != 62 && b != 34
        },
{
    let enc = |s: Seq<u8>| html_encoded(s);
    let code = |c: u8| html_byte(c);
    let ok = |b: u8| b != 60 && b != 62 && b != 34;
    assert(built_by(enc, code));
    lemma_flat_of(enc, code, s);
    assert forall|x: u8, i: int| 0 <= i < code(x).len() implies ok(#[trigger] code(x)[i]) by {}
    lemma_flat_bytes(code, ok, s);
}

proof fn lemma_url_prefix_free()
    ensures
        prefix_free(|c: u8| url_byte(c)),
{
    let code = |c: u8| url_byte(c);
    assert forall|x: u8| #[trigger] code(x).len() > 0 by {}
    assert forall|x: u8, y: u8| x != y implies !starts(#[trigger] code(y), #[trigger] code(x)) by {
        let cx = url_byte(x);
        let cy = url_byte(y);
        if starts(cy, cx) {
            assert(cy[0] == cx[0]);
            if cx.len() == 3 {
                assert(cy[1] == cx[1] && cy[2] == cx[2]);
                assert(hex2(x, true)[0] == cx[1] && hex2(x, true)[1] == cx[2]);
                assert(hex2(y, true)[0] == cy[1] && hex2(y, true)[1] == cy[2]);
                assert(x / 16 == y / 16);
                assert(x % 16 == y % 16);
            }
        }
    }
}

/// Two names that differ never give the same URL text.
pub proof fn law_url_encoding_injective(a: Seq<u8>, b: Seq<u8>)
    requires
        url_encoded(a) == url_encoded(b),
    ensures
        a == b,
{
    let enc = |s: Seq<u8>| url_encoded(s);
    let code = |c: u8| url_byte(c);
    assert(built_by(enc, code));
    lemma_flat_of(enc, code, a);
    lemma_flat_of(enc, code, b);
    lemma_url_prefix_free();
    lemma_flat_injective(code, a, b);
}

/// A name in URL form holds only URL-safe bytes and `%`.
pub proof fn law_url_encoding_safe(s: Seq<u8>)
    ensures
        forall|i: int| 0 <= i < url_encoded(s).len() ==> {
            let b = #[trigger] url_encoded(s)[i];
            url_safe(b) || b == 37
        },
{
    let enc = |s: Seq<u8>| url_encoded(s);
    let code = |c: u8| url_byte(c);
    let ok = |b: u8| url_safe(b) || b == 37;
    assert(built_by(enc, code));
    lemma_flat_of(enc, code, s);
    assert forall|x: u8, i: int| 0 <= i < code(x).len() implies ok(#[trigger] code(x)[i]) by {
        if !url_safe(x) {
            assert(hex2(x, true)[0] == hex_digit((x / 16) as int, true));
            assert(hex2(x, true)[1] == hex_digit((x % 16) as int, true));
        }
    }
    lemma_flat_bytes(code, ok, s);
}

/// A hex digit, either case.
pub open spec fn is_hex(b: u8) -> bool {
    (48 <= b <= 57) || (65 <= b <= 70) || (97 <= b <= 102)
}

/// The body of a JSON string as RFC 8259 has it: plain bytes (none
/// below 32, no quote, no backslash) and the escapes `\"`, `\\`, `\/`,
/// `\b`, `\f`, `\n`, `\r`, `\t` and `\u` with four hex digits.
pub open spec fn json_string_body(t: Seq<u8>) -> bool
    decreases t.len(),
{
    if t.len() == 0 {
        true
    } else if t[0] != 92 {
        t[0] >= 32 && t[0] != 34 && json_string_body(t.drop_first())
    } else if t.len() >= 2 && (t[1] == 34 || t[1] == 92 || t[1] == 47 || t[1] == 98 || t[1] == 102 || t[1] == 110
        || t[1] == 114 || t[1] == 116) {
        json_string_body(t.subrange(2, t.len() as int))
    } else {
        t.len() >= 6 && t[1] == 117 && is_hex(t[2]) && is_hex(t[3]) && is_hex(t[4]) && is_hex(t[5])
            && json_string_body(t.subrange(6, t.len() as int))
    }
}

pub(crate) proof fn lemma_body_concat(a: Seq<u8>, b: Seq<u8>)
    requires
        json_string_body(a),
        json_string_body(b),
    ensures
        json_string_body(a + b),
    decreases a.len(),
{
    if a.len() > 0 {
        if a[0] != 92 {
            lemma_body_concat(a.drop_first(), b);
            assert((a + b).drop_first() =~= a.drop_first() + b);
        } else if a.len() >= 2 && (a[1] == 34 || a[1] == 92 || a[1] == 47 || a[1] == 98 || a[1] == 102 || a[1]
            == 110 || a[1] == 114 || a[1] == 116) {
            lemma_body_concat(a.subrange(2, a.len() as int), b);
            assert((a + b).subrange(2, (a + b).len() as int) =~= a.subrange(2, a.len() as int) + b);
        } else {
            lemma_body_concat(a.subrange(6, a.len() as int), b);
            assert((a + b).subrange(6, (a + b).len() as int) =~= a.subrange(6, a.len() as int) + b);
        }
    } else {
        assert(a + b =~= b);
    }
}

proof fn lemma_json_byte_body(c: u8)
    ensures
        json_string_body(json_byte(c)),
{
    let t = json_byte(c);
    let e = Seq::<u8>::empty();
    assert(json_string_body(e));
    if c < 32 && ctrl_code(c) == 45 {
        assert(t.subrange(6, t.len() as int) =~= e);
        assert(hex2(c, false)[0] == hex_digit((c / 16) as int, false));
        assert(hex2(c, false)[1] == hex_digit((c % 16) as int, false));
    } else if t.len() == 2 {
        assert(t.subrange(2, t.len() as int) =~= e);
    } else {
        assert(t.drop_first() =~= e);
    }
}

/// Any name, encoded, is a valid JSON string body: between quotes it
/// reads back as a JSON string.
pub proof fn law_json_encoding_valid(s: Seq<u8>)
    ensures
        json_string_body(json_encoded(s)),
    decreases s.len(),
{
    if s.len() > 0 {
        law_json_encoding_valid(s.drop_last());
        lemma_json_byte_body(s.last());
        lemma_body_concat(json_encoded(s.drop_last()), json_byte(s.last()));
    } else {
        assert(json_encoded(s) =~= Seq::<u8>::empty());
    }
}

} // verus!
