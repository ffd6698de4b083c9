use utree::options::Options;
use utree::output::html::{html_encode, html_print, url_encode, HtmlFormatter};
use utree::output::{LineDraw, Totals};
use utree::walk::{Meta, Node, Root, RootKind};

fn glyphs() -> LineDraw {
    LineDraw {
        vert: b"|  ".to_vec(),
        tee: b"|--".to_vec(),
        corner: b"`--".to_vec(),
        copy: b"(c)".to_vec(),
        ctop: b"+".to_vec(),
        cbot: b"\\".to_vec(),
        cmid: b"|".to_vec(),
        cext: b":".to_vec(),
        csingle: b"-".to_vec(),
    }
}

fn node(name: &str, mode: u32, children: Option<Vec<Node>>) -> Node {
    Node {
        name: name.as_bytes().to_vec(),
        is_dir: mode & 0o170000 == 0o040000,
        link: None,
        err: None,
        children,
        comment: None,
        orphan: false,
        rerun_link: false,
        meta: Meta { mode, ..Meta::default() },
    }
}

fn sample() -> Root {
    Root {
        name: b".".to_vec(),
        kind: RootKind::Opened(vec![
            node("a", 0o100644, None),
            node("d", 0o040755, Some(vec![node("x", 0o100755, None)])),
        ]),
        meta: Some(Meta { mode: 0o040755, ..Meta::default() }),
    }
}

fn render(root: &Root, opts: &Options) -> String {
    let mut f = HtmlFormatter::new(glyphs());
    let mut out = Vec::new();
    f.emit_root(&mut out, root, opts);
    String::from_utf8(out).unwrap()
}

#[test]
fn encodes_urls_and_text() {
    let mut out = Vec::new();
    assert!(!url_encode(&mut out, b"a b/~%"));
    assert_eq!(out, b"a%20b/~%25");
    let mut out = Vec::new();
    assert!(url_encode(&mut out, b"dir/"));
    let mut out = Vec::new();
    html_encode(&mut out, b"<a & \"b\">");
    assert_eq!(out, b"&lt;a &amp; &quot;b&quot;&gt;");
}

#[test]
fn renders_links() {
    let out = render(&sample(), &Options::default());
    let expected = [
        "\t<a href=\"./\">.</a><br>\n",
        "\t|--&nbsp;<a href=\"./a\">a</a><br>\n",
        "\t`--&nbsp;<a href=\"./d/\">d</a><br>\n",
        "\t&nbsp;&nbsp;&nbsp;&nbsp;`--&nbsp;<a href=\"./d/x\">x</a><br>\n",
    ]
    .concat();
    assert_eq!(out, expected);
}

#[test]
fn renders_classes_hosts_and_offsets() {
    let mut opts = Options::default();
    opts.force_color = true;
    opts.host = Some(b"http://h".to_vec());
    opts.htmloffset = true;
    let out = render(&sample(), &opts);
    let expected = [
        "\t<a class=\"DIR\" href=\"http://h/\">.</a><br>\n",
        "\t|--&nbsp;<a class=\"NORM\" href=\"http://h/a\">a</a><br>\n",
        "\t`--&nbsp;<a class=\"DIR\" href=\"http://h/d/\">d</a><br>\n",
        "\t&nbsp;&nbsp;&nbsp;&nbsp;`--&nbsp;<a class=\"EXEC\" href=\"http://h/d/x\">x</a><br>\n",
    ]
    .concat();
    assert_eq!(out, expected);
}

#[test]
fn renders_boundaries_titles_and_plain_names() {
    let mut d = node("d", 0o040755, None);
    d.rerun_link = true;
    let mut c = node("c<", 0o100644, None);
    c.comment = Some(vec![b"one".to_vec(), b"t&o".to_vec()]);
    let root = Root { name: b"r".to_vec(), kind: RootKind::Opened(vec![d, c]), meta: None };
    let out = render(&root, &Options::default());
    let expected = [
        "\t<a>r</a><br>\n",
        "\t|--&nbsp;<a href=\"r/d/00Tree.html\">d</a><br>\n",
        "\t`--&nbsp;<a title=\"one\nt&amp;o\" href=\"r/c%3C\">c&lt;</a><br>\n",
    ]
    .concat();
    assert_eq!(out, expected);
    let mut opts = Options::default();
    opts.nolinks = true;
    opts.noindent = true;
    let out = render(&sample(), &opts);
    assert_eq!(out, "<a>.</a><br>\n<a>a</a><br>\n<a>d</a><br>\n<a>x</a><br>\n");
}

#[test]
fn renders_page_frame_and_report() {
    let f = HtmlFormatter::new(glyphs());
    let mut out = Vec::new();
    f.intro(&mut out, b"UTF-8", b"T");
    let s = String::from_utf8(out).unwrap();
    assert!(s.starts_with("<!DOCTYPE html>\n<html>\n<head>\n <meta http-equiv=\"Content-Type\" content=\"text/html; charset=UTF-8\">"));
    assert!(s.contains("<meta name=\"GENERATOR\" content=\"tree v2.3.2 (c) 1996 - 2026 by Steve Baker, Thomas Moore, Francesc Rocher, Florian Sesser, Kyosuke Tokoro\">"));
    assert!(s.contains(" <title>T</title>"));
    assert!(s.ends_with("<body>\n\t<h1>T</h1><p>\n"));
    let mut out = Vec::new();
    f.outro(&mut out);
    let s = String::from_utf8(out).unwrap();
    assert!(s.starts_with("\t<hr>\n\t<p class=\"VERSION\">\n\t\t tree v2.3.2 (c) 1996"));
    assert!(s.ends_with("Kyosuke Tokoro\n\t</p>\n</body>\n</html>\n"));
    assert_eq!(s.matches("(c)").count(), 4);
    let mut out = Vec::new();
    f.emit_report(&mut out, &Totals { dirs: 2, files: 1, size: 0 }, &Options::default(), b"");
    assert_eq!(out, b"<br><br><p>\n\n2 directories, 1 file\n\n</p>\n");
}

#[test]
fn encoded_names_are_distinct_and_carry_no_markup() {
    let names: Vec<&[u8]> = vec![b"<", b"&lt;", b"&", b"&amp;", b"\"", b">x"];
    let mut seen = Vec::new();
    for name in &names {
        let mut out = Vec::new();
        html_encode(&mut out, name);
        assert!(!out.iter().any(|&b| b == b'<' || b == b'>' || b == b'"'));
        assert!(!seen.contains(&out));
        seen.push(out);
    }
    let mut seen = Vec::new();
    for name in [&b"%"[..], b"%25", b" ", b"%20", b"\xff", b"~"] {
        let mut out = Vec::new();
        url_encode(&mut out, name);
        assert!(out.iter().all(|&b| b.is_ascii_alphanumeric() || b"/-._~%".contains(&b)));
        assert!(!seen.contains(&out));
        seen.push(out);
    }
}

#[test]
fn prints_spaces_as_nbsp() {
    let mut out = Vec::new();
    html_print(&mut out, b"[a b  c]");
    assert_eq!(out, b"[a&nbsp;b&nbsp;&nbsp;c]&nbsp;&nbsp;");
    let mut out = Vec::new();
    html_print(&mut out, b"");
    assert_eq!(out, b"&nbsp;&nbsp;");
}
