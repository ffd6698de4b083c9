use utree::options::{Options, OutputFormat};
use utree::output::html::HtmlFormatter;
use utree::output::json::JsonFormatter;
use utree::output::listing::{listing_totals, render, HtmlPage};
use utree::output::text::TextFormatter;
use utree::output::{LineDraw, Totals};
use utree::walk::{Meta, Node, Root, RootKind};

fn glyphs() -> LineDraw {
    LineDraw {
        vert: b"|  ".to_vec(),
        tee: b"|--".to_vec(),
        corner: b"`--".to_vec(),
        copy: b"(c)".to_vec(),
        ctop: b"+".to_vec(),
        cbot: b"\\".to_vec(),
        cmid: b"|".to_vec(),
        cext: b":".to_vec(),
        csingle: b"-".to_vec(),
    }
}

fn node(name: &str, mode: u32, children: Option<Vec<Node>>) -> Node {
    Node {
        name: name.as_bytes().to_vec(),
        is_dir: mode & 0o170000 == 0o040000,
        link: None,
        err: None,
        children,
        comment: None,
        orphan: false,
        rerun_link: false,
        meta: Meta { mode, ..Meta::default() },
    }
}

fn sample() -> Root {
    Root {
        name: b".".to_vec(),
        kind: RootKind::Opened(vec![
            node("a", 0o100644, None),
            node("d", 0o040755, Some(vec![node("x", 0o100755, None)])),
        ]),
        meta: Some(Meta { mode: 0o040755, ..Meta::default() }),
    }
}

fn sized(kind: RootKind, size: i64) -> Root {
    Root { name: b"r".to_vec(), kind, meta: Some(Meta { size, ..Meta::default() }) }
}

fn no_page() -> HtmlPage {
    HtmlPage { intro: None, outro: None, charset: None, title: None }
}

#[test]
fn totals_add_up_every_root() {
    let roots = vec![
        sample(),
        Root { name: b"gone".to_vec(), kind: RootKind::Missing, meta: None },
        sized(RootKind::Unreadable, 7),
        sized(RootKind::OverLimit(9), -2),
    ];
    let t = listing_totals(&roots).unwrap();
    assert_eq!((t.dirs, t.files, t.size), (3, 3, 5));
    let t = listing_totals(&[]).unwrap();
    assert_eq!((t.dirs, t.files, t.size), (0, 0, 0));
}

#[test]
fn totals_refuse_a_size_that_leaves_i64_on_the_way() {
    let roots = vec![sized(RootKind::Unreadable, i64::MAX), sized(RootKind::Unreadable, 1), sized(RootKind::Unreadable, -5)];
    assert!(listing_totals(&roots).is_none());
    let roots = vec![sized(RootKind::Unreadable, i64::MAX), sized(RootKind::Unreadable, -5), sized(RootKind::Unreadable, 1)];
    let t = listing_totals(&roots).unwrap();
    assert_eq!(t.size, i64::MAX - 4);
    assert_eq!(t.files, 3);
}

#[test]
fn text_listing_is_every_root_then_the_report() {
    let opts = Options::default();
    let roots = vec![sample(), sized(RootKind::Unreadable, 0)];
    let t = listing_totals(&roots).unwrap();
    let out = render(&opts, glyphs(), &roots, &t, &no_page());
    let f = TextFormatter::new(glyphs());
    let mut expected = Vec::new();
    f.emit_root(&mut expected, &roots[0], &opts);
    f.emit_root(&mut expected, &roots[1], &opts);
    f.emit_report(&mut expected, &t, &opts, b"");
    assert_eq!(out, expected);
    assert!(out.ends_with(b"\n2 directories, 3 files\n"));
    let mut quiet = Options::default();
    quiet.no_report = true;
    let out = render(&quiet, glyphs(), &roots, &t, &no_page());
    assert!(!out.ends_with(b"files\n"));
}

#[test]
fn json_listing_is_an_array_of_roots_and_report() {
    let mut opts = Options::default();
    opts.output = OutputFormat::Json;
    let roots = vec![sample(), sized(RootKind::Missing, 0)];
    let t = listing_totals(&roots).unwrap();
    let out = render(&opts, glyphs(), &roots, &t, &no_page());
    let f = JsonFormatter::new(&opts);
    let mut expected = Vec::new();
    f.intro(&mut expected, &opts);
    f.emit_root(&mut expected, &roots[0], &opts, true);
    f.emit_root(&mut expected, &roots[1], &opts, false);
    f.emit_report(&mut expected, &t, &opts);
    f.outro(&mut expected, &opts);
    assert_eq!(out, expected);
    assert!(out.starts_with(b"[\n"));
    assert!(out.ends_with(b"\n]\n"));
}

#[test]
fn html_listing_is_framed_by_the_page() {
    let mut opts = Options::default();
    opts.output = OutputFormat::Html;
    let roots = vec![sample()];
    let t = listing_totals(&roots).unwrap();
    let out = render(&opts, glyphs(), &roots, &t, &no_page());
    let mut f = HtmlFormatter::new(glyphs());
    let mut expected = Vec::new();
    f.intro(&mut expected, b"iso-8859-1", b"Directory Tree");
    f.emit_root(&mut expected, &roots[0], &opts);
    f.emit_report(&mut expected, &t, &opts, b"");
    f.outro(&mut expected);
    assert_eq!(out, expected);
    let s = String::from_utf8(out).unwrap();
    assert!(s.contains("charset=iso-8859-1"));
    assert!(s.contains("<title>Directory Tree</title>"));

    let page = HtmlPage {
        intro: Some(b"<head-of-mine>".to_vec()),
        outro: Some(Vec::new()),
        charset: Some(b"utf-8".to_vec()),
        title: Some(b"T".to_vec()),
    };
    let out = render(&opts, glyphs(), &roots, &t, &page);
    let mut f = HtmlFormatter::new(glyphs());
    let mut expected = b"<head-of-mine>".to_vec();
    f.emit_root(&mut expected, &roots[0], &opts);
    f.emit_report(&mut expected, &t, &opts, b"");
    assert_eq!(out, expected);

    let page = HtmlPage { intro: None, outro: None, charset: Some(b"utf-8".to_vec()), title: Some(b"T".to_vec()) };
    let out = String::from_utf8(render(&opts, glyphs(), &roots, &t, &page)).unwrap();
    assert!(out.contains("charset=utf-8"));
    assert!(out.contains("<title>T</title>"));
}
