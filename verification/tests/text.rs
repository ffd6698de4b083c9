use utree::options::Options;
use utree::output::text::{write_name, TextFormatter};
use utree::output::{LineDraw, Totals};
use utree::walk::{Meta, Node, Root, RootKind};

fn esc(input: &[u8]) -> Vec<u8> {
    let mut out = Vec::new();
    write_name(&mut out, input, &Options::default());
    out
}

#[test]
fn escaping_matches_tree_printit() {
    assert_eq!(esc(b"plain"), b"plain");
    assert_eq!(esc(b"with space"), b"with\\ space");
    assert_eq!(esc(b"tab\there"), b"tab\\there");
    assert_eq!(esc(b"back\\slash"), b"back\\\\slash");
    assert_eq!(esc(&[0xff, b'x']), b"\\377x");
    assert_eq!(esc(&[0x01]), b"\\001");
}

#[test]
fn escaping_under_quote_qmark_and_no_escape() {
    let mut opts = Options::default();
    opts.quote = true;
    let mut out = Vec::new();
    write_name(&mut out, b"a \"b\"", &opts);
    assert_eq!(out, b"\"a \\\"b\\\"\"");
    let mut opts = Options::default();
    opts.qmark = true;
    let mut out = Vec::new();
    write_name(&mut out, &[b'a', 0x80, 0x07], &opts);
    assert_eq!(out, b"a?\\a");
    let mut opts = Options::default();
    opts.no_escape = true;
    let mut out = Vec::new();
    write_name(&mut out, b"a b\\", &opts);
    assert_eq!(out, b"a b\\");
}

pub fn ascii() -> LineDraw {
    LineDraw {
        vert: b"|  ".to_vec(),
        tee: b"|--".to_vec(),
        corner: b"`--".to_vec(),
        copy: b"(c)".to_vec(),
        ctop: b"+".to_vec(),
        cbot: b"\\".to_vec(),
        cmid: b"|".to_vec(),
        cext: b":".to_vec(),
        csingle: b"-".to_vec(),
    }
}

fn file(name: &str) -> Node {
    Node {
        name: name.as_bytes().to_vec(),
        is_dir: false,
        link: None,
        err: None,
        children: None,
        comment: None,
        orphan: false,
        rerun_link: false,
        meta: Meta { mode: 0o100644, ..Meta::default() },
    }
}

fn dir(name: &str, children: Vec<Node>) -> Node {
    Node {
        name: name.as_bytes().to_vec(),
        is_dir: true,
        link: None,
        err: None,
        children: if children.is_empty() { None } else { Some(children) },
        comment: None,
        orphan: false,
        rerun_link: false,
        meta: Meta { mode: 0o040755, ..Meta::default() },
    }
}

fn sample_root() -> Root {
    Root {
        name: b".".to_vec(),
        kind: RootKind::Opened(vec![file("a"), dir("d", vec![file("x")])]),
        meta: Some(Meta { mode: 0o040755, ..Meta::default() }),
    }
}

fn render(root: &Root, opts: &Options) -> String {
    let f = TextFormatter::new(ascii());
    let mut out = Vec::new();
    f.emit_root(&mut out, root, opts);
    String::from_utf8(out).unwrap()
}

#[test]
fn renders_the_tree_lines() {
    let out = render(&sample_root(), &Options::default());
    assert_eq!(out, ".\n|-- a\n`-- d\n    `-- x\n");
}

#[test]
fn renders_full_paths_and_no_indent() {
    let mut opts = Options::default();
    opts.full_path = true;
    assert_eq!(render(&sample_root(), &opts), ".\n|-- ./a\n`-- ./d\n    `-- ./d/x\n");
    let mut opts = Options::default();
    opts.noindent = true;
    assert_eq!(render(&sample_root(), &opts), ".\na\nd\nx\n");
}

#[test]
fn renders_links_and_annotations() {
    let mut l = file("l");
    l.link = Some(b"t a".to_vec());
    let mut e = dir("e", vec![]);
    e.err = Some(b"error opening dir".to_vec());
    let root = Root { name: b"r".to_vec(), kind: RootKind::Opened(vec![l, e]), meta: None };
    assert_eq!(render(&root, &Options::default()), "r\n|-- l -> t\\ a\n`-- e  [error opening dir]\n");
}

#[test]
fn renders_roots_that_were_not_listed() {
    let missing = Root { name: b"nope".to_vec(), kind: RootKind::Missing, meta: None };
    assert_eq!(render(&missing, &Options::default()), "nope  [error opening dir]\n");
    let big = Root { name: b"big".to_vec(), kind: RootKind::OverLimit(12), meta: None };
    assert_eq!(render(&big, &Options::default()), "big  [12 entries exceeds filelimit, not opening dir]\n");
}

#[test]
fn renders_comment_lines() {
    let mut a = file("a");
    a.comment = Some(vec![b"one".to_vec(), b"two".to_vec(), b"three".to_vec()]);
    let root = Root { name: b".".to_vec(), kind: RootKind::Opened(vec![a, file("b")]), meta: None };
    assert_eq!(render(&root, &Options::default()), ".\n|-- a\n|   + one\n|   | two\n|   \\ three\n`-- b\n");
}

#[test]
fn renders_the_report() {
    let f = TextFormatter::new(ascii());
    let mut out = Vec::new();
    let t = Totals { dirs: 2, files: 1, size: 0 };
    f.emit_report(&mut out, &t, &Options::default(), b"");
    assert_eq!(out, b"\n2 directories, 1 file\n");
    let mut out = Vec::new();
    let t = Totals { dirs: 1, files: 0, size: 0 };
    let mut opts = Options::default();
    opts.dirs_only = true;
    f.emit_report(&mut out, &t, &opts, b"");
    assert_eq!(out, b"\n1 directory\n");
    let mut out = Vec::new();
    let mut opts = Options::default();
    opts.du = true;
    f.emit_report(&mut out, &t, &opts, b"       4096");
    assert_eq!(out, b"\n       4096 bytes used in 1 directory, 0 files\n");
}

#[test]
fn escaped_names_are_printable_and_distinct() {
    let tricky: Vec<&[u8]> = vec![b"a b", b"a\\ b", b"\\040", b" ", b"\x07", b"\\a", b"\xff", b"\\377", b"a\"b"];
    let mut seen = Vec::new();
    for name in &tricky {
        let out = esc(name);
        assert!(out.iter().all(|&b| (32..=126).contains(&b)));
        assert!(!seen.contains(&out));
        seen.push(out);
    }
    let mut opts = Options::default();
    opts.quote = true;
    let mut a = Vec::new();
    write_name(&mut a, b"x\"", &opts);
    let mut b = Vec::new();
    write_name(&mut b, b"x\\\"", &opts);
    assert_ne!(a, b);
    opts.qmark = true;
    let mut a = Vec::new();
    write_name(&mut a, &[0x80], &opts);
    let mut b = Vec::new();
    write_name(&mut b, &[0x81], &opts);
    assert_eq!(a, b);
}

#[test]
fn one_line_per_counted_entry() {
    let mut odd = dir("sub\ndir", vec![file("new\nline"), file("x")]);
    odd.err = None;
    let root = Root {
        name: b"top".to_vec(),
        kind: RootKind::Opened(vec![file("a"), odd, dir("e", vec![])]),
        meta: Some(Meta { mode: 0o040755, ..Meta::default() }),
    };
    let t = root.totals();
    let out = render(&root, &Options::default());
    assert_eq!(out.matches('\n').count() as u64, t.dirs + t.files);
    let mut opts = Options::default();
    opts.full_path = true;
    let out = render(&root, &opts);
    assert_eq!(out.matches('\n').count() as u64, t.dirs + t.files);
}
