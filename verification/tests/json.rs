use utree::options::Options;
use utree::output::json::{encode, JsonFormatter};
use utree::output::Totals;
use utree::walk::{Meta, Node, Root, RootKind};

fn node(name: &str, mode: u32, children: Option<Vec<Node>>) -> Node {
    Node {
        name: name.as_bytes().to_vec(),
        is_dir: mode & 0o170000 == 0o040000,
        link: None,
        err: None,
        children,
        comment: None,
        orphan: false,
        rerun_link: false,
        meta: Meta { mode, ..Meta::default() },
    }
}

fn render(root: &Root, opts: &Options, more: bool) -> String {
    let f = JsonFormatter::new(opts);
    let mut out = Vec::new();
    f.emit_root(&mut out, root, opts, more);
    String::from_utf8(out).unwrap()
}

#[test]
fn encodes_strings() {
    let mut out = Vec::new();
    encode(&mut out, b"a\"b\\c\n\x01\x00\xff");
    assert_eq!(out, b"a\\\"b\\\\c\\n\\u0001\\u0000\xff");
}

#[test]
fn renders_a_root_with_contents() {
    let root = Root {
        name: b".".to_vec(),
        kind: RootKind::Opened(vec![
            node("a", 0o100644, None),
            node("d", 0o040755, Some(vec![node("x", 0o120777, None)])),
        ]),
        meta: Some(Meta { mode: 0o040755, ..Meta::default() }),
    };
    let out = render(&root, &Options::default(), false);
    let expected = [
        "    {\"type\":\"directory\",\"name\":\".\",\"contents\":[\n",
        "        {\"type\":\"file\",\"name\":\"a\"},\n",
        "        {\"type\":\"directory\",\"name\":\"d\",\"contents\":[\n",
        "            {\"type\":\"link\",\"name\":\"x\"}\n",
        "        ]}\n",
        "    ]}\n",
    ]
    .concat();
    assert_eq!(out, expected);
}

#[test]
fn renders_errors_and_metadata() {
    let mut e = node("e", 0o040755, None);
    e.err = Some(b"error opening dir".to_vec());
    let mut r = node("r", 0o040755, None);
    r.err = Some(b"recursive, not followed".to_vec());
    let mut s = node("s", 0o100644, None);
    s.meta.size = 42;
    s.meta.fino = 7;
    let root = Root { name: b"t".to_vec(), kind: RootKind::Opened(vec![e, r, s]), meta: None };
    let mut opts = Options::default();
    opts.show_size = true;
    opts.show_inode = true;
    let out = render(&root, &opts, true);
    let expected = [
        "    {\"type\":\"unknown\",\"name\":\"t\",\"contents\":[\n",
        "        {\"type\":\"directory\",\"name\":\"e\",\"inode\":0,\"size\":0,\"contents\":[{\"error\": \"error opening dir\"}    ]},\n",
        "        {\"type\":\"directory\",\"name\":\"r\",\"inode\":0,\"size\":0,\"contents\":[{\"error\": \"recursive, not followed\"}        ]},\n",
        "        {\"type\":\"file\",\"name\":\"s\",\"inode\":7,\"size\":42}\n",
        "    ]},\n",
    ]
    .concat();
    assert_eq!(out, expected);
}

#[test]
fn renders_unlisted_and_empty_roots() {
    let opts = Options::default();
    let missing = Root { name: b"m".to_vec(), kind: RootKind::Missing, meta: None };
    assert_eq!(
        render(&missing, &opts, false),
        "    {\"type\":\"unknown\",\"name\":\"m\",\"contents\":[{\"error\": \"error opening dir\"}\n    ]}\n"
    );
    let big = Root { name: b"b".to_vec(), kind: RootKind::OverLimit(3), meta: None };
    assert_eq!(
        render(&big, &opts, false),
        "    {\"type\":\"unknown\",\"name\":\"b\",\"contents\":[{\"error\": \"3 entries exceeds filelimit, not opening dir\"}\n    ]}\n"
    );
    let empty = Root { name: b"e".to_vec(), kind: RootKind::Opened(vec![]), meta: None };
    assert_eq!(render(&empty, &opts, true), "    {\"type\":\"unknown\",\"name\":\"e\"},\n");
}

#[test]
fn frames_the_document_and_reports() {
    let opts = Options::default();
    let f = JsonFormatter::new(&opts);
    let mut out = Vec::new();
    f.intro(&mut out, &opts);
    f.emit_report(&mut out, &Totals { dirs: 3, files: 4, size: 9 }, &opts);
    f.outro(&mut out, &opts);
    assert_eq!(out, b"[\n,    {\"type\":\"report\",\"directories\":3,\"files\":4}\n]\n");
    let mut opts = Options::default();
    opts.noindent = true;
    opts.du = true;
    opts.dirs_only = true;
    let mut out = Vec::new();
    f.emit_report(&mut out, &Totals { dirs: 3, files: 4, size: -9 }, &opts);
    assert_eq!(out, b",{\"type\":\"report\",\"size\":-9,\"directories\":3}");
}

#[test]
fn encoded_strings_are_distinct_and_free_of_controls() {
    let names: Vec<&[u8]> = vec![b"\n", b"\\n", b"n", b"\x00", b"\\0", b"\x1f", b"\\u001f", b"\""];
    let mut seen = Vec::new();
    for name in &names {
        let mut out = Vec::new();
        encode(&mut out, name);
        assert!(out.iter().all(|&b| b >= 32));
        assert!(!seen.contains(&out));
        seen.push(out);
    }
}

fn valid_json_string_body(t: &[u8]) -> bool {
    let mut i = 0;
    while i < t.len() {
        match t[i] {
            b'\\' => match t.get(i + 1) {
                Some(b'"' | b'\\' | b'/' | b'b' | b'f' | b'n' | b'r' | b't') => i += 2,
                Some(b'u') if t.len() >= i + 6 && t[i + 2..i + 6].iter().all(|b| b.is_ascii_hexdigit()) => i += 6,
                _ => return false,
            },
            b'"' => return false,
            c if c < 32 => return false,
            _ => i += 1,
        }
    }
    true
}

#[test]
fn every_name_encodes_to_a_valid_json_string() {
    let all: Vec<u8> = (0..=255u8).collect();
    let mut out = Vec::new();
    encode(&mut out, &all);
    assert!(valid_json_string_body(&out));
    let mut out = Vec::new();
    encode(&mut out, b"\x00");
    assert_eq!(out, b"\\u0000");
}

/// A small RFC 8259 checker: returns the index after the value at `i`.
fn skip_ws(t: &[u8], mut i: usize) -> usize {
    while i < t.len() && matches!(t[i], b' ' | b'\n' | b'\t' | b'\r') {
        i += 1;
    }
    i
}

fn value_end(t: &[u8], i: usize) -> Option<usize> {
    let i = skip_ws(t, i);
    match *t.get(i)? {
        b'"' => {
            let mut j = i + 1;
            loop {
                match *t.get(j)? {
                    b'"' => break,
                    b'\\' => j += if t.get(j + 1) == Some(&b'u') { 6 } else { 2 },
                    c if c < 32 => return None,
                    _ => j += 1,
                }
            }
            Some(j + 1)
        }
        b'[' | b'{' => {
            let (close, object) = if t[i] == b'[' { (b']', false) } else { (b'}', true) };
            let mut j = skip_ws(t, i + 1);
            if t.get(j) == Some(&close) {
                return Some(j + 1);
            }
            loop {
                if object {
                    j = value_end(t, j)?;
                    j = skip_ws(t, j);
                    if t.get(j) != Some(&b':') {
                        return None;
                    }
                    j += 1;
                }
                j = skip_ws(t, value_end(t, j)?);
                match t.get(j) {
                    Some(&b',') => j += 1,
                    Some(&c) if c == close => return Some(j + 1),
                    _ => return None,
                }
            }
        }
        b'-' | b'0'..=b'9' => {
            let mut j = i + 1;
            while j < t.len() && t[j].is_ascii_digit() {
                j += 1;
            }
            Some(j)
        }
        _ => None,
    }
}

fn is_json(t: &[u8]) -> bool {
    matches!(value_end(t, 0), Some(end) if skip_ws(t, end) == t.len())
}

#[test]
fn the_whole_listing_is_json() {
    let mut e = node("e", 0o040755, None);
    e.err = Some(b"error opening dir".to_vec());
    let mut l = node("l\"nk", 0o120777, None);
    l.link = Some(b"t\\arget\n".to_vec());
    let roots = vec![
        Root {
            name: b".".to_vec(),
            kind: RootKind::Opened(vec![
                node("a\x01", 0o100644, None),
                e,
                l,
                node("d", 0o040755, Some(vec![node("x", 0o100755, None)])),
                node("empty", 0o040755, Some(vec![])),
            ]),
            meta: Some(Meta { mode: 0o040755, ..Meta::default() }),
        },
        Root { name: b"gone".to_vec(), kind: RootKind::Missing, meta: None },
        Root { name: b"big".to_vec(), kind: RootKind::OverLimit(7), meta: None },
        Root { name: b"none".to_vec(), kind: RootKind::Opened(vec![]), meta: None },
    ];
    for (noindent, no_report, du) in [(false, false, false), (true, false, true), (false, true, false), (true, true, true)] {
        let mut opts = Options::default();
        opts.noindent = noindent;
        opts.no_report = no_report;
        opts.du = du;
        opts.show_size = du;
        opts.show_inode = true;
        opts.show_device = true;
        let f = JsonFormatter::new(&opts);
        let mut out = Vec::new();
        f.intro(&mut out, &opts);
        for (i, root) in roots.iter().enumerate() {
            f.emit_root(&mut out, root, &opts, i + 1 < roots.len());
        }
        if !opts.no_report {
            f.emit_report(&mut out, &Totals { dirs: 3, files: 4, size: 9 }, &opts);
        }
        f.outro(&mut out, &opts);
        assert!(is_json(&out), "{}", String::from_utf8_lossy(&out));
    }
    assert!(!is_json(b"[{\"a\":1},]"));
    assert!(!is_json(b"[{\"error\": \"x\"}\n{\"a\":1}]"));
}

#[test]
fn renders_mode_and_permissions_under_p() {
    let files = vec![
        node("a", 0o100644, None),
        node("b", 0o104755, None),
        node("c", 0o102644, None),
        node("d", 0o041777, None),
        node("e", 0o041776, None),
        node("f", 0o120777, None),
    ];
    let root = Root { name: b"t".to_vec(), kind: RootKind::Opened(files), meta: None };
    let mut opts = Options::default();
    opts.show_perms = true;
    opts.show_inode = true;
    opts.show_size = true;
    let out = render(&root, &opts, false);
    let expected = [
        "    {\"type\":\"unknown\",\"name\":\"t\",\"contents\":[\n",
        "        {\"type\":\"file\",\"name\":\"a\",\"inode\":0,\"mode\":\"0644\",\"prot\":\"-rw-r--r--\",\"size\":0},\n",
        "        {\"type\":\"file\",\"name\":\"b\",\"inode\":0,\"mode\":\"4755\",\"prot\":\"-rwsr-xr-x\",\"size\":0},\n",
        "        {\"type\":\"file\",\"name\":\"c\",\"inode\":0,\"mode\":\"2644\",\"prot\":\"-rw-r-Sr--\",\"size\":0},\n",
        "        {\"type\":\"directory\",\"name\":\"d\",\"inode\":0,\"mode\":\"1777\",\"prot\":\"drwxrwxrwt\",\"size\":0},\n",
        "        {\"type\":\"directory\",\"name\":\"e\",\"inode\":0,\"mode\":\"1776\",\"prot\":\"drwxrwxrwT\",\"size\":0},\n",
        "        {\"type\":\"link\",\"name\":\"f\",\"inode\":0,\"mode\":\"0777\",\"prot\":\"lrwxrwxrwx\",\"size\":0}\n",
        "    ]}\n",
    ]
    .concat();
    assert_eq!(out, expected);
}
