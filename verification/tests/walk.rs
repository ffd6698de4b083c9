use utree::options::{Options, OutputFormat, SortKey, TopSort};
use utree::sort::Order;
use utree::walk::{collect_boundaries, join_path, last_component, path_push, within_depth, Meta, Node, Root, RootKind, Target, Visit, Walker};

fn node(name: &str, is_dir: bool) -> Node {
    Node {
        name: name.as_bytes().to_vec(),
        is_dir,
        link: None,
        err: None,
        children: None,
        comment: None,
        orphan: false,
        rerun_link: false,
        meta: Meta::default(),
    }
}

fn names(nodes: &[Node]) -> Vec<String> {
    nodes.iter().map(|n| String::from_utf8(n.name.clone()).unwrap()).collect()
}

#[test]
fn totals_count_every_listed_entry() {
    let mut d = node("d", true);
    d.children = Some(vec![node("x", false), node("y", true)]);
    let root = Root {
        name: b".".to_vec(),
        kind: RootKind::Opened(vec![node("a", false), d]),
        meta: Some(Meta { size: 5, ..Meta::default() }),
    };
    let t = root.totals();
    assert_eq!((t.dirs, t.files, t.size), (3, 2, 5));
    let t = Root { name: b"m".to_vec(), kind: RootKind::Missing, meta: None }.totals();
    assert_eq!((t.dirs, t.files, t.size), (0, 0, 0));
    let t = Root { name: b"f".to_vec(), kind: RootKind::Unreadable, meta: None }.totals();
    assert_eq!((t.dirs, t.files), (0, 1));
    let t = Root { name: b"b".to_vec(), kind: RootKind::OverLimit(9), meta: None }.totals();
    assert_eq!((t.dirs, t.files), (1, 0));
    let t = Root { name: b"e".to_vec(), kind: RootKind::Opened(vec![]), meta: None }.totals();
    assert_eq!((t.dirs, t.files), (1, 0));
}

#[test]
fn joins_paths() {
    assert_eq!(join_path(b"/", b"etc"), b"/etc");
    assert_eq!(join_path(b"a", b"b"), b"a/b");
    assert_eq!(join_path(b"a/", b"b"), b"a//b");
    assert_eq!(path_push(b"a/", b"b"), b"a/b");
    assert_eq!(path_push(b"a", b"b"), b"a/b");
    assert_eq!(path_push(b"a", b"/abs"), b"/abs");
    assert_eq!(path_push(b"", b"b"), b"b");
}

#[test]
fn names_roots() {
    let mut opts = Options::default();
    let w = Walker::new(&opts);
    assert_eq!(w.root_name(b"dir//"), b"dir//");
    opts.full_path = true;
    let w = Walker::new(&opts);
    assert_eq!(w.root_name(b"dir//"), b"dir");
    assert_eq!(w.root_name(b"/"), b"/");
}

#[test]
fn hides_entries() {
    let mut opts = Options::default();
    let w = Walker::new(&opts);
    assert!(!w.listed_name(b"d", b".hidden", &None));
    assert!(w.listed_name(b"d", b"00Tree.html", &None));
    opts.all_files = true;
    opts.output = OutputFormat::Html;
    let w = Walker::new(&opts);
    assert!(w.listed_name(b"d", b".hidden", &None));
    assert!(!w.listed_name(b"d", b"00Tree.html", &None));
}

#[test]
fn a_sub_listing_lists_its_own_listing_file() {
    let mut opts = Options::default();
    opts.output = OutputFormat::Html;
    opts.rerun = true;
    let w = Walker::new(&opts);
    let own = Some(join_path(b"top/d", b"00Tree.html"));
    assert!(w.listed_name(b"top/d", b"00Tree.html", &own));
    assert!(!w.listed_name(b"top/d/e", b"00Tree.html", &own));
    assert!(!w.listed_name(b"top", b"00Tree.html", &own));
    assert!(!w.listed_name(b"top/d", b"00Tree.html", &None));
    let mut opts = Options::default();
    opts.rerun = true;
    let w = Walker::new(&opts);
    assert!(w.listed_name(b"top/d", b"00Tree.html", &own));
    assert!(w.listed_name(b"top", b"00Tree.html", &None));
}

#[test]
fn keeps_entries_by_pattern() {
    let mut opts = Options::default();
    opts.patterns = vec![b"*.c".to_vec()];
    opts.ipatterns = vec![b"skip*".to_vec()];
    let w = Walker::new(&opts);
    assert!(w.keep_entry(b"a.c", b"./a.c", false, false, true));
    assert!(!w.keep_entry(b"a.h", b"./a.h", false, false, true));
    // Directories are never dropped by -P, and -P is off when inactive.
    assert!(w.keep_entry(b"sub", b"./sub", true, true, true));
    assert!(w.keep_entry(b"a.h", b"./a.h", false, false, false));
    assert!(!w.keep_entry(b"skip.c", b"./skip.c", false, false, true));
    let mut opts = Options::default();
    opts.dirs_only = true;
    let w = Walker::new(&opts);
    assert!(!w.keep_entry(b"f", b"./f", false, false, true));
    assert!(w.keep_entry(b"d", b"./d", true, true, true));
}

#[test]
fn turns_patterns_off_below_matching_directories() {
    let mut opts = Options::default();
    opts.patterns = vec![b"src".to_vec()];
    opts.prune = true;
    let w = Walker::new(&opts);
    assert!(!w.dir_pattern_active(true, b"./src"));
    assert!(w.dir_pattern_active(true, b"./lib"));
    assert!(!w.dir_pattern_active(false, b"./lib"));
    let mut opts = Options::default();
    opts.patterns = vec![b"src".to_vec()];
    let w = Walker::new(&opts);
    assert!(w.dir_pattern_active(true, b"./src"));
}

#[test]
fn visits_directories_and_detects_loops() {
    let mut opts = Options::default();
    opts.follow_links = true;
    opts.level = Some(3);
    let mut w = Walker::new(&opts);
    let mut d = node("d", true);
    d.meta.fdev = 1;
    d.meta.fino = 10;
    assert!(w.visit(&mut d, 1, 1) == Visit::Open);
    let mut l = node("l", true);
    l.link = Some(b"d".to_vec());
    l.meta.fdev = 1;
    l.meta.fino = 10;
    assert!(w.visit(&mut l, 1, 1) == Visit::Stay);
    assert_eq!(l.err.as_deref(), Some(&b"recursive, not followed"[..]));
    let mut f = node("f", false);
    assert!(w.visit(&mut f, 1, 1) == Visit::Leave);
    let mut deep = node("deep", true);
    deep.meta.fino = 11;
    deep.meta.fdev = 1;
    assert!(w.visit(&mut deep, 3, 1) == Visit::Stay);
    assert!(!deep.rerun_link);
    assert_eq!(w.errors(), 0);
}

#[test]
fn visits_without_following_links() {
    let mut opts = Options::default();
    opts.rerun = true;
    opts.level = Some(1);
    opts.xdev = true;
    let mut w = Walker::new(&opts);
    let mut l = node("l", true);
    l.link = Some(b"t".to_vec());
    assert!(w.visit(&mut l, 1, 0) == Visit::Stay);
    assert!(!l.rerun_link);
    assert!(l.err.is_none());
    let mut d = node("d", true);
    assert!(w.visit(&mut d, 1, 0) == Visit::Stay);
    assert!(d.rerun_link);
    let mut other = node("o", true);
    other.meta.fdev = 9;
    assert!(w.visit(&mut other, 1, 0) == Visit::Leave);
}

#[test]
fn records_failures() {
    let opts = Options::default();
    let mut w = Walker::new(&opts);
    let mut d = node("d", true);
    w.open_failed(&mut d);
    assert_eq!(d.err.as_deref(), Some(&b"error opening dir"[..]));
    assert_eq!(w.errors(), 1);
    let mut e = node("e", true);
    w.limit_exceeded(&mut e, 12);
    assert_eq!(e.err.as_deref(), Some(&b"12 entries exceeds filelimit, not opening dir"[..]));
    assert_eq!(w.errors(), 2);
    w.root_missing();
    assert_eq!(w.errors(), 3);
    let mut opts = Options::default();
    opts.prune = true;
    opts.file_limit = Some(2);
    let mut w = Walker::new(&opts);
    let mut d = node("d", true);
    w.open_failed(&mut d);
    assert_eq!(w.errors(), 0);
    assert!(w.over_limit(3));
    assert!(!w.over_limit(2));
}

#[test]
fn attaches_listings_and_sums_sizes() {
    let mut opts = Options::default();
    opts.du = true;
    let w = Walker::new(&opts);
    let mut d = node("d", true);
    d.meta.size = 4096;
    let mut a = node("a", false);
    a.meta.size = 10;
    let mut b = node("b", false);
    b.meta.size = 20;
    w.attach(&mut d, vec![a, b]);
    assert_eq!(d.meta.size, 4126);
    assert_eq!(d.children.as_ref().map(|c| c.len()), Some(2));
    let mut e = node("e", true);
    w.attach(&mut e, vec![]);
    assert!(e.children.is_none());
    assert_eq!(w.root_size(100, &[node("x", false)]), 100);
}

#[test]
fn prunes_empty_directories() {
    let mut opts = Options::default();
    opts.prune = true;
    opts.matchdirs = true;
    opts.patterns = vec![b"keep".to_vec()];
    opts.level = Some(2);
    let w = Walker::new(&opts);
    assert!(w.should_prune(&node("gone", true), 1, true));
    assert!(!w.should_prune(&node("keep", true), 1, true));
    assert!(!w.should_prune(&node("gone", true), 2, true));
}

#[test]
fn builds_listed_entries() {
    let lstat = Meta { mode: 0o120777, dev: 3, ino: 4, size: 1, ..Meta::default() };
    let t = Target { dev: 5, ino: 6, is_dir: true, mode: 0o040755 };
    let n = Node::listed(b"l".to_vec(), lstat, false, true, Some(b"tgt".to_vec()), Some(t));
    assert!(n.is_dir && !n.orphan);
    assert_eq!(n.link.as_deref(), Some(&b"tgt"[..]));
    assert_eq!((n.meta.fdev, n.meta.fino, n.meta.lnk_mode), (5, 6, 0o040755));
    let n = Node::listed(b"o".to_vec(), lstat, false, true, Some(b"gone".to_vec()), None);
    assert!(n.orphan && !n.is_dir);
    let n = Node::listed(b"u".to_vec(), lstat, false, true, None, None);
    assert!(!n.orphan);
    assert_eq!(n.link.as_deref(), Some(&b"[Error reading symbolic link information]"[..]));
    let plain = Meta { mode: 0o100644, dev: 3, ino: 4, ..Meta::default() };
    let n = Node::listed(b"f".to_vec(), plain, false, false, None, None);
    assert!(n.link.is_none());
    assert_eq!((n.meta.fdev, n.meta.fino, n.meta.lnk_mode), (3, 4, 0o100644));
}

#[test]
fn sorts_entries() {
    let opts = Options::default();
    let w = Walker::new(&opts);
    let mut v = vec![node("b", false), node("a", true), node("c", false), node("B", false)];
    w.sort_nodes(&mut v);
    assert_eq!(names(&v), ["B", "a", "b", "c"]);
    let mut opts = Options::default();
    opts.top = TopSort::DirsFirst;
    opts.reverse = true;
    let w = Walker::new(&opts);
    let mut v = vec![node("b", false), node("a", true), node("c", false), node("z", true)];
    w.sort_nodes(&mut v);
    assert_eq!(names(&v), ["z", "a", "c", "b"]);
    let mut opts = Options::default();
    opts.sort = SortKey::Size;
    let w = Walker::new(&opts);
    let mut small = node("s", false);
    small.meta.size = 1;
    let mut big = node("t", false);
    big.meta.size = 9;
    let mut big2 = node("a", false);
    big2.meta.size = 9;
    let mut v = vec![small, big, big2];
    w.sort_nodes(&mut v);
    assert_eq!(names(&v), ["a", "t", "s"]);
    let mut opts = Options::default();
    opts.sort = SortKey::Unsorted;
    opts.top = TopSort::FilesFirst;
    let w = Walker::new(&opts);
    let mut v = vec![node("b", true), node("a", false)];
    w.sort_nodes(&mut v);
    assert_eq!(names(&v), ["b", "a"]);
    assert!(w.compare(&node("b", true), &node("a", false)) == Order::Greater);
}

#[test]
fn measures_depth() {
    let mut d = node("d", true);
    d.children = Some(vec![node("x", false)]);
    let v = vec![d];
    assert!(within_depth(&v, 2));
    assert!(!within_depth(&v, 1));
}

#[test]
fn collects_rerun_boundaries_in_listing_order() {
    let mut inner = node("c", true);
    inner.rerun_link = true;
    let mut b = node("b", true);
    b.rerun_link = true;
    b.children = Some(vec![inner]);
    let mut d = node("d", true);
    d.children = Some(vec![node("x", false)]);
    let mut out = vec![b"first".to_vec()];
    collect_boundaries(b"top", &[node("a", false), b, d], &mut out);
    assert_eq!(out, vec![b"first".to_vec(), b"top/b".to_vec(), b"top/b/c".to_vec()]);
    let mut out = Vec::new();
    let mut r = node("r", true);
    r.rerun_link = true;
    collect_boundaries(b"/", &[r], &mut out);
    assert_eq!(out, vec![b"/r".to_vec()]);
}

#[test]
fn reverse_flips_each_comparison() {
    let plain = Options::default();
    let mut rev = Options::default();
    rev.reverse = true;
    let (wp, wr) = (Walker::new(&plain), Walker::new(&rev));
    let pairs = [("a", "b"), ("b", "a"), ("same", "same"), ("ab", "a")];
    for (x, y) in pairs {
        let p = wp.compare(&node(x, false), &node(y, false));
        let r = wr.compare(&node(x, false), &node(y, false));
        let flipped = match p {
            Order::Less => Order::Greater,
            Order::Equal => Order::Equal,
            Order::Greater => Order::Less,
        };
        assert!(r == flipped);
    }
    let mut grouped = Options::default();
    grouped.top = TopSort::DirsFirst;
    grouped.reverse = true;
    let w = Walker::new(&grouped);
    assert!(w.compare(&node("z", true), &node("a", false)) == Order::Less);
}

#[test]
fn symlink_to_an_entered_directory_is_never_opened_again() {
    let mut opts = Options::default();
    opts.follow_links = true;
    let mut w = Walker::new(&opts);
    let mut first = node("first", true);
    first.link = Some(b"t".to_vec());
    first.meta.fdev = 3;
    first.meta.fino = 7;
    assert!(w.visit(&mut first, 1, 3) == Visit::Open);
    for depth in [1, 2, 5] {
        let mut again = node("again", true);
        again.link = Some(b"../t".to_vec());
        again.meta.fdev = 3;
        again.meta.fino = 7;
        assert!(w.visit(&mut again, depth, 9) != Visit::Open);
    }
}

#[test]
fn matchdirs_sees_the_last_component_of_a_joined_path() {
    let mut opts = Options::default();
    opts.patterns = vec![b"src".to_vec()];
    opts.matchdirs = true;
    let w = Walker::new(&opts);
    let path = join_path(b"top/lib", b"src");
    assert!(!w.dir_pattern_active(true, &path));
    let path = join_path(b"/", b"src");
    assert!(!w.dir_pattern_active(true, &path));
    assert!(w.dir_pattern_active(true, &join_path(b"src", b"x")));
}

#[test]
fn any_arrival_order_sorts_to_one_listing() {
    for key in [SortKey::Name, SortKey::Size, SortKey::Mtime] {
        let mut opts = Options::default();
        opts.sort = key;
        opts.top = TopSort::DirsFirst;
        let w = Walker::new(&opts);
        let make = |order: &[usize]| {
            let all = [("c", false, 3), ("a", true, 1), ("b", false, 1), ("d", true, 2)];
            order
                .iter()
                .map(|&i| {
                    let (n, d, v) = all[i];
                    let mut x = node(n, d);
                    x.meta.size = v;
                    x.meta.mtime = v;
                    x
                })
                .collect::<Vec<Node>>()
        };
        let mut first = make(&[0, 1, 2, 3]);
        let mut second = make(&[3, 2, 1, 0]);
        w.sort_nodes(&mut first);
        w.sort_nodes(&mut second);
        assert_eq!(names(&first), names(&second));
    }
}

#[test]
fn last_component_undoes_join_path() {
    for dir in [&b"/"[..], b"top", b"top/lib", b"a/b/", b""] {
        for name in [&b"src"[..], b"x", b"", b"a b"] {
            assert_eq!(last_component(&join_path(dir, name)), name);
        }
    }
    assert_eq!(last_component(b"no_slash"), b"no_slash");
    assert_eq!(last_component(b"ends/"), b"");
}

#[test]
fn entries_that_compare_equal_keep_their_order() {
    for reverse in [false, true] {
        let mut opts = Options::default();
        opts.sort = SortKey::Name;
        opts.reverse = reverse;
        let w = Walker::new(&opts);
        let sized = |size: i64| {
            let mut n = node("a", false);
            n.meta.size = size;
            n
        };
        let mut nodes = vec![node("b", false), sized(1), node("c", false), sized(2)];
        w.sort_nodes(&mut nodes);
        let sizes: Vec<i64> = nodes.iter().filter(|n| n.name == b"a").map(|n| n.meta.size).collect();
        assert_eq!(sizes, vec![1, 2]);
        let mut nodes = vec![sized(2), node("b", false), sized(1)];
        w.sort_nodes(&mut nodes);
        let sizes: Vec<i64> = nodes.iter().filter(|n| n.name == b"a").map(|n| n.meta.size).collect();
        assert_eq!(sizes, vec![2, 1]);
    }
}
