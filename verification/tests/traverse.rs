use utree::options::Options;
use utree::traverse::{RootWalk, Step};
use utree::walk::{Meta, Node, Root, RootKind, Walker};

fn entry(name: &str, is_dir: bool, ino: u64) -> Node {
    Node {
        name: name.as_bytes().to_vec(),
        is_dir,
        link: None,
        err: None,
        children: None,
        comment: None,
        orphan: false,
        rerun_link: false,
        meta: Meta { fdev: 1, fino: ino, dev: 1, ino, size: 10, ..Meta::default() },
    }
}

fn link(name: &str, target: &str, ino: u64) -> Node {
    let mut n = entry(name, true, ino);
    n.link = Some(target.as_bytes().to_vec());
    n
}

/// A directory tree as a function from path to listing.
type Fs = fn(&[u8]) -> Option<Vec<Node>>;

fn walk(opts: &Options, fs: Fs, root: &str, lstat: Option<Meta>) -> (Root, u64, Vec<Vec<u8>>) {
    let mut w = Walker::new(opts);
    let mut reads = Vec::new();
    let (mut walk, mut step) = RootWalk::start(&mut w, root.as_bytes().to_vec(), lstat);
    loop {
        step = match step {
            Step::Read { path, active: _ } => {
                let listing = fs(&path);
                reads.push(path);
                walk.deliver(&mut w, listing)
            }
            Step::Continue => walk.advance(&mut w),
            Step::Overflow => panic!("overflow"),
            Step::Done => break,
        };
    }
    (walk.finish(), w.errors(), reads)
}

fn root_meta() -> Option<Meta> {
    Some(Meta { dev: 1, ino: 1, size: 100, ..Meta::default() })
}

fn names(nodes: &[Node]) -> Vec<String> {
    nodes.iter().map(|n| String::from_utf8(n.name.clone()).unwrap()).collect()
}

fn opened(root: &Root) -> &Vec<Node> {
    match &root.kind {
        RootKind::Opened(nodes) => nodes,
        _ => panic!("root not opened"),
    }
}

fn plain_tree(path: &[u8]) -> Option<Vec<Node>> {
    match path {
        b"." => Some(vec![entry("b", false, 2), entry("a", true, 3), entry("e", true, 4)]),
        b"./a" => Some(vec![entry("y", false, 5), entry("x", false, 6)]),
        b"./e" => Some(vec![]),
        _ => None,
    }
}

#[test]
fn walks_a_tree_in_sorted_order() {
    let (root, errors, reads) = walk(&Options::default(), plain_tree, ".", root_meta());
    assert_eq!(errors, 0);
    assert_eq!(reads, vec![b".".to_vec(), b"./a".to_vec(), b"./e".to_vec()]);
    let top = opened(&root);
    assert_eq!(names(top), ["a", "b", "e"]);
    assert_eq!(names(top[0].children.as_ref().unwrap()), ["x", "y"]);
    assert!(top[2].children.is_none());
    let t = root.totals();
    assert_eq!((t.dirs, t.files), (3, 3));
}

#[test]
fn prune_drops_empty_directories_and_du_sums_sizes() {
    let mut opts = Options::default();
    opts.prune = true;
    opts.du = true;
    let (root, errors, _) = walk(&opts, plain_tree, ".", root_meta());
    assert_eq!(errors, 0);
    let top = opened(&root);
    assert_eq!(names(top), ["a", "b"]);
    assert_eq!(top[0].meta.size, 30);
    assert_eq!(root.meta.unwrap().size, 140);
}

fn unreadable_tree(path: &[u8]) -> Option<Vec<Node>> {
    match path {
        b"r" => Some(vec![entry("locked", true, 2), entry("big", true, 3)]),
        b"r/big" => Some(vec![entry("1", false, 4), entry("2", false, 5), entry("3", false, 6)]),
        _ => None,
    }
}

#[test]
fn failures_and_file_limits_are_tagged_and_counted() {
    let mut opts = Options::default();
    opts.file_limit = Some(2);
    let (root, errors, _) = walk(&opts, unreadable_tree, "r", root_meta());
    assert_eq!(errors, 2);
    let top = opened(&root);
    assert_eq!(names(top), ["big", "locked"]);
    assert_eq!(top[0].err.as_deref(), Some(&b"3 entries exceeds filelimit, not opening dir"[..]));
    assert_eq!(top[1].err.as_deref(), Some(&b"error opening dir"[..]));
    opts.prune = true;
    let (_, errors, _) = walk(&opts, unreadable_tree, "r", root_meta());
    assert_eq!(errors, 0);
}

fn looping_tree(path: &[u8]) -> Option<Vec<Node>> {
    match path {
        b"." => Some(vec![link("l", "d", 7), entry("d", true, 7)]),
        b"./d" => Some(vec![entry("f", false, 8)]),
        b"./l" => Some(vec![entry("f", false, 8)]),
        _ => None,
    }
}

#[test]
fn a_directory_reached_twice_is_opened_once() {
    let mut opts = Options::default();
    opts.follow_links = true;
    let (root, _, reads) = walk(&opts, looping_tree, ".", root_meta());
    assert_eq!(reads, vec![b".".to_vec(), b"./d".to_vec()]);
    let top = opened(&root);
    assert_eq!(names(top), ["d", "l"]);
    assert!(top[0].children.is_some());
    assert_eq!(top[1].err.as_deref(), Some(&b"recursive, not followed"[..]));
    // Full-tree mode visits in directory order: the link comes first and
    // is followed through its target; the directory itself is still
    // entered, as it is no symlink.
    opts.prune = true;
    let (root, _, reads) = walk(&opts, looping_tree, ".", root_meta());
    assert_eq!(reads, vec![b".".to_vec(), b"./d".to_vec(), b"./d".to_vec()]);
    let top = opened(&root);
    assert_eq!(names(top), ["d", "l"]);
    assert!(top.iter().all(|n| n.err.is_none() && n.children.is_some()));
}

#[test]
fn roots_that_cannot_be_listed() {
    let (root, errors, reads) = walk(&Options::default(), plain_tree, "gone", None);
    assert!(matches!(root.kind, RootKind::Missing));
    assert_eq!(errors, 1);
    assert!(reads.is_empty());
    let (root, errors, _) = walk(&Options::default(), plain_tree, "file", root_meta());
    assert!(matches!(root.kind, RootKind::Unreadable));
    assert_eq!(errors, 0);
    let mut opts = Options::default();
    opts.file_limit = Some(1);
    let (root, _, _) = walk(&opts, plain_tree, ".", root_meta());
    assert!(matches!(root.kind, RootKind::OverLimit(3)));
}

#[test]
fn level_limit_stops_the_descent() {
    let mut opts = Options::default();
    opts.level = Some(1);
    let (root, _, reads) = walk(&opts, plain_tree, ".", root_meta());
    assert_eq!(reads, vec![b".".to_vec()]);
    assert!(opened(&root).iter().all(|n| n.children.is_none()));
}

#[test]
fn prune_keeps_empty_directories_at_the_level_limit() {
    let mut opts = Options::default();
    opts.prune = true;
    opts.level = Some(1);
    let (root, _, reads) = walk(&opts, plain_tree, ".", root_meta());
    assert_eq!(reads, vec![b".".to_vec()]);
    assert_eq!(names(opened(&root)), ["a", "b", "e"]);
    opts.level = Some(2);
    let (root, _, _) = walk(&opts, plain_tree, ".", root_meta());
    assert_eq!(names(opened(&root)), ["a", "b"]);
}

#[test]
fn steps_are_bounded_by_the_listings() {
    let opts = Options::default();
    let mut w = Walker::new(&opts);
    let (mut walk, mut step) = RootWalk::start(&mut w, b".".to_vec(), root_meta());
    let mut advances = 0u64;
    let mut budget = 0u64;
    loop {
        step = match step {
            Step::Read { path, active: _ } => {
                let listing = plain_tree(&path);
                budget += listing.as_ref().map_or(0, |l| l.len() as u64 + 1);
                walk.deliver(&mut w, listing)
            }
            Step::Continue => {
                advances += 1;
                walk.advance(&mut w)
            }
            Step::Overflow => panic!("overflow"),
            Step::Done => break,
        };
    }
    assert!(advances <= budget, "{advances} steps for {budget}");
    assert!(matches!(walk.finish().kind, RootKind::Opened(_)));
}
