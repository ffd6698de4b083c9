//! The walked tree and the decisions of the directory walk.

use vstd::prelude::*;
use std::collections::HashSet;
use crate::output::Totals;
use crate::options::{Options, OutputFormat};
use crate::pattern::{any_match, any_hit, patterns_fit};
use crate::lits::{recursive_note, error_opening, over_limit_tail, link_read_error, listing_file, put_recursive_note, put_error_opening, put_over_limit_tail, put_link_read_error};
use crate::digits::{decimal, push_decimal};

verus! {

/// lstat-side metadata (only `lnk_mode` comes from a followed link).
#[derive(Clone, Copy)]
pub struct Meta {
    pub mode: u32,
    pub uid: u32,
    pub gid: u32,
    pub size: i64,
    pub mtime: i64,
    pub ctime: i64,
    /// lstat inode and device.
    pub ino: u64,
    pub dev: u64,
    /// Followed inode and device (zero for roots).
    pub fino: u64,
    pub fdev: u64,
    /// Followed mode for symlinks; 0 for orphans.
    pub lnk_mode: u32,
}

impl Default for Meta {
    /// All fields zero.
    fn default() -> (m: Meta)
        ensures
            m.mode == 0 && m.uid == 0 && m.gid == 0 && m.size == 0 && m.mtime == 0 && m.ctime == 0,
            m.ino == 0 && m.dev == 0 && m.fino == 0 && m.fdev == 0 && m.lnk_mode == 0,
    {
        Meta { mode: 0, uid: 0, gid: 0, size: 0, mtime: 0, ctime: 0, ino: 0, dev: 0, fino: 0, fdev: 0, lnk_mode: 0 }
    }
}

/// One listed entry and what was found below it.
pub struct Node {
    /// Entry name as raw bytes (no encoding assumed).
    pub name: Vec<u8>,
    /// True also for symlinks pointing at directories.
    pub is_dir: bool,
    pub link: Option<Vec<u8>>,
    /// Trailing annotation such as "error opening dir".
    pub err: Option<Vec<u8>>,
    /// None means nothing below: empty, filtered out, or never opened.
    pub children: Option<Vec<Node>>,
    /// --info description lines.
    pub comment: Option<Vec<Vec<u8>>>,
    /// Symlink whose target could not be stat'ed.
    pub orphan: bool,
    /// -R boundary: a directory at the deepest -L level that gets its
    /// own listing file.
    pub rerun_link: bool,
    pub meta: Meta,
}

pub enum RootKind {
    /// lstat failed; counts as nothing.
    Missing,
    /// Cannot be listed (e.g. a plain file); counts one file.
    Unreadable,
    /// Over --filelimit; counts as one directory.
    OverLimit(usize),
    /// An empty listing counts zero.
    Opened(Vec<Node>),
}

pub struct Root {
    /// The path argument; trailing slashes stripped under -f.
    pub name: Vec<u8>,
    pub kind: RootKind,
    /// None when lstat failed.
    pub meta: Option<Meta>,
}

/// Directories among `nodes` and everything below them.
pub open spec fn dirs_in(nodes: Seq<Node>) -> nat
    decreases nodes,
{
    if nodes.len() == 0 {
        0
    } else {
        dirs_in(nodes.drop_last()) + node_dirs(nodes.last())
    }
}

/// `node` itself if a directory, plus the directories below it.
pub open spec fn node_dirs(node: Node) -> nat
    decreases node,
{
    (if node.is_dir { 1nat } else { 0nat }) + match node.children {
        Some(c) => dirs_in(c@),
        None => 0,
    }
}

/// Non-directories among `nodes` and everything below them.
pub open spec fn files_in(nodes: Seq<Node>) -> nat
    decreases nodes,
{
    if nodes.len() == 0 {
        0
    } else {
        files_in(nodes.drop_last()) + node_files(nodes.last())
    }
}

/// `node` itself if not a directory, plus the files below it.
pub open spec fn node_files(node: Node) -> nat
    decreases node,
{
    (if node.is_dir { 0nat } else { 1nat }) + match node.children {
        Some(c) => files_in(c@),
        None => 0,
    }
}


proof fn lemma_counts_prefix(nodes: Seq<Node>, i: int)
    requires
        0 <= i <= nodes.len(),
    ensures
        dirs_in(nodes.take(i)) <= dirs_in(nodes),
        files_in(nodes.take(i)) <= files_in(nodes),
    decreases nodes.len(),
{
    if i < nodes.len() {
        assert(nodes.drop_last().take(i) =~= nodes.take(i));
        lemma_counts_prefix(nodes.drop_last(), i);
    } else {
        assert(nodes.take(i) =~= nodes);
    }
}

/// Counts every directory and file in `nodes`, recursively; `None`
/// when either count would leave u64.
pub(crate) fn count_checked(nodes: &[Node]) -> (r: Option<Totals>)
    ensures
        r is Some <==> dirs_in(nodes@) <= u64::MAX && files_in(nodes@) <= u64::MAX,
        r matches Some(t) ==> t.dirs == dirs_in(nodes@) && t.files == files_in(nodes@) && t.size == 0,
    decreases nodes@,
{
    let mut totals = Totals::zero();
    let mut i: usize = 0;
    while i < nodes.len()
        invariant
            i <= nodes@.len(),
            totals.dirs == dirs_in(nodes@.take(i as int)),
            totals.files == files_in(nodes@.take(i as int)),
            totals.size == 0,
        decreases nodes@.len() - i,
    {
        let node = &nodes[i];
        proof {
            lemma_counts_prefix(nodes@, i + 1);
            assert(nodes@.take(i + 1).drop_last() =~= nodes@.take(i as int));
            assert(nodes@.take(i + 1).last() == nodes@[i as int]);
            assert(dirs_in(nodes@.take(i + 1)) == dirs_in(nodes@.take(i as int)) + node_dirs(nodes@[i as int]));
            assert(files_in(nodes@.take(i + 1)) == files_in(nodes@.take(i as int)) + node_files(nodes@[i as int]));
        }
        let own_dir: u64 = if node.is_dir {
            1
        } else {
            0
        };
        let mut below_dirs: u64 = 0;
        let mut below_files: u64 = 0;
        if let Some(children) = &node.children {
            assert(decreases_to!(nodes@ => children@));
            match count_checked(children.as_slice()) {
                Some(below) => {
                    below_dirs = below.dirs;
                    below_files = below.files;
                },
                None => {
                    return None;
                },
            }
        }
        let dirs: u128 = totals.dirs as u128 + own_dir as u128 + below_dirs as u128;
        let files: u128 = totals.files as u128 + (1 - own_dir) as u128 + below_files as u128;
        if dirs > u64::MAX as u128 || files > u64::MAX as u128 {
            return None;
        }
        totals.dirs = dirs as u64;
        totals.files = files as u64;
        i += 1;
    }
    assert(nodes@.take(nodes@.len() as int) =~= nodes@);
    Some(totals)
}

/// Counts every directory and file in `nodes`, recursively.
fn count(nodes: &[Node]) -> (t: Totals)
    requires
        dirs_in(nodes@) <= u64::MAX,
        files_in(nodes@) <= u64::MAX,
    ensures
        t.dirs == dirs_in(nodes@),
        t.files == files_in(nodes@),
        t.size == 0,
    decreases nodes@,
{
    let mut totals = Totals::zero();
    let mut i: usize = 0;
    while i < nodes.len()
        invariant
            i <= nodes@.len(),
            dirs_in(nodes@) <= u64::MAX,
            files_in(nodes@) <= u64::MAX,
            totals.dirs == dirs_in(nodes@.take(i as int)),
            totals.files == files_in(nodes@.take(i as int)),
            totals.size == 0,
        decreases nodes@.len() - i,
    {
        let node = &nodes[i];
        proof {
            lemma_counts_prefix(nodes@, i + 1);
            assert(nodes@.take(i + 1).drop_last() =~= nodes@.take(i as int));
            assert(nodes@.take(i + 1).last() == nodes@[i as int]);
            assert(dirs_in(nodes@.take(i + 1)) == dirs_in(nodes@.take(i as int)) + node_dirs(nodes@[i as int]));
            assert(files_in(nodes@.take(i + 1)) == files_in(nodes@.take(i as int)) + node_files(nodes@[i as int]));
        }
        if node.is_dir {
            totals.dirs = totals.dirs + 1;
        } else {
            totals.files = totals.files + 1;
        }
        if let Some(children) = &node.children {
            assert(decreases_to!(nodes@ => children@));
            let below = count(children.as_slice());
            totals.add(&below);
        }
        i += 1;
    }
    assert(nodes@.take(nodes@.len() as int) =~= nodes@);
    totals
}

/// The directories a root counts in the report: none when missing or
/// unreadable, itself when over the file limit, else itself and every
/// directory listed below it.
pub open spec fn root_dirs(r: Root) -> nat {
    match r.kind {
        RootKind::Missing => 0,
        RootKind::Unreadable => 0,
        RootKind::OverLimit(_) => 1,
        RootKind::Opened(c) => dirs_in(c@) + 1,
    }
}

/// The files a root counts in the report: itself when it cannot be
/// listed, else every non-directory listed below it.
pub open spec fn root_files(r: Root) -> nat {
    match r.kind {
        RootKind::Missing => 0,
        RootKind::Unreadable => 1,
        RootKind::OverLimit(_) => 0,
        RootKind::Opened(c) => files_in(c@),
    }
}

/// The size a root counts in the report: its own (0 when lstat failed).
pub open spec fn root_size(r: Root) -> int {
    match r.meta {
        Some(m) => m.size as int,
        None => 0,
    }
}

impl Root {
    /// What this root contributes to the report: nothing when it is
    /// missing, one file when it cannot be listed, one directory when
    /// over the file limit, else itself plus everything listed below
    /// it. The size is the root's own size (its --du total).
    pub fn totals(&self) -> (t: Totals)
        requires
            self.kind matches RootKind::Opened(c) ==> dirs_in(c@) < u64::MAX && files_in(c@) <= u64::MAX,
        ensures
            t.dirs == root_dirs(*self),
            t.files == root_files(*self),
            t.size == root_size(*self),
    {
        let mut totals = match &self.kind {
            RootKind::Missing => Totals::zero(),
            RootKind::Unreadable => Totals { dirs: 0, files: 1, size: 0 },
            RootKind::OverLimit(_) => Totals { dirs: 1, files: 0, size: 0 },
            RootKind::Opened(children) => {
                let mut totals = count(children.as_slice());
                totals.dirs = totals.dirs + 1;
                totals
            },
        };
        totals.size = match &self.meta {
            Some(m) => m.size,
            None => 0,
        };
        totals
    }
}

/// `dir` and `name` joined by a `/` (no doubled slash after the root `/`).
pub open spec fn joined(dir: Seq<u8>, name: Seq<u8>) -> Seq<u8> {
    if dir == seq![47u8] {
        seq![47u8] + name
    } else {
        dir + seq![47u8] + name
    }
}

/// Joins a directory path and an entry name.
pub fn join_path(dir: &[u8], name: &[u8]) -> (r: Vec<u8>)
    ensures
        r@ == joined(dir@, name@),
{
    let mut out: Vec<u8> = Vec::new();
    if dir.len() == 1 && dir[0] == 47u8 {
        assert(dir@ =~= seq![47u8]);
        out.push(47u8);
    } else {
        append(&mut out, dir);
        out.push(47u8);
    }
    append(&mut out, name);
    assert(out@ =~= joined(dir@, name@));
    out
}

/// Appends the bytes of `s` to `out`.
pub fn append(out: &mut Vec<u8>, s: &[u8])
    ensures
        final(out)@ == old(out)@ + s@,
{
    let mut i: usize = 0;
    while i < s.len()
        invariant
            i <= s@.len(),
            out@ == old(out)@ + s@.take(i as int),
        decreases s@.len() - i,
    {
        out.push(s[i]);
        i += 1;
        assert(out@ =~= old(out)@ + s@.take(i as int));
    }
    assert(s@.take(s@.len() as int) =~= s@);
}

/// Index of the last `/` in `path` before `i`, or -1.
pub open spec fn last_slash_before(path: Seq<u8>, i: int) -> int
    decreases i,
{
    if i <= 0 {
        -1
    } else if path[i - 1] == 47 {
        i - 1
    } else {
        last_slash_before(path, i - 1)
    }
}

/// The part of `path` after its last `/` (all of it when it has none).
pub open spec fn last_part(path: Seq<u8>) -> Seq<u8> {
    path.subrange(last_slash_before(path, path.len() as int) + 1, path.len() as int)
}

pub(crate) proof fn lemma_last_slash(path: Seq<u8>, i: int)
    requires
        0 <= i <= path.len(),
    ensures
        -1 <= last_slash_before(path, i) < i,
        last_slash_before(path, i) >= 0 ==> path[last_slash_before(path, i)] == 47,
        forall|j: int| last_slash_before(path, i) < j < i ==> path[j] != 47,
    decreases i,
{
    if i > 0 && path[i - 1] != 47 {
        lemma_last_slash(path, i - 1);
    }
}

/// The last component of a path.
pub fn last_component(path: &[u8]) -> (r: &[u8])
    ensures
        r@ == last_part(path@),
{
    let mut i = path.len();
    while i > 0
        invariant
            i <= path@.len(),
            last_slash_before(path@, i as int) == last_slash_before(path@, path@.len() as int),
        decreases i,
    {
        if path[i - 1] == 47u8 {
            return vstd::slice::slice_subrange(path, i, path.len());
        }
        i -= 1;
    }
    path
}

/// The key a (device, inode) pair is remembered under.
pub open spec fn id_key(dev: u64, ino: u64) -> u128 {
    (dev as int * 0x1_0000_0000_0000_0000 + ino as int) as u128
}

fn key_of(dev: u64, ino: u64) -> (k: u128)
    ensures
        k == id_key(dev, ino),
{
    (dev as u128) * 0x1_0000_0000_0000_0000u128 + (ino as u128)
}

/// Whether the walk builds the whole tree before sorting (--prune,
/// --matchdirs, --du), which also turns pattern matching off below a
/// directory whose name matches.
pub open spec fn full_tree(o: Options) -> bool {
    o.prune || o.matchdirs || o.du
}

/// The deepest level listed: -L, or no limit.
pub open spec fn limit(o: Options) -> nat {
    match o.level {
        Some(l) => l as nat,
        None => usize::MAX as nat,
    }
}

/// `s` without its trailing slashes (a lone `/` stays).
pub open spec fn strip_slashes(s: Seq<u8>) -> Seq<u8>
    decreases s.len(),
{
    if s.len() > 1 && s.last() == 47 {
        strip_slashes(s.drop_last())
    } else {
        s
    }
}

/// The bytes of an annotation, if there is one.
pub open spec fn note_view(note: Option<Vec<u8>>) -> Option<Seq<u8>> {
    match note {
        Some(e) => Some(e@),
        None => None,
    }
}

/// Below a directory at `path`, pattern matching stays on only if it
/// was on above and, in full-tree mode, neither the path (or a part of
/// it after a `/`) nor its last component matches a -P pattern.
pub open spec fn dir_active(o: Options, above: bool, path: Seq<u8>) -> bool {
    above && !(full_tree(o) && o.patterns@.len() > 0 && (any_hit(path, o.patterns@, true, o.ignore_case, true)
        || any_hit(last_part(path), o.patterns@, true, o.ignore_case, false)))
}

/// Whether the entry `name` of the directory `dir` is read at all: dot
/// files are hidden unless -a; under -H so is the listing file
/// `00Tree.html`, except the output file of the -R sub-listing being
/// walked (`own_output`): that file is created before the walk, so the
/// sub-listing lists it.
pub open spec fn name_listed(o: Options, own_output: Option<Vec<u8>>, dir: Seq<u8>, name: Seq<u8>) -> bool {
    &&& !(o.output == OutputFormat::Html && name == listing_file() && !(own_output matches Some(p) && p@ == joined(
        dir,
        name,
    )))
    &&& (o.all_files || name.len() == 0 || name[0] != 46)
}

/// Whether a stat'ed entry stays in the listing: a non-directory must
/// match a -P pattern while patterns are active (by name, or by path
/// or a part of it), no entry may match an -I pattern, and -d keeps
/// directories only.
pub open spec fn entry_kept(
    o: Options,
    name: Seq<u8>,
    full_path: Seq<u8>,
    is_dir: bool,
    lstat_is_dir: bool,
    pattern_active: bool,
) -> bool {
    let ic = o.ignore_case;
    let excluded_by_p = !lstat_is_dir && !(o.follow_links && is_dir) && pattern_active && o.patterns@.len() > 0
        && !any_hit(name, o.patterns@, is_dir, ic, false) && !any_hit(full_path, o.patterns@, is_dir, ic, true);
    let excluded_by_i = o.ipatterns@.len() > 0 && (any_hit(name, o.ipatterns@, is_dir, ic, false) || any_hit(
        full_path,
        o.ipatterns@,
        is_dir,
        ic,
        true,
    ));
    !excluded_by_p && !excluded_by_i && !(o.dirs_only && !is_dir)
}

/// What the followed stat of a symlink gave.
#[derive(Clone, Copy)]
pub struct Target {
    pub dev: u64,
    pub ino: u64,
    pub is_dir: bool,
    pub mode: u32,
}

/// How the walk treats a listed entry.
#[derive(PartialEq, Eq, Structural)]
pub enum Visit {
    /// Not a directory (or on another device under -x): nothing more.
    Leave,
    /// A directory that is not opened.
    Stay,
    /// A directory to open and list, one level deeper.
    Open,
}

/// Sum of the sizes of `nodes`.
pub open spec fn size_sum(nodes: Seq<Node>) -> int
    decreases nodes.len(),
{
    if nodes.len() == 0 {
        0
    } else {
        size_sum(nodes.drop_last()) + nodes.last().meta.size
    }
}

/// `base` plus the sizes of `nodes` stays within i64.
pub open spec fn sizes_fit(base: int, nodes: Seq<Node>) -> bool {
    i64::MIN <= base + size_sum(nodes) <= i64::MAX
}

/// `base` plus the sizes of `nodes`, summed wide enough that no step
/// can overflow.
fn wide_total(base: i64, nodes: &[Node]) -> (r: i128)
    ensures
        r == base + size_sum(nodes@),
{
    let mut total: i128 = base as i128;
    let n = nodes.len();
    let mut i: usize = 0;
    while i < n
        invariant
            i <= n,
            n == nodes@.len(),
            total == base + size_sum(nodes@.take(i as int)),
            -0x8000_0000_0000_0000 * (i + 1) <= total <= 0x7fff_ffff_ffff_ffff * (i + 1),
        decreases nodes@.len() - i,
    {
        assert(nodes@.take(i + 1).drop_last() =~= nodes@.take(i as int));
        total = total + nodes[i].meta.size as i128;
        i += 1;
    }
    assert(nodes@.take(nodes@.len() as int) =~= nodes@);
    total
}

/// Whether `base` plus the sizes of `nodes` stays within i64.
pub fn sizes_fit_in(base: i64, nodes: &[Node]) -> (r: bool)
    ensures
        r == sizes_fit(base as int, nodes@),
{
    let t = wide_total(base, nodes);
    i64::MIN as i128 <= t && t <= i64::MAX as i128
}

/// Adds the sizes of `nodes` to `base`.
fn add_sizes(base: i64, nodes: &[Node]) -> (r: i64)
    requires
        sizes_fit(base as int, nodes@),
    ensures
        r == base + size_sum(nodes@),
{
    wide_total(base, nodes) as i64
}

proof fn lemma_size_sum_remove(s: Seq<Node>, j: int)
    requires
        0 <= j < s.len(),
    ensures
        size_sum(s) == size_sum(s.remove(j)) + s[j].meta.size,
    decreases s.len(),
{
    if j == s.len() - 1 {
        assert(s.remove(j) =~= s.drop_last());
    } else {
        lemma_size_sum_remove(s.drop_last(), j);
        assert(s.remove(j).drop_last() =~= s.drop_last().remove(j));
        assert(s.remove(j).last() == s.last());
    }
}

/// The sizes of a directory's entries add up to the same total in any
/// order: sorting a listing never changes a --du size.
pub proof fn law_size_sum_any_order(a: Seq<Node>, b: Seq<Node>)
    requires
        a.to_multiset() == b.to_multiset(),
    ensures
        size_sum(a) == size_sum(b),
    decreases a.len(),
{
    broadcast use vstd::seq_lib::group_to_multiset_ensures;

    if a.len() == 0 {
        assert(a.to_multiset().len() == 0);
        assert(b.to_multiset().len() == b.len());
    } else {
        let x = a.last();
        assert(a.drop_last() =~= a.remove(a.len() - 1));
        assert(a.contains(x));
        assert(b.to_multiset().count(x) > 0);
        assert(b.contains(x));
        let j = b.index_of(x);
        assert(a.drop_last().to_multiset() == b.remove(j).to_multiset());
        law_size_sum_any_order(a.drop_last(), b.remove(j));
        lemma_size_sum_remove(b, j);
    }
}

impl Node {
    /// A freshly listed entry: its name, lstat metadata, and for a
    /// symlink the text it reads (None when unreadable) and the stat of
    /// what it points at (None for an orphan). A symlink that cannot be
    /// read shows an error text as its target; one whose target cannot
    /// be stat'ed is an orphan only if it could be read. The followed
    /// device, inode and mode are the target's for a symlink and the
    /// entry's own otherwise.
    pub fn listed(
        name: Vec<u8>,
        lstat: Meta,
        lstat_is_dir: bool,
        is_symlink: bool,
        readlink: Option<Vec<u8>>,
        target: Option<Target>,
    ) -> (n: Node)
        ensures
            n.name == name,
            n.err is None,
            n.children is None,
            n.comment is None,
            !n.rerun_link,
            is_symlink ==> n.link is Some && n.link.unwrap()@ == match readlink {
                Some(t) => t@,
                None => link_read_error(),
            },
            !is_symlink ==> n.link is None,
            n.is_dir == if is_symlink {
                match target {
                    Some(t) => t.is_dir,
                    None => false,
                }
            } else {
                lstat_is_dir
            },
            n.orphan == (is_symlink && target is None && readlink is Some),
            n.meta.mode == lstat.mode && n.meta.uid == lstat.uid && n.meta.gid == lstat.gid,
            n.meta.size == lstat.size && n.meta.mtime == lstat.mtime && n.meta.ctime == lstat.ctime,
            n.meta.ino == lstat.ino && n.meta.dev == lstat.dev,
            (n.meta.fdev, n.meta.fino, n.meta.lnk_mode) == if is_symlink {
                match target {
                    Some(t) => (t.dev, t.ino, t.mode),
                    None => (0u64, 0u64, 0u32),
                }
            } else {
                (lstat.dev, lstat.ino, lstat.mode)
            },
    {
        let mut link: Option<Vec<u8>> = None;
        let mut dev: u64 = 0;
        let mut ino: u64 = 0;
        let mut is_dir = false;
        let mut lnk_mode: u32 = 0;
        let mut orphan = false;
        if is_symlink {
            let read_ok = readlink.is_some();
            link = Some(
                match readlink {
                    Some(t) => t,
                    None => {
                        let mut e: Vec<u8> = Vec::new();
                        put_link_read_error(&mut e);
                        assert(e@ =~= link_read_error());
                        e
                    },
                },
            );
            match target {
                Some(t) => {
                    dev = t.dev;
                    ino = t.ino;
                    is_dir = t.is_dir;
                    lnk_mode = t.mode;
                },
                None => {
                    orphan = read_ok;
                },
            }
        } else {
            dev = lstat.dev;
            ino = lstat.ino;
            is_dir = lstat_is_dir;
            lnk_mode = lstat.mode;
        }
        Node {
            name,
            is_dir,
            link,
            err: None,
            children: None,
            comment: None,
            orphan,
            rerun_link: false,
            meta: Meta { fino: ino, fdev: dev, lnk_mode, ..lstat },
        }
    }
}

/// The key a listed directory is remembered under: its target's.
pub open spec fn node_key(n: Node) -> u128 {
    id_key(n.meta.fdev, n.meta.fino)
}

/// Whether the walk considers descending into `n` at all: a directory
/// (or a symlink to one) not on another device under -x.
pub open spec fn visit_eligible(o: Options, n: Node, root_dev: u64) -> bool {
    n.is_dir && !(o.xdev && n.meta.fdev != root_dev)
}

/// Whether an eligible `n` is entered: always unless it is a symlink,
/// which is entered only under -l and only if its target was not
/// entered before.
pub open spec fn visit_enters(o: Options, seen: Set<u128>, n: Node) -> bool {
    n.link is None || (o.follow_links && !seen.contains(node_key(n)))
}

/// The directories entered once `n` has been visited.
pub open spec fn seen_after(o: Options, seen: Set<u128>, n: Node, root_dev: u64) -> Set<u128> {
    if visit_eligible(o, n, root_dev) && visit_enters(o, seen, n) {
        seen.insert(node_key(n))
    } else {
        seen
    }
}

/// How a visit at `depth` turns `n` into `m`: only the -R boundary
/// mark and the "recursive, not followed" tag can change. An eligible
/// entry at or past the level limit is marked under -R (a symlink only
/// under -l); a followed symlink whose target was entered before is
/// tagged above the level limit.
pub open spec fn visited(o: Options, seen: Set<u128>, n: Node, depth: usize, root_dev: u64, m: Node) -> bool {
    let eligible = visit_eligible(o, n, root_dev);
    &&& m.name == n.name
    &&& m.is_dir == n.is_dir
    &&& m.link == n.link
    &&& m.children == n.children
    &&& m.comment == n.comment
    &&& m.orphan == n.orphan
    &&& m.meta == n.meta
    &&& m.rerun_link == (n.rerun_link || (eligible && o.rerun && (n.link is None || o.follow_links)
        && depth >= limit(o)))
    &&& note_view(m.err) == if eligible && n.link is Some && o.follow_links && seen.contains(node_key(n))
        && depth < limit(o) {
        Some(recursive_note())
    } else {
        note_view(n.err)
    }
}

/// Whether a listing of `n` entries is over --filelimit.
pub open spec fn over_file_limit(o: Options, n: usize) -> bool {
    match o.file_limit {
        Some(l) => (n as i64) > l,
        None => false,
    }
}

/// Whether --prune drops an entry named `name` at `depth` that ended
/// up with nothing listed below it (`childless`): not at the level
/// limit, and not when it matches a -P pattern itself under --matchdirs
/// while patterns apply (`active`).
pub open spec fn prune_drops(o: Options, name: Seq<u8>, is_dir: bool, childless: bool, depth: int, active: bool) -> bool {
    o.prune && childless && depth < limit(o) && !(o.matchdirs && active && o.patterns@.len() > 0 && any_hit(
        name,
        o.patterns@,
        is_dir,
        o.ignore_case,
        false,
    ))
}

/// What a visit of `n` at `depth` decides: leave it, keep it unopened,
/// or open it (entered, and above the level limit).
pub open spec fn visit_outcome(o: Options, seen: Set<u128>, n: Node, depth: usize, root_dev: u64) -> Visit {
    if !visit_eligible(o, n, root_dev) {
        Visit::Leave
    } else if visit_enters(o, seen, n) && depth < limit(o) {
        Visit::Open
    } else {
        Visit::Stay
    }
}

/// The walk's own state: the options, the (device, inode) pairs of the
/// directories entered so far (symlink loop detection), and the count
/// of runtime errors, which drives the exit status.
pub struct Walker<'a> {
    opts: &'a Options,
    visited: HashSet<u128>,
    errors: u64,
}

impl<'a> Walker<'a> {
    /// The options this walk runs with.
    pub closed spec fn options(&self) -> Options {
        *self.opts
    }

    /// The keys (see `id_key`) of the directories entered so far.
    pub closed spec fn seen(&self) -> Set<u128> {
        self.visited@
    }

    /// The runtime errors counted so far.
    pub closed spec fn error_count(&self) -> u64 {
        self.errors
    }

    /// A walk with the given options that has entered nothing yet.
    pub fn new(opts: &'a Options) -> (w: Self)
        ensures
            w.options() == *opts,
            w.seen() == Set::<u128>::empty(),
            w.error_count() == 0,
    {
        Walker { opts, visited: HashSet::new(), errors: 0 }
    }

    /// The options, for the other parts of the walk.
    pub(crate) fn opts(&self) -> (r: &Options)
        ensures
            *r == self.options(),
    {
        self.opts
    }

    /// The runtime errors counted so far.
    pub fn errors(&self) -> (r: u64)
        ensures
            r == self.error_count(),
    {
        self.errors
    }

    /// See `full_tree`.
    pub fn full_tree_mode(&self) -> (r: bool)
        ensures
            r == full_tree(self.options()),
    {
        self.opts.prune || self.opts.matchdirs || self.opts.du
    }

    /// See `limit`.
    pub fn level_limit(&self) -> (r: usize)
        ensures
            r == limit(self.options()),
    {
        match self.opts.level {
            Some(l) => l,
            None => usize::MAX,
        }
    }

    /// The name a root argument is listed under: without trailing
    /// slashes under -f.
    pub fn root_name(&self, arg: &[u8]) -> (r: Vec<u8>)
        ensures
            r@ == if self.options().full_path {
                strip_slashes(arg@)
            } else {
                arg@
            },
    {
        let mut name: Vec<u8> = Vec::new();
        append(&mut name, arg);
        assert(name@ =~= arg@);
        if self.opts.full_path {
            while name.len() > 1 && name[name.len() - 1] == 47u8
                invariant
                    strip_slashes(name@) == strip_slashes(arg@),
                decreases name@.len(),
            {
                let ghost before = name@;
                name.pop();
                assert(name@ =~= before.drop_last());
            }
        }
        name
    }

    /// Counts a root that could not be stat'ed.
    pub fn root_missing(&mut self)
        requires
            old(self).error_count() < u64::MAX,
        ensures
            final(self).error_count() == old(self).error_count() + 1,
            final(self).seen() == old(self).seen(),
            final(self).options() == old(self).options(),
    {
        self.errors = self.errors + 1;
    }

    /// Remembers a root directory as entered.
    pub fn enter_root(&mut self, dev: u64, ino: u64)
        ensures
            final(self).seen() == old(self).seen().insert(id_key(dev, ino)),
            final(self).error_count() == old(self).error_count(),
            final(self).options() == old(self).options(),
    {
        broadcast use vstd::std_specs::hash::group_hash_axioms;

        let k = key_of(dev, ino);
        self.visited.insert(k);
    }

    /// See `dir_active`.
    pub fn dir_pattern_active(&self, above: bool, path: &[u8]) -> (r: bool)
        requires
            patterns_fit(self.options().patterns@),
        ensures
            r == dir_active(self.options(), above, path@),
    {
        let ic = self.opts.ignore_case;
        above && !(self.full_tree_mode() && self.opts.patterns.len() > 0 && (any_match(
            path,
            self.opts.patterns.as_slice(),
            true,
            ic,
            true,
        ) || any_match(last_component(path), self.opts.patterns.as_slice(), true, ic, false)))
    }

    /// Decides what to do with a listed entry at `depth` (1 for a
    /// root's entries) under a root on device `root_dev`. Only a
    /// directory (or a symlink to one) that is not on another device
    /// under -x is considered. Under -R it is marked as a boundary when
    /// it sits at the level limit (a symlink only under -l). A directory
    /// is entered, and remembered, unless it is a symlink and either
    /// links are not followed or its target was entered before; such a
    /// repeated target is tagged "recursive, not followed" above the
    /// level limit. It is opened when entered above the level limit.
    pub fn visit(&mut self, node: &mut Node, depth: usize, root_dev: u64) -> (r: Visit)
        ensures
            final(self).options() == old(self).options(),
            final(self).error_count() == old(self).error_count(),
            visited(old(self).options(), old(self).seen(), *old(node), depth, root_dev, *final(node)),
            final(self).seen() == seen_after(old(self).options(), old(self).seen(), *old(node), root_dev),
            r == visit_outcome(old(self).options(), old(self).seen(), *old(node), depth, root_dev),
    {
        broadcast use vstd::std_specs::hash::group_hash_axioms;

        if !(node.is_dir && !(self.opts.xdev && node.meta.fdev != root_dev)) {
            return Visit::Leave;
        }
        let lim = self.level_limit();
        let link_ok = node.link.is_none() || self.opts.follow_links;
        if self.opts.rerun && link_ok && depth >= lim {
            node.rerun_link = true;
        }
        let mut do_descend = true;
        let key = key_of(node.meta.fdev, node.meta.fino);
        if node.link.is_some() {
            if !self.opts.follow_links {
                do_descend = false;
            } else if self.visited.contains(&key) {
                // The tag is left off at the deepest level: nothing would
                // have been opened there anyway.
                if depth < lim {
                    let mut note: Vec<u8> = Vec::new();
                    put_recursive_note(&mut note);
                    node.err = Some(note);
                }
                do_descend = false;
            } else {
                self.visited.insert(key);
            }
        } else {
            self.visited.insert(key);
        }
        if do_descend && depth < lim {
            Visit::Open
        } else {
            Visit::Stay
        }
    }

    /// The path a directory entry is opened under: in full-tree mode a
    /// symlink is followed through its target (an absolute target as it
    /// stands), otherwise through its name below `parent`.
    pub fn child_path(&self, parent: &[u8], node: &Node) -> (r: Vec<u8>)
        ensures
            r@ == child_path_of(self.options(), parent@, *node),
    {
        match &node.link {
            Some(target) => {
                if self.full_tree_mode() {
                    return path_push(parent, target.as_slice());
                }
            },
            None => {},
        }
        path_push(parent, node.name.as_slice())
    }

    /// Records that a directory could not be opened: it is tagged
    /// "error opening dir", and counted as an error outside full-tree
    /// mode.
    pub fn open_failed(&mut self, node: &mut Node)
        requires
            !full_tree(old(self).options()) ==> old(self).error_count() < u64::MAX,
        ensures
            final(self).options() == old(self).options(),
            final(self).seen() == old(self).seen(),
            final(self).error_count() == old(self).error_count() + if full_tree(old(self).options()) {
                0int
            } else {
                1int
            },
            note_view(final(node).err) == Some(error_opening()),
            (Node { err: None, ..*final(node) }) == (Node { err: None, ..*old(node) }),
    {
        let mut note: Vec<u8> = Vec::new();
        put_error_opening(&mut note);
        node.err = Some(note);
        if !self.full_tree_mode() {
            self.errors = self.errors + 1;
        }
    }

    /// Whether a listing of `n` entries is over --filelimit.
    pub fn over_limit(&self, n: usize) -> (r: bool)
        ensures
            r == over_file_limit(self.options(), n),
    {
        match self.opts.file_limit {
            Some(l) => (n as i64) > l,
            None => false,
        }
    }

    /// Records that a directory of `n` entries was over --filelimit and
    /// left unopened: it is tagged, and counted as an error outside
    /// full-tree mode.
    pub fn limit_exceeded(&mut self, node: &mut Node, n: usize)
        requires
            !full_tree(old(self).options()) ==> old(self).error_count() < u64::MAX,
        ensures
            final(self).options() == old(self).options(),
            final(self).seen() == old(self).seen(),
            final(self).error_count() == old(self).error_count() + if full_tree(old(self).options()) {
                0int
            } else {
                1int
            },
            note_view(final(node).err) == Some(decimal(n as nat) + over_limit_tail()),
            (Node { err: None, ..*final(node) }) == (Node { err: None, ..*old(node) }),
    {
        let mut note: Vec<u8> = Vec::new();
        push_decimal(&mut note, n as u64);
        put_over_limit_tail(&mut note);
        node.err = Some(note);
        if !self.full_tree_mode() {
            self.errors = self.errors + 1;
        }
    }

    /// Hangs an opened directory's (already walked) listing under it.
    /// Under --du the directory's size grows by its entries' sizes; a
    /// listing left empty (everything pruned) is not attached.
    pub fn attach(&self, node: &mut Node, children: Vec<Node>)
        requires
            self.options().du ==> sizes_fit(old(node).meta.size as int, children@),
        ensures
            final(node).meta.size == old(node).meta.size + if self.options().du {
                size_sum(children@)
            } else {
                0
            },
            final(node).children == if children@.len() > 0 {
                Some(children)
            } else {
                old(node).children
            },
            (Node { children: None, meta: Meta { size: 0, ..final(node).meta }, ..*final(node) }) == (Node {
                children: None,
                meta: Meta { size: 0, ..old(node).meta },
                ..*old(node)
            }),
    {
        if self.opts.du {
            node.meta.size = add_sizes(node.meta.size, children.as_slice());
        }
        if children.len() > 0 {
            node.children = Some(children);
        }
    }

    /// The size a root reports: under --du its own size plus that of
    /// the entries listed directly below it.
    pub fn root_size(&self, size: i64, listed: &[Node]) -> (r: i64)
        requires
            self.options().du ==> sizes_fit(size as int, listed@),
        ensures
            r == size + if self.options().du {
                size_sum(listed@)
            } else {
                0
            },
    {
        if self.opts.du {
            add_sizes(size, listed)
        } else {
            size
        }
    }

    /// Whether --prune drops a directory that ended up with nothing
    /// listed below it: not at the level limit, and not when it
    /// matches a -P pattern itself under --matchdirs.
    pub fn should_prune(&self, node: &Node, depth: usize, pattern_active: bool) -> (r: bool)
        requires
            patterns_fit(self.options().patterns@),
        ensures
            r == prune_drops(self.options(), node.name@, node.is_dir, node.children is None, depth as int, pattern_active),
    {
        let o = self.opts;
        o.prune && node.children.is_none() && depth < self.level_limit() && !(o.matchdirs && pattern_active
            && o.patterns.len() > 0 && any_match(
            node.name.as_slice(),
            o.patterns.as_slice(),
            node.is_dir,
            o.ignore_case,
            false,
        ))
    }

    /// See `name_listed`.
    pub fn listed_name(&self, dir: &[u8], name: &[u8], own_output: &Option<Vec<u8>>) -> (r: bool)
        ensures
            r == name_listed(self.options(), *own_output, dir@, name@),
    {
        if self.opts.output == OutputFormat::Html && is_listing_file(name) {
            match own_output {
                Some(p) => {
                    let full = join_path(dir, name);
                    if !same_bytes(full.as_slice(), p.as_slice()) {
                        return false;
                    }
                },
                None => {
                    return false;
                },
            }
        }
        if !self.opts.all_files && name.len() > 0 && name[0] == 46u8 {
            return false;
        }
        true
    }

    /// See `entry_kept`.
    pub fn keep_entry(&self, name: &[u8], full_path: &[u8], is_dir: bool, lstat_is_dir: bool, pattern_active: bool) -> (r: bool)
        requires
            patterns_fit(self.options().patterns@),
            patterns_fit(self.options().ipatterns@),
        ensures
            r == entry_kept(self.options(), name@, full_path@, is_dir, lstat_is_dir, pattern_active),
    {
        let ic = self.opts.ignore_case;
        let pats = self.opts.patterns.as_slice();
        let ipats = self.opts.ipatterns.as_slice();
        if !lstat_is_dir && !(self.opts.follow_links && is_dir) && pattern_active && pats.len() > 0
            && !any_match(name, pats, is_dir, ic, false) && !any_match(full_path, pats, is_dir, ic, true) {
            return false;
        }
        if ipats.len() > 0 && (any_match(name, ipats, is_dir, ic, false) || any_match(full_path, ipats, is_dir, ic, true)) {
            return false;
        }
        if self.opts.dirs_only && !is_dir {
            return false;
        }
        true
    }
}

/// Whether `name` is the listing file `00Tree.html`.
fn is_listing_file(name: &[u8]) -> (r: bool)
    ensures
        r == (name@ == listing_file()),
{
    let mut f: Vec<u8> = Vec::new();
    crate::lits::put_listing_file(&mut f);
    assert(f@ =~= listing_file());
    same_bytes(name, f.as_slice())
}

/// Whether `a` and `b` hold the same bytes.
fn same_bytes(a: &[u8], b: &[u8]) -> (r: bool)
    ensures
        r == (a@ == b@),
{
    if a.len() != b.len() {
        return false;
    }
    let mut i: usize = 0;
    while i < a.len()
        invariant
            i <= a@.len(),
            a@.len() == b@.len(),
            forall|j: int| 0 <= j < i ==> a@[j] == b@[j],
        decreases a@.len() - i,
    {
        if a[i] != b[i] {
            return false;
        }
        i += 1;
    }
    assert(a@ =~= b@);
    true
}

/// `x` appended to the path `base` as a path component: an absolute
/// `x` replaces `base`; a separator is added unless `base` is empty or
/// already ends in one.
pub open spec fn path_pushed(base: Seq<u8>, x: Seq<u8>) -> Seq<u8> {
    if x.len() > 0 && x[0] == 47 {
        x
    } else if base.len() == 0 || base.last() == 47 {
        base + x
    } else {
        base + seq![47u8] + x
    }
}

/// See `Walker::child_path`.
pub open spec fn child_path_of(o: Options, parent: Seq<u8>, node: Node) -> Seq<u8> {
    match node.link {
        Some(t) => if full_tree(o) {
            path_pushed(parent, t@)
        } else {
            path_pushed(parent, node.name@)
        },
        None => path_pushed(parent, node.name@),
    }
}

/// Appends `x` to the path `base` as a path component.
pub fn path_push(base: &[u8], x: &[u8]) -> (r: Vec<u8>)
    ensures
        r@ == path_pushed(base@, x@),
{
    let mut out: Vec<u8> = Vec::new();
    if x.len() > 0 && x[0] == 47u8 {
        append(&mut out, x);
        return out;
    }
    append(&mut out, base);
    if !(base.len() == 0 || base[base.len() - 1] == 47u8) {
        out.push(47u8);
    }
    append(&mut out, x);
    assert(out@ =~= path_pushed(base@, x@));
    out
}

/// The paths, in listing order, of the directories among `nodes` (and
/// below them) that a -R run lists again on their own.
pub open spec fn boundaries_in(parent: Seq<u8>, nodes: Seq<Node>) -> Seq<Seq<u8>>
    decreases nodes,
{
    if nodes.len() == 0 {
        seq![]
    } else {
        boundaries_in(parent, nodes.drop_last()) + node_boundaries(parent, nodes.last())
    }
}

/// The -R boundary paths at and below `node`, which sits in `parent`.
pub open spec fn node_boundaries(parent: Seq<u8>, node: Node) -> Seq<Seq<u8>>
    decreases node,
{
    let path = joined(parent, node.name@);
    (if node.rerun_link { seq![path] } else { seq![] }) + match node.children {
        Some(c) => boundaries_in(path, c@),
        None => seq![],
    }
}

/// The byte strings held in `v`.
pub open spec fn paths_of(v: Seq<Vec<u8>>) -> Seq<Seq<u8>> {
    v.map_values(|p: Vec<u8>| p@)
}

/// Appends to `out` the path of every -R boundary directory among
/// `nodes`, which sit in `parent`, in listing order.
pub fn collect_boundaries(parent: &[u8], nodes: &[Node], out: &mut Vec<Vec<u8>>)
    ensures
        paths_of(final(out)@) == paths_of(old(out)@) + boundaries_in(parent@, nodes@),
    decreases nodes@,
{
    let ghost start = paths_of(out@);
    let mut i: usize = 0;
    while i < nodes.len()
        invariant
            i <= nodes@.len(),
            paths_of(out@) == start + boundaries_in(parent@, nodes@.take(i as int)),
        decreases nodes@.len() - i,
    {
        let node = &nodes[i];
        let ghost before = paths_of(out@);
        let path = join_path(parent, &node.name);
        if node.rerun_link {
            let copy = path.clone();
            assert(copy@ =~= path@);
            out.push(copy);
        }
        let ghost mid = paths_of(out@);
        assert(mid =~= before + (if node.rerun_link { seq![path@] } else { seq![] }));
        if let Some(children) = &node.children {
            assert(decreases_to!(nodes@ => children@));
            collect_boundaries(&path, children.as_slice(), out);
        }
        assert(paths_of(out@) =~= before + node_boundaries(parent@, nodes@[i as int]));
        assert(nodes@.take(i + 1).drop_last() =~= nodes@.take(i as int));
        assert(nodes@.take(i + 1).last() == nodes@[i as int]);
        assert(boundaries_in(parent@, nodes@.take(i + 1)) == boundaries_in(parent@, nodes@.take(i as int))
            + node_boundaries(parent@, nodes@[i as int]));
        assert(paths_of(out@) =~= start + boundaries_in(parent@, nodes@.take(i + 1)));
        i += 1;
    }
    assert(nodes@.take(nodes@.len() as int) =~= nodes@);
}

/// No path through `nodes` is more than `k` entries long.
pub open spec fn depth_within(nodes: Seq<Node>, k: int) -> bool
    decreases nodes,
{
    if nodes.len() == 0 {
        true
    } else {
        depth_within(nodes.drop_last(), k) && node_depth_within(nodes.last(), k)
    }
}

/// No path from `node` down is more than `k` entries long.
pub open spec fn node_depth_within(node: Node, k: int) -> bool
    decreases node,
{
    k >= 1 && match node.children {
        Some(c) => depth_within(c@, k - 1),
        None => true,
    }
}

pub proof fn lemma_depth_within(nodes: Seq<Node>, k: int, i: int)
    requires
        depth_within(nodes, k),
        0 <= i < nodes.len(),
    ensures
        node_depth_within(nodes[i], k),
    decreases nodes.len(),
{
    if i < nodes.len() - 1 {
        lemma_depth_within(nodes.drop_last(), k, i);
    }
}

/// Whether no path through `nodes` is more than `k` entries long.
pub fn within_depth(nodes: &[Node], k: usize) -> (r: bool)
    ensures
        r == depth_within(nodes@, k as int),
    decreases nodes@,
{
    let mut i: usize = 0;
    while i < nodes.len()
        invariant
            i <= nodes@.len(),
            depth_within(nodes@.take(i as int), k as int),
        decreases nodes@.len() - i,
    {
        let node = &nodes[i];
        let ok = if k < 1 {
            false
        } else {
            match &node.children {
                Some(c) => {
                    assert(decreases_to!(nodes@ => c@));
                    within_depth(c.as_slice(), k - 1)
                },
                None => true,
            }
        };
        assert(nodes@.take(i + 1).drop_last() =~= nodes@.take(i as int));
        assert(nodes@.take(i + 1).last() == nodes@[i as int]);
        assert(ok == node_depth_within(nodes@[i as int], k as int));
        assert(depth_within(nodes@.take(i + 1), k as int) == (depth_within(nodes@.take(i as int), k as int)
            && node_depth_within(nodes@[i as int], k as int)));
        if !ok {
            assert(!depth_within(nodes@.take(i + 1), k as int));
            proof {
                if depth_within(nodes@, k as int) {
                    lemma_depth_within(nodes@, k as int, i as int);
                }
            }
            return false;
        }
        i += 1;
    }
    assert(nodes@.take(nodes@.len() as int) =~= nodes@);
    true
}
} // verus!
