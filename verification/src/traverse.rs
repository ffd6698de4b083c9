//! A root's walk as a sequence of steps. The walk decides everything
//! itself; whoever drives it only lists the directories it asks for
//! and hands each listing back.

use vstd::prelude::*;
use crate::options::{Options, SortKey};
use crate::pattern::patterns_fit;
use crate::sort::sorted_by;
use crate::walk::{Meta, Node, Root, RootKind, Visit, Walker, child_path_of, dir_active, full_tree, id_key, law_size_sum_any_order, note_view,
    over_file_limit, prune_drops, seen_after, size_sum, sizes_fit, sizes_fit_in, visit_outcome, visited};
use crate::lits::{error_opening, over_limit_tail, recursive_note};
use crate::digits::decimal;

verus! {

/// A directory whose entries are being visited.
pub struct Level {
    /// The path it was read under.
    pub path: Vec<u8>,
    /// The depth of its entries (1 for a root's).
    pub depth: usize,
    /// Whether -P patterns still apply to its entries.
    pub active: bool,
    /// Its entries, those done with first.
    pub nodes: Vec<Node>,
    /// The index of the entry to visit next.
    pub next: usize,
}

/// A `Level` as plain values.
pub struct LevelView {
    pub path: Seq<u8>,
    pub depth: int,
    pub active: bool,
    pub nodes: Seq<Node>,
    pub next: int,
}

impl View for Level {
    type V = LevelView;

    open spec fn view(&self) -> LevelView {
        LevelView {
            path: self.path@,
            depth: self.depth as int,
            active: self.active,
            nodes: self.nodes@,
            next: self.next as int,
        }
    }
}

/// What the walk needs next from whoever drives it.
pub enum Step {
    /// List the directory at `path` (with -P patterns applying as
    /// `active` says) and hand the listing to `deliver`.
    Read { path: Vec<u8>, active: bool },
    /// Call `advance`.
    Continue,
    /// A count or a size would leave its integer type: the walk stops.
    Overflow,
    /// The root is done with; `finish` gives it.
    Done,
}

/// The walk of one root.
pub struct RootWalk {
    name: Vec<u8>,
    meta: Option<Meta>,
    active: bool,
    levels: Vec<Level>,
    pending: Option<(Vec<u8>, bool)>,
    outcome: Option<RootKind>,
}

/// `before` in listing order: sorted by the options, or as listed when
/// unsorted.
pub open spec fn arranged(o: Options, before: Seq<Node>, after: Seq<Node>) -> bool {
    &&& after.to_multiset() == before.to_multiset()
    &&& after.len() == before.len()
    &&& (o.sort == SortKey::Unsorted ==> after == before)
    &&& (o.sort != SortKey::Unsorted ==> sorted_by(o, after))
}

/// A directory's entries as they are visited: sorted first in the
/// plain walk, in directory order in full-tree mode.
pub open spec fn arranged_before(o: Options, before: Seq<Node>, after: Seq<Node>) -> bool {
    if full_tree(o) {
        after == before
    } else {
        arranged(o, before, after)
    }
}

/// A directory's entries once all are visited: full-tree mode sorts
/// them only now.
pub open spec fn arranged_after(o: Options, before: Seq<Node>, after: Seq<Node>) -> bool {
    if full_tree(o) {
        arranged(o, before, after)
    } else {
        after == before
    }
}

/// The entry a directory is on.
pub open spec fn current(l: LevelView) -> Node {
    l.nodes[l.next]
}

/// `l` with its current entry dropped.
pub open spec fn without_current(l: LevelView) -> LevelView {
    LevelView { nodes: l.nodes.remove(l.next), ..l }
}

/// `l` with its current entry, now `n`, kept and passed.
pub open spec fn passed(l: LevelView, n: Node) -> LevelView {
    LevelView { nodes: l.nodes.update(l.next, n), next: l.next + 1, ..l }
}

/// `l1` is `l0` once its current entry is done with: dropped when
/// `drop`, else kept (as the entry of `l1` in its place) and passed.
pub open spec fn settled(l0: LevelView, l1: LevelView, drop: bool) -> bool {
    if drop {
        l1 == without_current(l0)
    } else {
        l1 == passed(l0, l1.nodes[l0.next])
    }
}

/// Whether --prune drops `n`, as it stands, from the directory `l`.
pub open spec fn drops(o: Options, l: LevelView, n: Node) -> bool {
    prune_drops(o, n.name@, n.is_dir, n.children is None, l.depth, l.active)
}

/// `m` is `n` with the note `note`, nothing else changed.
pub open spec fn noted(n: Node, m: Node, note: Seq<u8>) -> bool {
    note_view(m.err) == Some(note) && (Node { err: None, ..m }) == (Node { err: None, ..n })
}

/// `m` is `n` with the entries `listed`, in listing order, hung below
/// it (when there are any); under --du its size grows by theirs.
pub open spec fn attached(o: Options, n: Node, listed: Seq<Node>, m: Node) -> bool {
    &&& m.meta.size == n.meta.size + if o.du {
        size_sum(listed)
    } else {
        0
    }
    &&& listed.len() > 0 ==> (m.children matches Some(c) && arranged_after(o, listed, c@))
    &&& listed.len() == 0 ==> m.children == n.children
    &&& (Node { children: None, meta: Meta { size: 0, ..m.meta }, ..m }) == (Node {
        children: None,
        meta: Meta { size: 0, ..n.meta },
        ..n
    })
}

/// Text a note can hold as it stands in every listing: printable ASCII
/// other than `"` and `\`.
pub open spec fn quiet(e: Seq<u8>) -> bool {
    forall|i: int| 0 <= i < e.len() ==> 32 <= #[trigger] e[i] <= 126 && e[i] != 34 && e[i] != 92
}

/// An entry fresh from a listing: no note, nothing below it.
pub open spec fn fresh(n: Node) -> bool {
    n.err is None && n.children is None
}

/// An entry the walk is done with: it carries a quiet note or has
/// entries below it, never both; when it has entries below it there is
/// at least one (an entry with nothing below it has `None`); and so
/// does everything below it.
pub open spec fn tidy(n: Node) -> bool
    decreases n,
{
    &&& !(n.err is Some && n.children is Some)
    &&& n.err matches Some(e) ==> quiet(e@)
    &&& match n.children {
        Some(c) => c@.len() > 0 && tidy_all(c@),
        None => true,
    }
}

/// Every entry of `s` is tidy (see `tidy`).
pub open spec fn tidy_all(s: Seq<Node>) -> bool
    decreases s,
{
    if s.len() == 0 {
        true
    } else {
        tidy_all(s.drop_last()) && tidy(s.last())
    }
}

/// The entries of a directory before its current one are done with;
/// it and those after it are fresh.
pub open spec fn level_tidy(l: LevelView) -> bool {
    &&& forall|i: int| 0 <= i < l.next ==> tidy(#[trigger] l.nodes[i])
    &&& forall|i: int| l.next <= i < l.nodes.len() ==> fresh(#[trigger] l.nodes[i])
}

/// Every directory being visited is as `level_tidy` says.
pub open spec fn levels_tidy(ls: Seq<LevelView>) -> bool {
    forall|k: int| 0 <= k < ls.len() ==> level_tidy(#[trigger] ls[k])
}

proof fn lemma_tidy_all(s: Seq<Node>)
    ensures
        tidy_all(s) <==> forall|i: int| 0 <= i < s.len() ==> tidy(#[trigger] s[i]),
    decreases s.len(),
{
    if s.len() > 0 {
        lemma_tidy_all(s.drop_last());
        if forall|i: int| 0 <= i < s.len() ==> tidy(#[trigger] s[i]) {
            assert forall|i: int| 0 <= i < s.drop_last().len() implies tidy(#[trigger] s.drop_last()[i]) by {
                assert(s.drop_last()[i] == s[i]);
            }
        }
        if tidy_all(s) {
            assert forall|i: int| 0 <= i < s.len() implies tidy(#[trigger] s[i]) by {
                if i < s.len() - 1 {
                    assert(s.drop_last()[i] == s[i]);
                }
            }
        }
    }
}

proof fn lemma_same_entries(a: Seq<Node>, b: Seq<Node>)
    requires
        a.to_multiset() == b.to_multiset(),
    ensures
        (forall|i: int| 0 <= i < a.len() ==> tidy(#[trigger] a[i])) ==> forall|i: int| 0 <= i < b.len() ==> tidy(
            #[trigger] b[i],
        ),
        (forall|i: int| 0 <= i < a.len() ==> fresh(#[trigger] a[i])) ==> forall|i: int| 0 <= i < b.len() ==> fresh(
            #[trigger] b[i],
        ),
{
    broadcast use vstd::seq_lib::group_to_multiset_ensures;

    assert forall|i: int| 0 <= i < b.len() implies a.contains(#[trigger] b[i]) by {
        assert(b.contains(b[i]));
        assert(b.to_multiset().count(b[i]) > 0);
        assert(a.to_multiset().count(b[i]) > 0);
    }
    if forall|i: int| 0 <= i < a.len() ==> tidy(#[trigger] a[i]) {
        assert forall|i: int| 0 <= i < b.len() implies tidy(#[trigger] b[i]) by {
            assert(a.contains(b[i]));
            let j = a.index_of(b[i]);
            assert(tidy(a[j]));
        }
    }
    if forall|i: int| 0 <= i < a.len() ==> fresh(#[trigger] a[i]) {
        assert forall|i: int| 0 <= i < b.len() implies fresh(#[trigger] b[i]) by {
            assert(a.contains(b[i]));
            let j = a.index_of(b[i]);
            assert(fresh(a[j]));
        }
    }
}

proof fn lemma_fresh_level(l: LevelView)
    requires
        l.next == 0,
        forall|i: int| 0 <= i < l.nodes.len() ==> fresh(#[trigger] l.nodes[i]),
    ensures
        level_tidy(l),
{
}

proof fn lemma_tidy_settled(l: LevelView, l1: LevelView, drop: bool)
    requires
        level_tidy(l),
        0 <= l.next < l.nodes.len(),
        settled(l, l1, drop),
        !drop ==> tidy(l1.nodes[l.next]),
    ensures
        level_tidy(l1),
{
    if drop {
        assert forall|i: int| 0 <= i < l1.next implies tidy(#[trigger] l1.nodes[i]) by {
            assert(l1.nodes[i] == l.nodes[i]);
        }
        assert forall|i: int| l1.next <= i < l1.nodes.len() implies fresh(#[trigger] l1.nodes[i]) by {
            assert(l1.nodes[i] == l.nodes[i + 1]);
        }
    } else {
        assert forall|i: int| 0 <= i < l1.next implies tidy(#[trigger] l1.nodes[i]) by {
            if i < l.next {
                assert(l1.nodes[i] == l.nodes[i]);
            }
        }
        assert forall|i: int| l1.next <= i < l1.nodes.len() implies fresh(#[trigger] l1.nodes[i]) by {
            assert(l1.nodes[i] == l.nodes[i]);
        }
    }
}

proof fn lemma_levels_tidy_last(ls: Seq<LevelView>, ls1: Seq<LevelView>)
    requires
        levels_tidy(ls),
        ls1.len() == ls.len(),
        ls.len() > 0,
        ls1.drop_last() == ls.drop_last(),
        level_tidy(ls1.last()),
    ensures
        levels_tidy(ls1),
{
    assert forall|k: int| 0 <= k < ls1.len() implies level_tidy(#[trigger] ls1[k]) by {
        if k < ls1.len() - 1 {
            assert(ls1[k] == ls1.drop_last()[k]);
            assert(ls[k] == ls.drop_last()[k]);
        }
    }
}

proof fn lemma_levels_tidy_pushed(ls: Seq<LevelView>, ls1: Seq<LevelView>)
    requires
        levels_tidy(ls),
        ls1.len() == ls.len() + 1,
        ls1.drop_last() == ls,
        level_tidy(ls1.last()),
    ensures
        levels_tidy(ls1),
{
    assert forall|k: int| 0 <= k < ls1.len() implies level_tidy(#[trigger] ls1[k]) by {
        if k < ls1.len() - 1 {
            assert(ls1[k] == ls1.drop_last()[k]);
        }
    }
}

proof fn lemma_quiet_notes(n: nat)
    ensures
        quiet(recursive_note()),
        quiet(error_opening()),
        quiet(decimal(n) + over_limit_tail()),
    decreases n,
{
    let r = recursive_note();
    assert forall|i: int| 0 <= i < r.len() implies 32 <= #[trigger] r[i] <= 126 && r[i] != 34 && r[i] != 92 by {
        assert(r[i] == 32 || r[i] == 44 || (97 <= r[i] <= 122));
    }
    let e = error_opening();
    assert forall|i: int| 0 <= i < e.len() implies 32 <= #[trigger] e[i] <= 126 && e[i] != 34 && e[i] != 92 by {
        assert(e[i] == 32 || (97 <= e[i] <= 122));
    }
    let t = over_limit_tail();
    assert forall|i: int| 0 <= i < t.len() implies 32 <= #[trigger] t[i] <= 126 && t[i] != 34 && t[i] != 92 by {
        assert(t[i] == 32 || t[i] == 44 || (97 <= t[i] <= 122));
    }
    lemma_decimal_quiet(n);
    let d = decimal(n);
    assert forall|i: int| 0 <= i < (d + t).len() implies 32 <= #[trigger] (d + t)[i] <= 126 && (d + t)[i] != 34 && (d
        + t)[i] != 92 by {
        if i < d.len() {
            assert((d + t)[i] == d[i]);
        } else {
            assert((d + t)[i] == t[i - d.len()]);
        }
    }
}

proof fn lemma_decimal_quiet(n: nat)
    ensures
        forall|i: int| 0 <= i < decimal(n).len() ==> 48 <= #[trigger] decimal(n)[i] <= 57,
    decreases n,
{
    if n >= 10 {
        lemma_decimal_quiet(n / 10);
        assert forall|i: int| 0 <= i < decimal(n).len() implies 48 <= #[trigger] decimal(n)[i] <= 57 by {
            if i < decimal(n / 10).len() {
                assert(decimal(n)[i] == decimal(n / 10)[i]);
            }
        }
    }
}

/// The directories above the deepest are each on an entry.
pub open spec fn on_entries(ls: Seq<LevelView>) -> bool {
    forall|k: int| 0 <= k < ls.len() - 1 ==> 0 <= #[trigger] ls[k].next < ls[k].nodes.len()
}

proof fn lemma_on_entries_kept(ls: Seq<LevelView>, ls1: Seq<LevelView>)
    requires
        on_entries(ls),
        ls1.len() == ls.len(),
        ls1.drop_last() == ls.drop_last(),
    ensures
        on_entries(ls1),
{
    assert forall|k: int| 0 <= k < ls1.len() - 1 implies 0 <= #[trigger] ls1[k].next < ls1[k].nodes.len() by {
        assert(ls1[k] == ls1.drop_last()[k]);
        assert(ls[k] == ls.drop_last()[k]);
    }
}

proof fn lemma_on_entries_pushed(ls: Seq<LevelView>, ls1: Seq<LevelView>)
    requires
        on_entries(ls),
        ls.len() > 0,
        0 <= ls.last().next < ls.last().nodes.len(),
        ls1.len() == ls.len() + 1,
        ls1.drop_last() == ls,
    ensures
        on_entries(ls1),
{
    assert forall|k: int| 0 <= k < ls1.len() - 1 implies 0 <= #[trigger] ls1[k].next < ls1[k].nodes.len() by {
        assert(ls1[k] == ls1.drop_last()[k]);
    }
}

/// Settling an entry after a change to it is settling the entry as it
/// was, keeping the changed one.
proof fn lemma_settled_changed(l: LevelView, mid: LevelView, l1: LevelView, drop: bool)
    requires
        0 <= l.next < l.nodes.len(),
        mid == (LevelView { nodes: l.nodes.update(l.next, current(mid)), ..l }),
        if drop {
            l1 == without_current(mid)
        } else {
            l1 == passed(mid, current(mid))
        },
    ensures
        settled(l, l1, drop),
        !drop ==> l1.nodes[l.next] == current(mid),
{
    assert(mid.nodes.remove(l.next) =~= l.nodes.remove(l.next));
    assert(mid.nodes.update(l.next, current(mid)) =~= l.nodes.update(l.next, current(mid)));
}

impl RootWalk {
    /// The root's name.
    pub closed spec fn name(&self) -> Seq<u8> {
        self.name@
    }

    /// The root's own metadata (None when it could not be stat'ed).
    pub closed spec fn meta(&self) -> Option<Meta> {
        self.meta
    }

    /// Whether -P patterns apply to the root's entries.
    pub closed spec fn root_active(&self) -> bool {
        self.active
    }

    /// The directories being visited, the root's first.
    pub closed spec fn levels(&self) -> Seq<LevelView> {
        self.levels@.map_values(|l: Level| l@)
    }

    /// The listing asked for and not yet handed back: its path and
    /// whether patterns apply in it.
    pub closed spec fn pending(&self) -> Option<(Seq<u8>, bool)> {
        match self.pending {
            Some((p, a)) => Some((p@, a)),
            None => None,
        }
    }

    /// What the root came to, once the walk is over.
    pub closed spec fn outcome(&self) -> Option<RootKind> {
        self.outcome
    }

    /// Waiting for a listing.
    pub open spec fn waiting(&self) -> bool {
        self.pending() is Some && self.outcome() is None
    }

    /// Ready to take a step by itself.
    pub open spec fn busy(&self) -> bool {
        self.pending() is None && self.outcome() is None && self.levels().len() > 0
    }

    /// Over.
    pub open spec fn done(&self) -> bool {
        self.outcome() is Some
    }

    /// The walk's state hangs together: over, waiting or busy; every
    /// directory but the deepest is on the entry being opened in it.
    pub closed spec fn wf(&self) -> bool {
        let ls = self.levels();
        &&& self.outcome is Some ==> ls.len() == 0 && self.pending is None
        &&& self.outcome is None ==> self.meta is Some
        &&& self.outcome is None && self.pending is None ==> ls.len() > 0
        &&& on_entries(ls)
        &&& ls.len() > 0 ==> 0 <= ls.last().next <= ls.last().nodes.len()
        &&& self.pending is Some && ls.len() > 0 ==> ls.last().next < ls.last().nodes.len() && ls.last().depth
            < usize::MAX
    }

    /// Every directory being visited is as `level_tidy` says, and the
    /// entries of a root that is over are tidy.
    pub closed spec fn tidy_state(&self) -> bool {
        &&& levels_tidy(self.levels())
        &&& self.outcome matches Some(RootKind::Opened(c)) ==> tidy_all(c@)
    }

    /// Starts the walk of the root `name`, whose lstat gave `lstat`
    /// (None when it failed). A root that cannot be stat'ed is over at
    /// once, counted as an error; otherwise it is remembered as entered
    /// and its listing is asked for, patterns applying unless the root
    /// itself matches one in full-tree mode.
    pub fn start(walker: &mut Walker, name: Vec<u8>, lstat: Option<Meta>) -> (res: (RootWalk, Step))
        requires
            patterns_fit(old(walker).options().patterns@),
        ensures
            final(walker).options() == old(walker).options(),
            res.0.name() == name@,
            res.0.meta() == lstat,
            res.1 is Overflow <==> (lstat is None && old(walker).error_count() == u64::MAX),
            !(res.1 is Overflow) ==> res.0.wf(),
            res.0.tidy_state(),
            match lstat {
                None => !(res.1 is Overflow) ==> {
                    &&& res.1 is Done
                    &&& res.0.outcome() == Some(RootKind::Missing)
                    &&& final(walker).error_count() == old(walker).error_count() + 1
                    &&& final(walker).seen() == old(walker).seen()
                },
                Some(m) => {
                    let active = dir_active(old(walker).options(), true, name@);
                    &&& res.1 is Read
                    &&& res.1->path@ == name@
                    &&& res.1->active == active
                    &&& res.0.root_active() == active
                    &&& res.0.pending() == Some((name@, active))
                    &&& res.0.outcome() is None
                    &&& res.0.levels().len() == 0
                    &&& final(walker).error_count() == old(walker).error_count()
                    &&& final(walker).seen() == old(walker).seen().insert(id_key(m.dev, m.ino))
                },
            },
    {
        match lstat {
            None => {
                if walker.errors() == u64::MAX {
                    let w = RootWalk { name, meta: None, active: false, levels: Vec::new(), pending: None, outcome: None };
                    return (w, Step::Overflow);
                }
                walker.root_missing();
                let w = RootWalk {
                    name,
                    meta: None,
                    active: false,
                    levels: Vec::new(),
                    pending: None,
                    outcome: Some(RootKind::Missing),
                };
                assert(w.levels() =~= Seq::<LevelView>::empty());
                (w, Step::Done)
            },
            Some(m) => {
                walker.enter_root(m.dev, m.ino);
                let active = walker.dir_pattern_active(true, &name);
                let ask = name.clone();
                assert(ask@ =~= name@);
                let again = name.clone();
                assert(again@ =~= name@);
                let w = RootWalk {
                    name,
                    meta: Some(m),
                    active,
                    levels: Vec::new(),
                    pending: Some((again, active)),
                    outcome: None,
                };
                assert(w.levels() =~= Seq::<LevelView>::empty());
                (w, Step::Read { path: ask, active })
            },
        }
    }


    /// Done with the current entry of the deepest directory: dropped
    /// when --prune drops it, else passed.
    fn settle(&mut self, walker: &Walker)
        requires
            old(self).levels().len() > 0,
            0 <= old(self).levels().last().next < old(self).levels().last().nodes.len(),
            patterns_fit(walker.options().patterns@),
        ensures
            final(self).levels().len() == old(self).levels().len(),
            final(self).levels().drop_last() == old(self).levels().drop_last(),
            ({
                let l = old(self).levels().last();
                if drops(walker.options(), l, current(l)) {
                    final(self).levels().last() == without_current(l)
                } else {
                    final(self).levels().last() == passed(l, current(l))
                }
            }),
            final(self).name == old(self).name,
            final(self).meta == old(self).meta,
            final(self).active == old(self).active,
            final(self).pending == old(self).pending,
            final(self).outcome == old(self).outcome,
    {
        let last = self.levels.len() - 1;
        let ghost before = self.levels@;
        let ghost l0 = self.levels().last();
        assert(l0 == before[last as int]@);
        let next = self.levels[last].next;
        let depth = self.levels[last].depth;
        let active = self.levels[last].active;
        let count = self.levels[last].nodes.len();
        assert(next < count);
        if walker.should_prune(&self.levels[last].nodes[next], depth, active) {
            self.levels[last].nodes.remove(next);
            assert(self.levels@[last as int]@.nodes =~= l0.nodes.remove(next as int));
            assert(self.levels@[last as int]@ == without_current(l0));
        } else {
            self.levels[last].next = next + 1;
            assert(self.levels@[last as int]@.nodes =~= l0.nodes.update(next as int, l0.nodes[next as int]));
            assert(self.levels@[last as int]@ == passed(l0, current(l0)));
        }
        assert(self.levels().drop_last() =~= before.map_values(|l: Level| l@).drop_last());
        assert(self.levels().last() == self.levels@[last as int]@);
    }

    /// See `deliver`.
    fn take_listing(&mut self, walker: &mut Walker, listing: Option<Vec<Node>>) -> (r: Step)
        requires
            old(self).wf(),
            old(self).waiting(),
            patterns_fit(old(walker).options().patterns@),
        ensures
            final(walker).options() == old(walker).options(),
            final(walker).seen() == old(walker).seen(),
            final(self).name() == old(self).name(),
            final(self).meta() == old(self).meta(),
            final(self).root_active() == old(self).root_active(),
            !(r is Overflow) ==> final(self).wf() && final(self).pending() is None,
            r is Continue ==> final(self).busy(),
            r is Done ==> final(self).done(),
            delivered(
                old(walker).options(),
                old(walker).error_count(),
                final(walker).error_count(),
                *old(self),
                *final(self),
                listing,
                r,
            ),
    {
        let ghost before = self.levels@;
        let ghost ls = self.levels();
        let (path, active) = match self.pending.take() {
            Some(p) => p,
            None => (Vec::new(), false),
        };
        if self.levels.len() == 0 {
            match listing {
                None => {
                    self.outcome = Some(RootKind::Unreadable);
                    return Step::Done;
                },
                Some(nodes) => {
                    let mut nodes = nodes;
                    let k = nodes.len();
                    if walker.over_limit(k) {
                        self.outcome = Some(RootKind::OverLimit(k));
                        return Step::Done;
                    }
                    if !walker.full_tree_mode() {
                        walker.sort_nodes(&mut nodes);
                    }
                    self.levels.push(Level { path, depth: 1, active, nodes, next: 0 });
                    assert(self.levels() =~= seq![self.levels@[0]@]);
                    return Step::Continue;
                },
            }
        }
        let last = self.levels.len() - 1;
        assert(ls.last() == before[last as int]@);
        let next = self.levels[last].next;
        match listing {
            None => {
                if !walker.full_tree_mode() && walker.errors() == u64::MAX {
                    return Step::Overflow;
                }
                let ghost l0 = self.levels();
                walker.open_failed(&mut self.levels[last].nodes[next]);
                let ghost l1 = self.levels();
                assert(l1.drop_last() =~= l0.drop_last());
                assert(l1.last().nodes =~= l0.last().nodes.update(next as int, l1.last().nodes[next as int]));
                self.settle(walker);
                proof {
                    lemma_settled_changed(ls.last(), l1.last(), self.levels().last(), drops(walker.options(), ls.last(), current(ls.last())));
                    assert(self.levels().drop_last() =~= ls.drop_last());
                    lemma_on_entries_kept(ls, self.levels());
                }
                Step::Continue
            },
            Some(children) => {
                let mut children = children;
                let k = children.len();
                if walker.over_limit(k) {
                    if !walker.full_tree_mode() && walker.errors() == u64::MAX {
                        return Step::Overflow;
                    }
                    let ghost l0 = self.levels();
                    walker.limit_exceeded(&mut self.levels[last].nodes[next], k);
                    let ghost l1 = self.levels();
                    assert(l1.drop_last() =~= l0.drop_last());
                    assert(l1.last().nodes =~= l0.last().nodes.update(next as int, l1.last().nodes[next as int]));
                    self.settle(walker);
                    proof {
                        lemma_settled_changed(ls.last(), l1.last(), self.levels().last(), drops(walker.options(), ls.last(), current(ls.last())));
                        assert(self.levels().drop_last() =~= ls.drop_last());
                        lemma_on_entries_kept(ls, self.levels());
                    }
                    Step::Continue
                } else if k == 0 {
                    self.settle(walker);
                    proof {
                        assert(self.levels().drop_last() =~= ls.drop_last());
                        lemma_on_entries_kept(ls, self.levels());
                    }
                    Step::Continue
                } else {
                    if !walker.full_tree_mode() {
                        walker.sort_nodes(&mut children);
                    }
                    let depth = self.levels[last].depth + 1;
                    self.levels.push(Level { path, depth, active, nodes: children, next: 0 });
                    assert(self.levels().drop_last() =~= ls);
                    proof {
                        lemma_on_entries_pushed(ls, self.levels());
                    }
                    Step::Continue
                }
            },
        }
    }

    /// See `advance`.
    fn take_step(&mut self, walker: &mut Walker) -> (r: Step)
        requires
            old(self).wf(),
            old(self).busy(),
            patterns_fit(old(walker).options().patterns@),
        ensures
            final(walker).options() == old(walker).options(),
            final(walker).error_count() == old(walker).error_count(),
            final(self).name() == old(self).name(),
            final(self).root_active() == old(self).root_active(),
            !(r is Overflow) ==> final(self).wf(),
            r is Read ==> final(self).waiting() && final(self).pending() == Some((r->path@, r->active)),
            r is Continue ==> final(self).busy(),
            r is Done ==> final(self).done(),
            advanced(old(walker).options(), old(walker).seen(), final(walker).seen(), *old(self), *final(self), r),
    {
        let ghost ls = self.levels();
        let ghost before = self.levels@;
        let ghost o = walker.options();
        let last = self.levels.len() - 1;
        assert(ls.last() == before[last as int]@);
        let next = self.levels[last].next;
        let count = self.levels[last].nodes.len();
        let rd = match &self.meta {
            Some(m) => m.dev,
            None => 0,
        };
        if next < count {
            let depth = self.levels[last].depth;
            let v = walker.visit(&mut self.levels[last].nodes[next], depth, rd);
            let ghost mid = self.levels();
            assert(mid.drop_last() =~= ls.drop_last());
            assert(mid.last().nodes =~= ls.last().nodes.update(next as int, mid.last().nodes[next as int]));
            if v == Visit::Open {
                let path = walker.child_path(&self.levels[last].path, &self.levels[last].nodes[next]);
                let active = walker.dir_pattern_active(self.levels[last].active, &path);
                let ask = path.clone();
                assert(ask@ =~= path@);
                self.pending = Some((path, active));
                proof {
                    lemma_on_entries_kept(ls, self.levels());
                }
                return Step::Read { path: ask, active };
            }
            if v == Visit::Stay {
                self.settle(walker);
                proof {
                    lemma_settled_changed(ls.last(), mid.last(), self.levels().last(), drops(o, ls.last(), current(ls.last())));
                }
            } else {
                self.levels[last].next = next + 1;
                assert(self.levels().last().nodes =~= mid.last().nodes.update(next as int, current(mid.last())));
                assert(self.levels().last() == passed(mid.last(), current(mid.last())));
                proof {
                    lemma_settled_changed(ls.last(), mid.last(), self.levels().last(), false);
                }
            }
            proof {
                assert(self.levels().drop_last() =~= ls.drop_last());
                lemma_on_entries_kept(ls, self.levels());
            }
            return Step::Continue;
        }
        let level = match self.levels.pop() {
            Some(l) => l,
            None => Level { path: Vec::new(), depth: 0, active: false, nodes: Vec::new(), next: 0 },
        };
        assert(level@ == ls.last());
        let mut nodes = level.nodes;
        if walker.full_tree_mode() {
            walker.sort_nodes(&mut nodes);
        }
        proof {
            if full_tree(o) {
                law_size_sum_any_order(ls.last().nodes, nodes@);
            }
        }
        assert(arranged_after(o, ls.last().nodes, nodes@));
        let du = walker.opts().du;
        if self.levels.len() == 0 {
            let m0 = match &self.meta {
                Some(m) => *m,
                None => Meta::default(),
            };
            if du && !sizes_fit_in(m0.size, &nodes) {
                return Step::Overflow;
            }
            let size = walker.root_size(m0.size, &nodes);
            self.meta = Some(Meta { size, ..m0 });
            self.outcome = Some(RootKind::Opened(nodes));
            return Step::Done;
        }
        let p = self.levels.len() - 1;
        let ghost ps = self.levels();
        assert(ps =~= ls.drop_last());
        assert(ps.last() == ls[ls.len() - 2]);
        assert(0 <= ls[ls.len() - 2].next < ls[ls.len() - 2].nodes.len());
        let pnext = self.levels[p].next;
        if du && !sizes_fit_in(self.levels[p].nodes[pnext].meta.size, &nodes) {
            return Step::Overflow;
        }
        walker.attach(&mut self.levels[p].nodes[pnext], nodes);
        let ghost mid = self.levels();
        assert(mid.drop_last() =~= ps.drop_last());
        assert(mid.last().nodes =~= ps.last().nodes.update(pnext as int, mid.last().nodes[pnext as int]));
        self.settle(walker);
        proof {
            let d = prune_drops(
                o,
                current(ps.last()).name@,
                current(ps.last()).is_dir,
                ls.last().nodes.len() == 0 && current(ps.last()).children is None,
                ps.last().depth,
                ps.last().active,
            );
            lemma_settled_changed(ps.last(), mid.last(), self.levels().last(), d);
            assert(self.levels().drop_last() =~= ps.drop_last());
            lemma_on_entries_kept(ps, self.levels());
        }
        Step::Continue
    }

    /// Takes the listing asked for: its entries, or None when the
    /// directory could not be read. For the root: an unreadable root
    /// or one over --filelimit is over as it is; otherwise its entries
    /// become the first directory to visit. For an entry being opened:
    /// a failure tags it "error opening dir", a listing over --filelimit
    /// tags it with the count (either counted as an error outside
    /// full-tree mode), and it is then done with, as it is after an
    /// empty listing; other entries become the next directory to visit,
    /// one level deeper. Entries are sorted as they arrive except in
    /// full-tree mode.
    /// Every entry the walk has done with is tidy, and so is every entry
    /// of the root once the walk is over (see `tidy`), when the
    /// listings handed in hold fresh entries only.
    pub fn deliver(&mut self, walker: &mut Walker, listing: Option<Vec<Node>>) -> (r: Step)
        requires
            old(self).wf(),
            old(self).waiting(),
            old(self).tidy_state(),
            patterns_fit(old(walker).options().patterns@),
            listing matches Some(ns) ==> forall|i: int| 0 <= i < ns@.len() ==> fresh(#[trigger] ns@[i]),
        ensures
            final(walker).options() == old(walker).options(),
            final(walker).seen() == old(walker).seen(),
            final(self).name() == old(self).name(),
            final(self).meta() == old(self).meta(),
            final(self).root_active() == old(self).root_active(),
            !(r is Overflow) ==> final(self).wf() && final(self).pending() is None,
            !(r is Overflow) ==> final(self).tidy_state(),
            r is Continue ==> final(self).busy(),
            r is Done ==> final(self).done(),
            delivered(
                old(walker).options(),
                old(walker).error_count(),
                final(walker).error_count(),
                *old(self),
                *final(self),
                listing,
                r,
            ),
    {
        let ghost w0 = *self;
        let ghost given = listing;
        let ghost e0 = walker.error_count();
        let r = self.take_listing(walker, listing);
        proof {
            if !(r is Overflow) {
                lemma_delivered_tidy(walker.options(), e0, walker.error_count(), w0, *self, given, r);
            }
        }
        r
    }

    /// One step of a busy walk. While the deepest directory has
    /// entries left, its next one is visited (see `Walker::visit`): one
    /// to open is asked for, under its child path; one that stays
    /// unopened is dropped when --prune drops it; any other is passed.
    /// Once none are left, its entries are put in listing order and it
    /// is done: the root's become its listing (its size growing by
    /// theirs under --du); those of a directory below hang under the
    /// entry that was opened for it, which is then dropped when --prune
    /// drops it, else passed.
    /// Every entry the walk has done with stays tidy (see `tidy`).
    pub fn advance(&mut self, walker: &mut Walker) -> (r: Step)
        requires
            old(self).wf(),
            old(self).busy(),
            old(self).tidy_state(),
            patterns_fit(old(walker).options().patterns@),
        ensures
            final(walker).options() == old(walker).options(),
            final(walker).error_count() == old(walker).error_count(),
            final(self).name() == old(self).name(),
            final(self).root_active() == old(self).root_active(),
            !(r is Overflow) ==> final(self).wf(),
            !(r is Overflow) ==> final(self).tidy_state(),
            r is Read ==> final(self).waiting() && final(self).pending() == Some((r->path@, r->active)),
            r is Continue ==> final(self).busy(),
            r is Done ==> final(self).done(),
            advanced(old(walker).options(), old(walker).seen(), final(walker).seen(), *old(self), *final(self), r),
    {
        let ghost w0 = *self;
        let ghost seen0 = walker.seen();
        let r = self.take_step(walker);
        proof {
            if !(r is Overflow) {
                lemma_advanced_tidy(walker.options(), seen0, walker.seen(), w0, *self, r);
            }
        }
        r
    }

    /// The root, once the walk is over.
    pub fn finish(self) -> (root: Root)
        requires
            self.done(),
            self.tidy_state(),
        ensures
            root.name@ == self.name(),
            root.kind == self.outcome().unwrap(),
            root.meta == self.meta(),
            root.kind matches RootKind::Opened(c) ==> tidy_all(c@),
    {
        let kind = match self.outcome {
            Some(k) => k,
            None => RootKind::Missing,
        };
        Root { name: self.name, kind, meta: self.meta }
    }
}

/// What `deliver` does with `listing` (see there): `w0` and `w1` are
/// the walk before and after, `e0` and `e1` the error counts, `r` the
/// next step.
pub open spec fn delivered(o: Options, e0: u64, e1: u64, w0: RootWalk, w1: RootWalk, listing: Option<Vec<Node>>, r: Step) -> bool {
    let p = w0.pending().unwrap();
    let ls = w0.levels();
    let ls1 = w1.levels();
    if ls.len() == 0 {
        &&& e1 == e0
        &&& match listing {
            None => r is Done && w1.outcome() == Some(RootKind::Unreadable),
            Some(ns) => if over_file_limit(o, ns.len()) {
                r is Done && w1.outcome() == Some(RootKind::OverLimit(ns.len()))
            } else {
                &&& r is Continue
                &&& ls1.len() == 1
                &&& ls1[0].path == p.0
                &&& ls1[0].depth == 1
                &&& ls1[0].active == p.1
                &&& ls1[0].next == 0
                &&& arranged_before(o, ns@, ls1[0].nodes)
            },
        }
    } else {
        let l = ls.last();
        let n = current(l);
        let counted = !full_tree(o);
        let fails = match listing {
            None => true,
            Some(ch) => over_file_limit(o, ch.len()),
        };
        &&& (r is Overflow <==> (fails && counted && e0 == u64::MAX))
        &&& !(r is Overflow) ==> match listing {
            None => {
                &&& r is Continue
                &&& e1 == e0 + if counted { 1int } else { 0int }
                &&& ls1.len() == ls.len()
                &&& ls1.drop_last() == ls.drop_last()
                &&& settled(l, ls1.last(), drops(o, l, n))
                &&& !drops(o, l, n) ==> noted(n, ls1.last().nodes[l.next], error_opening())
            },
            Some(ch) => if over_file_limit(o, ch.len()) {
                &&& r is Continue
                &&& e1 == e0 + if counted { 1int } else { 0int }
                &&& ls1.len() == ls.len()
                &&& ls1.drop_last() == ls.drop_last()
                &&& settled(l, ls1.last(), drops(o, l, n))
                &&& !drops(o, l, n) ==> noted(
                    n,
                    ls1.last().nodes[l.next],
                    decimal(ch.len() as nat) + over_limit_tail(),
                )
            } else if ch.len() == 0 {
                &&& r is Continue
                &&& e1 == e0
                &&& ls1.len() == ls.len()
                &&& ls1.drop_last() == ls.drop_last()
                &&& settled(l, ls1.last(), drops(o, l, n))
                &&& !drops(o, l, n) ==> ls1.last().nodes[l.next] == n
            } else {
                &&& r is Continue
                &&& e1 == e0
                &&& ls1.len() == ls.len() + 1
                &&& ls1.drop_last() == ls
                &&& ls1.last().path == p.0
                &&& ls1.last().depth == l.depth + 1
                &&& ls1.last().active == p.1
                &&& ls1.last().next == 0
                &&& arranged_before(o, ch@, ls1.last().nodes)
            },
        }
    }
}

/// What `advance` does (see there): `w0` and `w1` are the walk before
/// and after, `seen` and `seen1` the directories entered before and
/// after, `r` the next step.
pub open spec fn advanced(o: Options, seen: Set<u128>, seen1: Set<u128>, w0: RootWalk, w1: RootWalk, r: Step) -> bool {
    let ls = w0.levels();
    let ls1 = w1.levels();
    let l = ls.last();
    let rd = w0.meta().unwrap().dev;
    if l.next < l.nodes.len() {
        let n = current(l);
        let v = visit_outcome(o, seen, n, l.depth as usize, rd);
        &&& seen1 == seen_after(o, seen, n, rd)
        &&& w1.meta() == w0.meta()
        &&& ls1.len() == ls.len()
        &&& ls1.drop_last() == ls.drop_last()
        &&& if v == Visit::Open {
            let m = current(ls1.last());
            let path = child_path_of(o, l.path, n);
            &&& ls1.last() == (LevelView { nodes: l.nodes.update(l.next, m), ..l })
            &&& visited(o, seen, n, l.depth as usize, rd, m)
            &&& r is Read
            &&& r->path@ == path
            &&& r->active == dir_active(o, l.active, path)
        } else {
            let drop = v == Visit::Stay && drops(o, l, n);
            &&& r is Continue
            &&& settled(l, ls1.last(), drop)
            &&& !drop ==> visited(o, seen, n, l.depth as usize, rd, ls1.last().nodes[l.next])
        }
    } else {
        &&& seen1 == seen
        &&& if ls.len() == 1 {
            let m0 = w0.meta().unwrap();
            &&& (r is Overflow <==> (o.du && !sizes_fit(m0.size as int, l.nodes)))
            &&& !(r is Overflow) ==> {
                &&& r is Done
                &&& (w1.outcome() matches Some(RootKind::Opened(c)) && arranged_after(
                    o,
                    l.nodes,
                    c@,
                ))
                &&& w1.meta() == Some(
                    Meta {
                        size: (m0.size + if o.du {
                            size_sum(l.nodes)
                        } else {
                            0
                        }) as i64,
                        ..m0
                    },
                )
            }
        } else {
            let p = ls[ls.len() - 2];
            let pn = current(p);
            let drop = prune_drops(
                o,
                pn.name@,
                pn.is_dir,
                l.nodes.len() == 0 && pn.children is None,
                p.depth,
                p.active,
            );
            &&& (r is Overflow <==> (o.du && !sizes_fit(pn.meta.size as int, l.nodes)))
            &&& !(r is Overflow) ==> {
                &&& r is Continue
                &&& w1.meta() == w0.meta()
                &&& ls1.len() == ls.len() - 1
                &&& ls1.drop_last() == ls.drop_last().drop_last()
                &&& settled(p, ls1.last(), drop)
                &&& !drop ==> attached(o, pn, l.nodes, ls1.last().nodes[p.next])
            }
        }
    }
}

proof fn lemma_fresh_tidy(n: Node)
    requires
        fresh(n),
    ensures
        tidy(n),
{
}

proof fn lemma_noted_tidy(n: Node, m: Node, note: Seq<u8>)
    requires
        fresh(n),
        noted(n, m, note),
        quiet(note),
    ensures
        tidy(m),
{
    assert(m.children == (Node { err: None, ..m }).children);
    assert(m.err is Some);
    assert(m.err.unwrap()@ == note);
}

proof fn lemma_arranged_fresh(o: Options, ns: Seq<Node>, l: LevelView)
    requires
        forall|i: int| 0 <= i < ns.len() ==> fresh(#[trigger] ns[i]),
        arranged_before(o, ns, l.nodes),
        l.next == 0,
    ensures
        level_tidy(l),
{
    if !full_tree(o) {
        lemma_same_entries(ns, l.nodes);
    }
    lemma_fresh_level(l);
}

proof fn lemma_level_entry(ls: Seq<LevelView>)
    requires
        levels_tidy(ls),
        ls.len() > 0,
        0 <= ls.last().next < ls.last().nodes.len(),
    ensures
        level_tidy(ls.last()),
        fresh(current(ls.last())),
{
    assert(level_tidy(ls[ls.len() - 1]));
}

proof fn lemma_delivered_tidy(o: Options, e0: u64, e1: u64, w0: RootWalk, w1: RootWalk, listing: Option<Vec<Node>>, r: Step)
    requires
        w0.wf(),
        w0.waiting(),
        w0.tidy_state(),
        listing matches Some(ns) ==> forall|i: int| 0 <= i < ns@.len() ==> fresh(#[trigger] ns@[i]),
        delivered(o, e0, e1, w0, w1, listing, r),
        !(r is Overflow),
        w1.wf(),
    ensures
        w1.tidy_state(),
{
    let ls = w0.levels();
    let ls1 = w1.levels();
    if ls.len() == 0 {
        match listing {
            None => {},
            Some(ns) => {
                if !over_file_limit(o, ns.len()) {
                    lemma_arranged_fresh(o, ns@, ls1[0]);
                    assert(levels_tidy(ls1)) by {
                        assert forall|k: int| 0 <= k < ls1.len() implies level_tidy(#[trigger] ls1[k]) by {
                            assert(k == 0);
                        }
                    }
                }
            },
        }
    } else {
        let l = ls.last();
        let n = current(l);
        lemma_level_entry(ls);
        let d = drops(o, l, n);
        match listing {
            None => {
                lemma_quiet_notes(0);
                if !d {
                    lemma_noted_tidy(n, ls1.last().nodes[l.next], error_opening());
                }
                lemma_tidy_settled(l, ls1.last(), d);
                lemma_levels_tidy_last(ls, ls1);
            },
            Some(ch) => {
                if over_file_limit(o, ch.len()) {
                    lemma_quiet_notes(ch.len() as nat);
                    if !d {
                        lemma_noted_tidy(n, ls1.last().nodes[l.next], decimal(ch.len() as nat) + over_limit_tail());
                    }
                    lemma_tidy_settled(l, ls1.last(), d);
                    lemma_levels_tidy_last(ls, ls1);
                } else if ch.len() == 0 {
                    lemma_fresh_tidy(n);
                    lemma_tidy_settled(l, ls1.last(), d);
                    lemma_levels_tidy_last(ls, ls1);
                } else {
                    lemma_arranged_fresh(o, ch@, ls1.last());
                    lemma_levels_tidy_pushed(ls, ls1);
                }
            },
        }
    }
}

proof fn lemma_visited_tidy(o: Options, seen: Set<u128>, n: Node, depth: usize, rd: u64, m: Node)
    requires
        fresh(n),
        visited(o, seen, n, depth, rd, m),
    ensures
        tidy(m),
        visit_outcome(o, seen, n, depth, rd) == Visit::Open ==> fresh(m),
{
    lemma_quiet_notes(0);
    if m.err is Some {
        assert(note_view(m.err) == Some(recursive_note()));
        assert(m.err.unwrap()@ == recursive_note());
    }
}

proof fn lemma_attached_tidy(o: Options, pn: Node, listed: Seq<Node>, m: Node)
    requires
        fresh(pn),
        forall|i: int| 0 <= i < listed.len() ==> tidy(#[trigger] listed[i]),
        attached(o, pn, listed, m),
    ensures
        tidy(m),
{
    assert(m.err == (Node { children: None, meta: Meta { size: 0, ..m.meta }, ..m }).err);
    assert(m.err is None);
    if listed.len() > 0 {
        let c = m.children.unwrap();
        if full_tree(o) {
            lemma_same_entries(listed, c@);
        }
        assert(c@.len() == listed.len());
        lemma_tidy_all(c@);
    }
}

proof fn lemma_advanced_tidy(o: Options, seen: Set<u128>, seen1: Set<u128>, w0: RootWalk, w1: RootWalk, r: Step)
    requires
        w0.wf(),
        w0.busy(),
        w0.tidy_state(),
        advanced(o, seen, seen1, w0, w1, r),
        !(r is Overflow),
        w1.wf(),
    ensures
        w1.tidy_state(),
{
    let ls = w0.levels();
    let ls1 = w1.levels();
    let l = ls.last();
    let rd = w0.meta().unwrap().dev;
    assert(level_tidy(ls[ls.len() - 1]));
    if l.next < l.nodes.len() {
        let n = current(l);
        lemma_level_entry(ls);
        let v = visit_outcome(o, seen, n, l.depth as usize, rd);
        if v == Visit::Open {
            let m = current(ls1.last());
            lemma_visited_tidy(o, seen, n, l.depth as usize, rd, m);
            let l1 = ls1.last();
            assert(level_tidy(l1)) by {
                assert forall|i: int| 0 <= i < l1.next implies tidy(#[trigger] l1.nodes[i]) by {
                    assert(l1.nodes[i] == l.nodes[i]);
                }
                assert forall|i: int| l1.next <= i < l1.nodes.len() implies fresh(#[trigger] l1.nodes[i]) by {
                    if i != l.next {
                        assert(l1.nodes[i] == l.nodes[i]);
                    }
                }
            }
            lemma_levels_tidy_last(ls, ls1);
        } else {
            let d = v == Visit::Stay && drops(o, l, n);
            if !d {
                lemma_visited_tidy(o, seen, n, l.depth as usize, rd, ls1.last().nodes[l.next]);
            }
            lemma_tidy_settled(l, ls1.last(), d);
            lemma_levels_tidy_last(ls, ls1);
        }
    } else {
        assert(forall|i: int| 0 <= i < l.nodes.len() ==> tidy(#[trigger] l.nodes[i]));
        if ls.len() == 1 {
            let c = w1.outcome().unwrap()->Opened_0;
            if full_tree(o) {
                lemma_same_entries(l.nodes, c@);
            }
            lemma_tidy_all(c@);
        } else {
            let p = ls[ls.len() - 2];
            let pn = current(p);
            let lp = ls.drop_last();
            assert(levels_tidy(lp)) by {
                assert forall|k: int| 0 <= k < lp.len() implies level_tidy(#[trigger] lp[k]) by {
                    assert(lp[k] == ls[k]);
                }
            }
            assert(lp.last() == p);
            assert(0 <= p.next < p.nodes.len());
            lemma_level_entry(lp);
            let drop = prune_drops(o, pn.name@, pn.is_dir, l.nodes.len() == 0 && pn.children is None, p.depth, p.active);
            if !drop {
                lemma_attached_tidy(o, pn, l.nodes, ls1.last().nodes[p.next]);
            }
            lemma_tidy_settled(p, ls1.last(), drop);
            lemma_levels_tidy_last(lp, ls1);
        }
    }
}

/// The work a walk has left among the directories it is visiting:
/// their entries not yet visited, and one for each directory itself.
pub open spec fn work(ls: Seq<LevelView>) -> int
    decreases ls.len(),
{
    if ls.len() == 0 {
        0
    } else {
        work(ls.drop_last()) + (ls.last().nodes.len() - ls.last().next) + 1
    }
}

/// The walk never loops: a step of `advance` that asks for no listing
/// and does not finish leaves less work than before (see `work`), so
/// between two listings it takes finitely many steps.
pub proof fn law_advance_makes_progress(
    o: Options,
    seen: Set<u128>,
    seen1: Set<u128>,
    w0: RootWalk,
    w1: RootWalk,
    r: Step,
)
    requires
        w0.wf(),
        w0.busy(),
        advanced(o, seen, seen1, w0, w1, r),
        r is Continue,
    ensures
        work(w1.levels()) < work(w0.levels()),
{
    let ls = w0.levels();
    let ls1 = w1.levels();
    let l = ls.last();
    if l.next < l.nodes.len() {
        assert(ls1.drop_last() == ls.drop_last());
        assert(work(ls1) - work(ls1.drop_last()) < work(ls) - work(ls.drop_last()));
    } else {
        let lp = ls.drop_last();
        assert(work(ls) == work(lp) + 1);
        assert(ls1.drop_last() == lp.drop_last());
        assert(lp.last() == ls[ls.len() - 2]);
        assert(work(ls1) - work(ls1.drop_last()) < work(lp) - work(lp.drop_last()));
    }
}

} // verus!
