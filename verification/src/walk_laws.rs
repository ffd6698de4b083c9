//! Properties of the walk that span several of its steps.

use vstd::prelude::*;
use crate::options::{Options, TopSort};
use crate::sort::{flip, node_order};
use crate::pattern::any_hit;
use crate::walk::{Node, Visit, entry_kept, joined, last_part, last_slash_before, lemma_last_slash, node_key, seen_after, visit_outcome};

verus! {

/// Visiting an entry never forgets a directory entered before.
pub proof fn law_seen_grows(o: Options, seen: Set<u128>, n: Node, root_dev: u64)
    ensures
        seen.subset_of(seen_after(o, seen, n, root_dev)),
{
}

/// Loop protection: once a visit has opened a directory, no symlink to
/// that same directory is opened again for as long as the walk
/// remembers it, at whatever depth and under whatever root.
pub proof fn law_symlink_target_opened_once(
    o: Options,
    seen: Set<u128>,
    later: Set<u128>,
    a: Node,
    b: Node,
    depth_a: usize,
    depth_b: usize,
    dev_a: u64,
    dev_b: u64,
)
    requires
        visit_outcome(o, seen, a, depth_a, dev_a) == Visit::Open,
        seen_after(o, seen, a, dev_a).subset_of(later),
        b.link is Some,
        node_key(b) == node_key(a),
    ensures
        visit_outcome(o, later, b, depth_b, dev_b) != Visit::Open,
{
    assert(seen_after(o, seen, a, dev_a).contains(node_key(a)));
}

/// Under -r entries come in the opposite order, except that the
/// --dirsfirst / --filesfirst grouping of a directory and a file stays.
pub proof fn law_reverse_flips_order(o: Options, a: Node, b: Node)
    requires
        o.top == TopSort::Mixed || a.is_dir == b.is_dir,
    ensures
        node_order(Options { reverse: !o.reverse, ..o }, a, b) == flip(node_order(o, a, b)),
{
    let r = Options { reverse: !o.reverse, ..o };
    assert(flip(flip(node_order(r, a, b))) == node_order(r, a, b));
}

/// The last component of a path joined from a directory and a name
/// without `/` is that name: `last_component` undoes `join_path`.
pub proof fn law_last_part_of_joined(dir: Seq<u8>, name: Seq<u8>)
    requires
        forall|j: int| 0 <= j < name.len() ==> #[trigger] name[j] != 47,
    ensures
        last_part(joined(dir, name)) == name,
{
    let p = joined(dir, name);
    let n = p.len() as int;
    let start = n - name.len();
    assert(p[start - 1] == 47);
    assert forall|j: int| start <= j < n implies p[j] != 47 by {
        assert(p[j] == name[j - start]);
    }
    lemma_last_slash(p, n);
    lemma_slash_at(p, n, start - 1);
    assert(p.subrange(start, n) =~= name);
}

proof fn lemma_slash_at(p: Seq<u8>, i: int, k: int)
    requires
        0 <= k < i <= p.len(),
        p[k] == 47,
        forall|j: int| k < j < i ==> p[j] != 47,
    ensures
        last_slash_before(p, i) == k,
    decreases i,
{
    if i - 1 > k {
        lemma_slash_at(p, i - 1, k);
    }
}

/// Which entries a listing keeps: one whose name, or whose path or a
/// part of it, matches an -I pattern is left out, directory or not; -d
/// leaves out everything but directories; while -P patterns apply, an
/// entry that is no directory (by lstat, or as a followed link) and
/// matches none of them is left out; every other entry is kept.
pub proof fn law_entry_filter(o: Options, name: Seq<u8>, full_path: Seq<u8>, is_dir: bool, lstat_is_dir: bool, active: bool)
    ensures
        any_hit(name, o.ipatterns@, is_dir, o.ignore_case, false) ==> !entry_kept(
            o,
            name,
            full_path,
            is_dir,
            lstat_is_dir,
            active,
        ),
        any_hit(full_path, o.ipatterns@, is_dir, o.ignore_case, true) ==> !entry_kept(
            o,
            name,
            full_path,
            is_dir,
            lstat_is_dir,
            active,
        ),
        o.dirs_only && !is_dir ==> !entry_kept(o, name, full_path, is_dir, lstat_is_dir, active),
        active && o.patterns@.len() > 0 && !lstat_is_dir && !(o.follow_links && is_dir) && !any_hit(
            name,
            o.patterns@,
            is_dir,
            o.ignore_case,
            false,
        ) && !any_hit(full_path, o.patterns@, is_dir, o.ignore_case, true) ==> !entry_kept(
            o,
            name,
            full_path,
            is_dir,
            lstat_is_dir,
            active,
        ),
        !any_hit(name, o.ipatterns@, is_dir, o.ignore_case, false) && !any_hit(
            full_path,
            o.ipatterns@,
            is_dir,
            o.ignore_case,
            true,
        ) && !(o.dirs_only && !is_dir) && (!active || o.patterns@.len() == 0 || lstat_is_dir || (o.follow_links
            && is_dir) || any_hit(name, o.patterns@, is_dir, o.ignore_case, false) || any_hit(
            full_path,
            o.patterns@,
            is_dir,
            o.ignore_case,
            true,
        )) ==> entry_kept(o, name, full_path, is_dir, lstat_is_dir, active),
{
}

} // verus!
