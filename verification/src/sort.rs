//! The order the walk lists a directory's entries in.

use vstd::prelude::*;
use crate::options::{Options, SortKey, TopSort};
use crate::walk::{Node, Walker};

verus! {

/// The result of comparing two entries.
#[derive(Clone, Copy, PartialEq, Eq, Structural)]
pub enum Order {
    Less,
    Equal,
    Greater,
}

/// The opposite order.
pub open spec fn flip(o: Order) -> Order {
    match o {
        Order::Less => Order::Greater,
        Order::Equal => Order::Equal,
        Order::Greater => Order::Less,
    }
}

/// `o`, or `tie` when `o` is Equal.
pub open spec fn then(o: Order, tie: Order) -> Order {
    if o == Order::Equal {
        tie
    } else {
        o
    }
}

/// How two integers compare.
pub open spec fn int_order(x: int, y: int) -> Order {
    if x < y {
        Order::Less
    } else if x > y {
        Order::Greater
    } else {
        Order::Equal
    }
}

/// How two byte strings compare, byte by byte (a prefix first).
pub open spec fn lex_order(a: Seq<u8>, b: Seq<u8>) -> Order
    decreases a.len(),
{
    if a.len() == 0 {
        if b.len() == 0 {
            Order::Equal
        } else {
            Order::Less
        }
    } else if b.len() == 0 {
        Order::Greater
    } else if a[0] < b[0] {
        Order::Less
    } else if a[0] > b[0] {
        Order::Greater
    } else {
        lex_order(a.drop_first(), b.drop_first())
    }
}

/// How two entries compare by the sort key alone: by name; by size,
/// largest first, then name; by modification or change time, then
/// name; or all equal when unsorted.
pub open spec fn key_order(o: Options, a: Node, b: Node) -> Order {
    match o.sort {
        SortKey::Name => lex_order(a.name@, b.name@),
        SortKey::Size => then(int_order(b.meta.size as int, a.meta.size as int), lex_order(a.name@, b.name@)),
        SortKey::Mtime => then(int_order(a.meta.mtime as int, b.meta.mtime as int), lex_order(a.name@, b.name@)),
        SortKey::Ctime => then(int_order(a.meta.ctime as int, b.meta.ctime as int), lex_order(a.name@, b.name@)),
        SortKey::Unsorted => Order::Equal,
    }
}

/// How two entries compare: directories before (--dirsfirst) or after
/// (--filesfirst) the rest, then by the sort key, reversed under -r
/// (which never reverses the grouping).
pub open spec fn node_order(o: Options, a: Node, b: Node) -> Order {
    if o.top == TopSort::DirsFirst && a.is_dir != b.is_dir {
        if a.is_dir {
            Order::Less
        } else {
            Order::Greater
        }
    } else if o.top == TopSort::FilesFirst && a.is_dir != b.is_dir {
        if a.is_dir {
            Order::Greater
        } else {
            Order::Less
        }
    } else if o.reverse {
        flip(key_order(o, a, b))
    } else {
        key_order(o, a, b)
    }
}

/// The entries that tie with `y`: those comparing Equal to it.
pub open spec fn tied_with(o: Options, y: Node) -> spec_fn(Node) -> bool {
    |z: Node| node_order(o, z, y) == Order::Equal
}

/// No entry of `s` comes after one it should precede.
pub open spec fn sorted_by(o: Options, s: Seq<Node>) -> bool {
    forall|i: int, j: int| 0 <= i < j < s.len() ==> node_order(o, #[trigger] s[i], #[trigger] s[j]) != Order::Greater
}

proof fn lemma_lex(a: Seq<u8>, b: Seq<u8>, c: Seq<u8>)
    ensures
        lex_order(a, b) == flip(lex_order(b, a)),
        (lex_order(a, b) == Order::Equal) == (a =~= b),
        lex_order(a, b) != Order::Greater && lex_order(b, c) != Order::Greater ==> lex_order(a, c)
            != Order::Greater,
        lex_order(a, b) == Order::Less && lex_order(b, c) != Order::Greater ==> lex_order(a, c) == Order::Less,
        lex_order(a, b) != Order::Greater && lex_order(b, c) == Order::Less ==> lex_order(a, c) == Order::Less,
    decreases a.len(),
{
    if a.len() > 0 && b.len() > 0 && c.len() > 0 {
        lemma_lex(a.drop_first(), b.drop_first(), c.drop_first());
    } else if a.len() > 0 && b.len() > 0 {
        lemma_lex(a.drop_first(), b.drop_first(), c);
    }
    if a.len() > 0 && b.len() > 0 && a[0] == b[0] {
        if a.drop_first() =~= b.drop_first() {
            assert forall|i: int| 0 <= i < a.len() implies a[i] == b[i] by {
                if i > 0 {
                    assert(a[i] == a.drop_first()[i - 1]);
                    assert(b[i] == b.drop_first()[i - 1]);
                }
            }
            assert(a =~= b);
        }
    }
}

/// Entries compare the opposite way round when swapped.
pub proof fn law_order_antisymmetric(o: Options, a: Node, b: Node)
    ensures
        node_order(o, a, b) == flip(node_order(o, b, a)),
{
    lemma_lex(a.name@, b.name@, b.name@);
}

/// "Comes no later than" is transitive.
pub proof fn law_order_transitive(o: Options, a: Node, b: Node, c: Node)
    requires
        node_order(o, a, b) != Order::Greater,
        node_order(o, b, c) != Order::Greater,
    ensures
        node_order(o, a, c) != Order::Greater,
{
    lemma_lex(a.name@, b.name@, c.name@);
    lemma_lex(c.name@, b.name@, a.name@);
    lemma_lex(b.name@, a.name@, c.name@);
}

/// How two byte strings compare.
fn lex_compare(a: &[u8], b: &[u8]) -> (r: Order)
    ensures
        r == lex_order(a@, b@),
{
    let mut i: usize = 0;
    assert(a@.subrange(0, a@.len() as int) =~= a@);
    assert(b@.subrange(0, b@.len() as int) =~= b@);
    while i < a.len() && i < b.len()
        invariant
            i <= a@.len(),
            i <= b@.len(),
            lex_order(a@, b@) == lex_order(a@.subrange(i as int, a@.len() as int), b@.subrange(i as int, b@.len() as int)),
        decreases a@.len() - i,
    {
        if a[i] < b[i] {
            return Order::Less;
        } else if a[i] > b[i] {
            return Order::Greater;
        }
        proof {
            let sa = a@.subrange(i as int, a@.len() as int);
            let sb = b@.subrange(i as int, b@.len() as int);
            assert(sa.drop_first() =~= a@.subrange(i + 1, a@.len() as int));
            assert(sb.drop_first() =~= b@.subrange(i + 1, b@.len() as int));
        }
        i += 1;
    }
    if i < a.len() {
        Order::Greater
    } else if i < b.len() {
        Order::Less
    } else {
        Order::Equal
    }
}

fn int_compare(x: i64, y: i64) -> (r: Order)
    ensures
        r == int_order(x as int, y as int),
{
    if x < y {
        Order::Less
    } else if x > y {
        Order::Greater
    } else {
        Order::Equal
    }
}

impl<'a> Walker<'a> {
    /// How two entries of one directory compare (see `node_order`).
    pub fn compare(&self, a: &Node, b: &Node) -> (r: Order)
        ensures
            r == node_order(self.options(), *a, *b),
    {
        let o = self.opts();
        if o.top == TopSort::DirsFirst && a.is_dir != b.is_dir {
            return if a.is_dir {
                Order::Less
            } else {
                Order::Greater
            };
        }
        if o.top == TopSort::FilesFirst && a.is_dir != b.is_dir {
            return if a.is_dir {
                Order::Greater
            } else {
                Order::Less
            };
        }
        let by_name = lex_compare(a.name.as_slice(), b.name.as_slice());
        let key = match o.sort {
            SortKey::Name => by_name,
            SortKey::Size => tie_break(int_compare(b.meta.size, a.meta.size), by_name),
            SortKey::Mtime => tie_break(int_compare(a.meta.mtime, b.meta.mtime), by_name),
            SortKey::Ctime => tie_break(int_compare(a.meta.ctime, b.meta.ctime), by_name),
            SortKey::Unsorted => Order::Equal,
        };
        if o.reverse {
            reversed(key)
        } else {
            key
        }
    }

    /// Sorts a directory's entries (see `node_order`); unsorted
    /// listings keep their directory order. The sort is stable: entries
    /// that compare Equal keep the order they came in.
    pub fn sort_nodes(&self, nodes: &mut Vec<Node>)
        ensures
            final(nodes)@.to_multiset() == old(nodes)@.to_multiset(),
            final(nodes)@.len() == old(nodes)@.len(),
            self.options().sort == SortKey::Unsorted ==> final(nodes)@ == old(nodes)@,
            self.options().sort != SortKey::Unsorted ==> sorted_by(self.options(), final(nodes)@),
            forall|y: Node|
                #[trigger] final(nodes)@.filter(tied_with(self.options(), y)) == old(nodes)@.filter(
                    tied_with(self.options(), y),
                ),
    {
        broadcast use vstd::seq_lib::group_to_multiset_ensures;

        let ghost o = self.options();
        if self.opts().sort == SortKey::Unsorted {
            return ;
        }
        let mut i: usize = 1;
        if nodes.len() == 0 {
            return ;
        }
        while i < nodes.len()
            invariant
                1 <= i <= nodes@.len(),
                o == self.options(),
                nodes@.to_multiset() == old(nodes)@.to_multiset(),
                nodes@.len() == old(nodes)@.len(),
                sorted_by(o, nodes@.take(i as int)),
                forall|t: int| i <= t < nodes@.len() ==> #[trigger] nodes@[t] == old(nodes)@[t],
                forall|y: Node|
                    #[trigger] nodes@.take(i as int).filter(tied_with(o, y)) == old(nodes)@.take(i as int).filter(
                        tied_with(o, y),
                    ),
            decreases nodes@.len() - i,
        {
            let ghost before = nodes@;
            let x = nodes.remove(i);
            let mut k = i;
            while k > 0 && self.compare(&nodes[k - 1], &x) == Order::Greater
                invariant
                    k <= i,
                    i < before.len(),
                    nodes@ == before.remove(i as int),
                    o == self.options(),
                    forall|j: int| k <= j < i ==> node_order(o, #[trigger] nodes@[j], x) == Order::Greater,
                decreases k,
            {
                k -= 1;
            }
            let ghost mid = nodes@;
            nodes.insert(k, x);
            proof {
                vstd::seq_lib::to_multiset_remove(before, i as int);
                vstd::seq_lib::to_multiset_insert(mid, k as int, x);
                assert(before[i as int] == x);
                assert(before.contains(x));
                vstd::seq_lib::to_multiset_contains(before, x);
                assert(before.to_multiset().contains(x));
                assert(nodes@.to_multiset() =~= before.to_multiset());
                let p = before.take(i as int);
                assert forall|a: int, b: int| 0 <= a < b < i + 1 implies node_order(
                    o,
                    #[trigger] nodes@.take(i + 1)[a],
                    #[trigger] nodes@.take(i + 1)[b],
                ) != Order::Greater by {
                    let q = nodes@.take(i + 1);
                    assert(forall|t: int| 0 <= t < k ==> q[t] == p[t]);
                    assert(q[k as int] == x);
                    assert(forall|t: int| k < t < i + 1 ==> q[t] == p[t - 1]);
                    assert(forall|t: int| 0 <= t < i ==> #[trigger] mid[t] == p[t]);
                    if b < k {
                        assert(node_order(o, p[a], p[b]) != Order::Greater);
                    } else if b == k {
                        if k > 0 {
                            assert(node_order(o, mid[k - 1], x) != Order::Greater);
                            if a < k - 1 {
                                assert(node_order(o, p[a], p[k - 1]) != Order::Greater);
                                law_order_transitive(o, p[a], p[k - 1], x);
                            }
                        }
                    } else if a == k {
                        assert(node_order(o, mid[b - 1], x) == Order::Greater);
                        law_order_antisymmetric(o, x, p[b - 1]);
                    } else if a < k {
                        assert(node_order(o, p[a], p[b - 1]) != Order::Greater);
                    } else {
                        assert(node_order(o, p[a - 1], p[b - 1]) != Order::Greater);
                    }
                }
                let first = mid.take(k as int);
                let rest = mid.subrange(k as int, i as int);
                assert(nodes@.take(i + 1) =~= first + seq![x] + rest);
                assert(before.take(i as int) =~= first + rest);
                assert(before.take(i + 1) =~= first + rest + seq![x]);
                assert forall|t: int| 0 <= t < rest.len() implies node_order(o, #[trigger] rest[t], x) == Order::Greater by {
                    assert(rest[t] == mid[k + t]);
                }
                assert forall|t: int| i + 1 <= t < nodes@.len() implies #[trigger] nodes@[t] == old(nodes)@[t] by {
                    assert(nodes@[t] == before[t]);
                }
                assert(before[i as int] == old(nodes)@[i as int]);
                assert(old(nodes)@.take(i + 1) =~= old(nodes)@.take(i as int) + seq![x]);
                assert forall|y: Node| #[trigger] nodes@.take(i + 1).filter(tied_with(o, y)) == old(nodes)@.take(
                    i + 1,
                ).filter(tied_with(o, y)) by {
                    lemma_insertion_keeps_ties(o, first, rest, x, y);
                    Seq::filter_distributes_over_add(before.take(i as int), seq![x], tied_with(o, y));
                    Seq::filter_distributes_over_add(old(nodes)@.take(i as int), seq![x], tied_with(o, y));
                    assert(before.take(i as int).filter(tied_with(o, y)) == old(nodes)@.take(i as int).filter(
                        tied_with(o, y),
                    ));
                }
            }
            i += 1;
        }
        assert(nodes@.take(nodes@.len() as int) =~= nodes@);
        assert(old(nodes)@.take(nodes@.len() as int) =~= old(nodes)@);
    }
}

/// Nothing in `s` ties with `y` when everything in it sorts after `x`
/// and `x` ties with `y`.
proof fn lemma_none_tied(o: Options, s: Seq<Node>, x: Node, y: Node)
    requires
        node_order(o, x, y) == Order::Equal,
        forall|t: int| 0 <= t < s.len() ==> node_order(o, #[trigger] s[t], x) == Order::Greater,
    ensures
        s.filter(tied_with(o, y)) == Seq::<Node>::empty(),
    decreases s.len(),
{
    reveal(Seq::filter);
    if s.len() > 0 {
        let z = s.last();
        assert(node_order(o, s[s.len() - 1], x) == Order::Greater);
        if node_order(o, z, y) == Order::Equal {
            law_order_antisymmetric(o, y, x);
            law_order_transitive(o, z, y, x);
        }
        lemma_none_tied(o, s.drop_last(), x, y);
    }
}

/// Moving `x` in front of entries that all sort after it leaves, for
/// every `y`, the entries tied with `y` in the order they had.
proof fn lemma_insertion_keeps_ties(o: Options, first: Seq<Node>, rest: Seq<Node>, x: Node, y: Node)
    requires
        forall|t: int| 0 <= t < rest.len() ==> node_order(o, #[trigger] rest[t], x) == Order::Greater,
    ensures
        (first + seq![x] + rest).filter(tied_with(o, y)) == (first + rest + seq![x]).filter(tied_with(o, y)),
{
    let p = tied_with(o, y);
    Seq::filter_distributes_over_add(first + seq![x], rest, p);
    Seq::filter_distributes_over_add(first, seq![x], p);
    Seq::filter_distributes_over_add(first + rest, seq![x], p);
    Seq::filter_distributes_over_add(first, rest, p);
    reveal(Seq::filter);
    assert(seq![x].drop_last() =~= Seq::<Node>::empty());
    assert(seq![x].drop_last().filter(p) =~= Seq::<Node>::empty());
    assert(seq![x].last() == x);
    if p(x) {
        lemma_none_tied(o, rest, x, y);
        assert(seq![x].filter(p) =~= seq![x]);
        assert(first.filter(p) + seq![x].filter(p) + rest.filter(p) =~= first.filter(p) + Seq::<Node>::empty()
            + seq![x].filter(p));
    } else {
        assert(seq![x].filter(p) =~= Seq::<Node>::empty());
        assert(first.filter(p) + seq![x].filter(p) + rest.filter(p) =~= first.filter(p) + rest.filter(p)
            + seq![x].filter(p));
    }
}

fn tie_break(o: Order, tie: Order) -> (r: Order)
    ensures
        r == then(o, tie),
{
    if o == Order::Equal {
        tie
    } else {
        o
    }
}

fn reversed(o: Order) -> (r: Order)
    ensures
        r == flip(o),
{
    match o {
        Order::Less => Order::Greater,
        Order::Equal => Order::Equal,
        Order::Greater => Order::Less,
    }
}

/// No two entries of `s` have the same name (as in any one directory).
pub open spec fn names_distinct(s: Seq<Node>) -> bool {
    forall|i: int, j: int| 0 <= i < j < s.len() ==> (#[trigger] s[i]).name@ != (#[trigger] s[j]).name@
}

proof fn lemma_equal_means_same_name(o: Options, a: Node, b: Node)
    requires
        o.sort != SortKey::Unsorted,
        node_order(o, a, b) == Order::Equal,
    ensures
        a.name@ == b.name@,
{
    lemma_lex(a.name@, b.name@, b.name@);
}

/// A sorted listing is fully determined: two orderings of the same
/// entries, with distinct names, that are both sorted (by any sort key
/// but none) are the same. So the walk lists a directory one way only.
pub proof fn law_sorted_order_unique(o: Options, a: Seq<Node>, b: Seq<Node>)
    requires
        o.sort != SortKey::Unsorted,
        a.to_multiset() == b.to_multiset(),
        names_distinct(a),
        sorted_by(o, a),
        sorted_by(o, b),
    ensures
        a == b,
    decreases a.len(),
{
    broadcast use vstd::seq_lib::group_to_multiset_ensures;

    assert(a.to_multiset().len() == a.len());
    assert(b.to_multiset().len() == b.len());
    if a.len() == 0 {
        assert(a =~= b);
    } else {
        let x = a[0];
        let y = b[0];
        assert(a.contains(x));
        assert(b.to_multiset().count(x) > 0);
        assert(b.contains(x));
        assert(b.contains(y));
        assert(a.to_multiset().count(y) > 0);
        assert(a.contains(y));
        let i = a.index_of(y);
        let j = b.index_of(x);
        if i > 0 {
            assert(node_order(o, a[0], a[i]) != Order::Greater);
        }
        if j > 0 {
            assert(node_order(o, b[0], b[j]) != Order::Greater);
        }
        law_order_antisymmetric(o, x, y);
        assert(node_order(o, x, y) == Order::Equal);
        lemma_equal_means_same_name(o, x, y);
        if i != 0 {
            assert(a[0].name@ != a[i].name@);
        }
        assert(x == y);
        let a1 = a.drop_first();
        let b1 = b.drop_first();
        assert(a1 =~= a.remove(0));
        assert(b1 =~= b.remove(0));
        assert(a1.to_multiset() == b1.to_multiset());
        assert forall|p: int, q: int| 0 <= p < q < a1.len() implies (#[trigger] a1[p]).name@ != (
        #[trigger] a1[q]).name@ by {
            assert(a1[p] == a[p + 1] && a1[q] == a[q + 1]);
        }
        assert forall|p: int, q: int| 0 <= p < q < a1.len() implies node_order(o, #[trigger] a1[p], #[trigger] a1[q])
            != Order::Greater by {
            assert(a1[p] == a[p + 1] && a1[q] == a[q + 1]);
        }
        assert forall|p: int, q: int| 0 <= p < q < b1.len() implies node_order(o, #[trigger] b1[p], #[trigger] b1[q])
            != Order::Greater by {
            assert(b1[p] == b[p + 1] && b1[q] == b[q + 1]);
        }
        law_sorted_order_unique(o, a1, b1);
        assert(a =~= seq![x] + a1);
        assert(b =~= seq![y] + b1);
    }
}

/// Byte strings compare by their first differing byte, and a proper
/// prefix comes first.
pub proof fn law_byte_order(a: Seq<u8>, b: Seq<u8>, k: int)
    requires
        0 <= k <= a.len(),
        k <= b.len(),
        a.take(k) == b.take(k),
    ensures
        k < a.len() && k < b.len() && a[k] < b[k] ==> lex_order(a, b) == Order::Less,
        k < a.len() && k < b.len() && a[k] > b[k] ==> lex_order(a, b) == Order::Greater,
        k == a.len() && k < b.len() ==> lex_order(a, b) == Order::Less,
        k == a.len() && k == b.len() ==> lex_order(a, b) == Order::Equal,
    decreases k,
{
    if k > 0 {
        assert(a[0] == a.take(k)[0] && b[0] == b.take(k)[0]);
        assert(a.drop_first().take(k - 1) =~= a.take(k).drop_first());
        assert(b.drop_first().take(k - 1) =~= b.take(k).drop_first());
        law_byte_order(a.drop_first(), b.drop_first(), k - 1);
        if k < a.len() && k < b.len() {
            assert(a.drop_first()[k - 1] == a[k] && b.drop_first()[k - 1] == b[k]);
        }
    }
}

/// What each sort key orders by, without -r and when the grouping of
/// directories does not apply: -t by modification time and -c by change
/// time (older first), --sort=size by size (larger first), the others
/// by name; ties in time or size fall back to the name; unsorted
/// leaves every pair equal.
pub proof fn law_sort_keys(o: Options, a: Node, b: Node)
    requires
        !o.reverse,
        o.top == TopSort::Mixed || a.is_dir == b.is_dir,
    ensures
        o.sort == SortKey::Mtime && a.meta.mtime < b.meta.mtime ==> node_order(o, a, b) == Order::Less,
        o.sort == SortKey::Mtime && a.meta.mtime > b.meta.mtime ==> node_order(o, a, b) == Order::Greater,
        o.sort == SortKey::Ctime && a.meta.ctime < b.meta.ctime ==> node_order(o, a, b) == Order::Less,
        o.sort == SortKey::Ctime && a.meta.ctime > b.meta.ctime ==> node_order(o, a, b) == Order::Greater,
        o.sort == SortKey::Size && a.meta.size > b.meta.size ==> node_order(o, a, b) == Order::Less,
        o.sort == SortKey::Size && a.meta.size < b.meta.size ==> node_order(o, a, b) == Order::Greater,
        o.sort == SortKey::Name ==> node_order(o, a, b) == lex_order(a.name@, b.name@),
        o.sort == SortKey::Mtime && a.meta.mtime == b.meta.mtime ==> node_order(o, a, b) == lex_order(a.name@, b.name@),
        o.sort == SortKey::Ctime && a.meta.ctime == b.meta.ctime ==> node_order(o, a, b) == lex_order(a.name@, b.name@),
        o.sort == SortKey::Size && a.meta.size == b.meta.size ==> node_order(o, a, b) == lex_order(a.name@, b.name@),
        o.sort == SortKey::Unsorted ==> node_order(o, a, b) == Order::Equal,
{
}

/// --dirsfirst puts a directory before any other entry, and
/// --filesfirst after, whatever the sort key and -r.
pub proof fn law_grouping(o: Options, a: Node, b: Node)
    requires
        a.is_dir,
        !b.is_dir,
    ensures
        o.top == TopSort::DirsFirst ==> node_order(o, a, b) == Order::Less,
        o.top == TopSort::FilesFirst ==> node_order(o, a, b) == Order::Greater,
{
}

} // verus!
