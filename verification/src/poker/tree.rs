use vstd::prelude::*;

verus! {

/// Number of hand buckets of each betting round, pre-flop first.
pub const CLUSTERS: [usize; 4] = [169, 2197, 2197, 2197];

/// Number of hand buckets of round `r`, as a mathematical value.
pub open spec fn buckets(r: u8) -> nat {
    if r == 0 {
        169
    } else {
        2197
    }
}

/// One node of the betting tree.
pub struct Node {
    /// First information-set index of the node.
    pub i: usize,
    /// The player to act, 0 or 1.
    pub t: u8,
    /// The betting round, 0 (pre-flop) to 3 (river).
    pub r: u8,
    /// The action that led here; `'f'` marks a fold.
    pub a: char,
    /// The betting history, for diagnostics.
    pub h: String,
    /// What each player has committed to the pot.
    pub s: [i32; 2],
    /// Positions of the children in the tree; empty at a leaf.
    pub children: Vec<usize>,
}

impl Node {
    /// A leaf has no children.
    pub open spec fn terminal(&self) -> bool {
        self.children@.len() == 0
    }

    /// Number of information sets the node owns: none at a leaf, one per
    /// hand bucket of its round otherwise.
    pub open spec fn width(&self) -> nat {
        if self.terminal() {
            0
        } else {
            buckets(self.r)
        }
    }

    /// The node owns information set `k`.
    pub open spec fn covers(&self, k: int) -> bool {
        self.i <= k < self.i + self.width()
    }
}

/// Total number of information sets owned by `nodes`.
pub open spec fn total(nodes: Seq<Node>) -> nat
    decreases nodes.len(),
{
    if nodes.len() == 0 {
        0
    } else {
        total(nodes.drop_last()) + nodes.last().width()
    }
}

/// Action count written for information set `k` by a table filled node by
/// node in tree order: that of the last node owning `k`, zero where no node
/// owns it.
pub open spec fn size_at(nodes: Seq<Node>, k: int) -> nat
    decreases nodes.len(),
{
    if nodes.len() == 0 {
        0
    } else if nodes.last().covers(k) {
        nodes.last().children@.len()
    } else {
        size_at(nodes.drop_last(), k)
    }
}

/// Every inner node's round is one of the four, and its information sets
/// lie inside the table.
pub open spec fn fits(nodes: Seq<Node>) -> bool {
    forall|j: int|
        0 <= j < nodes.len() && !(#[trigger] nodes[j]).terminal() ==> nodes[j].r < 4
            && nodes[j].i + buckets(nodes[j].r) <= total(nodes)
}

/// The count of a prefix never exceeds the count of the whole.
pub proof fn lemma_total_prefix(nodes: Seq<Node>, j: int)
    requires
        0 <= j <= nodes.len(),
    ensures
        total(nodes.take(j)) <= total(nodes),
    decreases nodes.len() - j,
{
    if j < nodes.len() {
        lemma_total_step(nodes, j);
        lemma_total_prefix(nodes, j + 1);
    } else {
        assert(nodes.take(j) =~= nodes);
    }
}

/// Taking one more node adds that node's width.
pub proof fn lemma_total_step(nodes: Seq<Node>, j: int)
    requires
        0 <= j < nodes.len(),
    ensures
        total(nodes.take(j + 1)) == total(nodes.take(j)) + nodes[j].width(),
{
    assert(nodes.take(j + 1).drop_last() =~= nodes.take(j));
}

/// Taking one more node overrides the entries that node owns.
pub proof fn lemma_size_at_step(nodes: Seq<Node>, j: int, k: int)
    requires
        0 <= j < nodes.len(),
    ensures
        size_at(nodes.take(j + 1), k) == if nodes[j].covers(k) {
            nodes[j].children@.len()
        } else {
            size_at(nodes.take(j), k)
        },
{
    assert(nodes.take(j + 1).drop_last() =~= nodes.take(j));
}

/// Some node owns information set `k`.
pub open spec fn owned(nodes: Seq<Node>, k: int) -> bool {
    exists|j: int| 0 <= j < nodes.len() && #[trigger] nodes[j].covers(k)
}

/// No information set is owned by two nodes.
pub open spec fn apart(nodes: Seq<Node>) -> bool {
    forall|a: int, b: int, k: int|
        0 <= a < nodes.len() && 0 <= b < nodes.len() && #[trigger] nodes[a].covers(k)
            && #[trigger] nodes[b].covers(k) ==> a == b
}

/// Every child named by a node is a position in the tree.
pub open spec fn linked(nodes: Seq<Node>) -> bool {
    forall|j: int, a: int|
        0 <= j < nodes.len() && 0 <= a < nodes[j].children@.len() ==> (
        #[trigger] nodes[j].children@[a]) < nodes.len()
}

/// A tree that a game can be played on: it has a root; every node names one
/// of the two players and every inner node one of the four rounds; children
/// are positions in the tree; and the inner nodes' information sets tile the
/// table, each index below the total owned by exactly one node.
pub open spec fn sound(nodes: Seq<Node>) -> bool {
    &&& nodes.len() > 0
    &&& forall|j: int| 0 <= j < nodes.len() ==> (#[trigger] nodes[j]).t < 2
    &&& linked(nodes)
    &&& total(nodes) <= usize::MAX
    &&& fits(nodes)
    &&& apart(nodes)
    &&& forall|k: int| 0 <= k < total(nodes) ==> #[trigger] owned(nodes, k)
}

/// Dropping the last node of a tree whose nodes own disjoint index ranges
/// leaves such a tree.
proof fn lemma_apart_shrinks(nodes: Seq<Node>)
    requires
        nodes.len() > 0,
        apart(nodes),
    ensures
        apart(nodes.drop_last()),
{
    let front = nodes.drop_last();
    assert forall|a: int, b: int, k: int|
        0 <= a < front.len() && 0 <= b < front.len() && #[trigger] front[a].covers(k)
            && #[trigger] front[b].covers(k) implies a == b by {
        assert(nodes[a].covers(k) && nodes[b].covers(k));
    }
}

/// Where no two nodes share an information set, the table holds at `k` the
/// action count of the node that owns `k`.
pub proof fn lemma_size_of_owner(nodes: Seq<Node>, j: int, k: int)
    requires
        apart(nodes),
        0 <= j < nodes.len(),
        nodes[j].covers(k),
    ensures
        size_at(nodes, k) == nodes[j].children@.len(),
    decreases nodes.len(),
{
    let last = nodes.len() - 1;
    if nodes[last].covers(k) {
        assert(j == last);
    } else {
        lemma_apart_shrinks(nodes);
        assert(nodes.drop_last()[j] == nodes[j]);
        lemma_size_of_owner(nodes.drop_last(), j, k);
    }
}

/// Consistency of the table with the tree: on a sound tree, bucket `b` of an
/// inner node lies inside the table, and the table holds there exactly the
/// node's number of actions, which is at least one.
pub proof fn lemma_index_consistent(nodes: Seq<Node>, j: int, b: int)
    requires
        sound(nodes),
        0 <= j < nodes.len(),
        !nodes[j].terminal(),
        0 <= b < buckets(nodes[j].r),
    ensures
        0 <= nodes[j].i + b < total(nodes),
        size_at(nodes, nodes[j].i + b) == nodes[j].children@.len(),
        size_at(nodes, nodes[j].i + b) >= 1,
{
    assert(nodes[j].covers(nodes[j].i + b));
    lemma_size_of_owner(nodes, j, nodes[j].i + b);
}

/// No entry of a sound tree's table is zero.
pub proof fn lemma_table_positive(nodes: Seq<Node>, k: int)
    requires
        sound(nodes),
        0 <= k < total(nodes),
    ensures
        size_at(nodes, k) >= 1,
{
    assert(owned(nodes, k));
    let j = choose|j: int| 0 <= j < nodes.len() && #[trigger] nodes[j].covers(k);
    lemma_size_of_owner(nodes, j, k);
}

/// Information sets do not collide: on a sound tree, two inner nodes whose
/// buckets `a` and `b` get the same index are one node, so one player acts
/// there and one number of actions is on offer.
pub proof fn lemma_index_unique(nodes: Seq<Node>, p: int, a: int, q: int, b: int)
    requires
        sound(nodes),
        0 <= p < nodes.len(),
        0 <= q < nodes.len(),
        !nodes[p].terminal(),
        !nodes[q].terminal(),
        0 <= a < buckets(nodes[p].r),
        0 <= b < buckets(nodes[q].r),
        nodes[p].i + a == nodes[q].i + b,
    ensures
        p == q,
        a == b,
{
    let k = nodes[p].i + a;
    assert(nodes[p].covers(k));
    assert(nodes[q].covers(k));
}

pub(crate) fn clusters(r: u8) -> (n: usize)
    requires
        r < 4,
    ensures
        n == buckets(r),
{
    CLUSTERS[r as usize]
}

/// Whether every child of `node` is a position below `len`.
fn children_below(node: &Node, len: usize) -> (ok: bool)
    ensures
        ok == forall|a: int| 0 <= a < node.children@.len() ==> node.children@[a] < len,
{
    let mut a: usize = 0;
    while a < node.children.len()
        invariant
            a <= node.children@.len(),
            forall|b: int| 0 <= b < a ==> node.children@[b] < len,
        decreases node.children@.len() - a,
    {
        if node.children[a] >= len {
            return false;
        }
        a = a + 1;
    }
    true
}

/// Decides whether a game can be played on `nodes`.
pub fn is_sound(nodes: &Vec<Node>) -> (ok: bool)
    ensures
        ok == sound(nodes@),
{
    let len = nodes.len();
    if len == 0 {
        return false;
    }
    let mut n: usize = 0;
    let mut j: usize = 0;
    while j < len
        invariant
            len == nodes@.len(),
            j <= len,
            n == total(nodes@.take(j as int)),
            forall|p: int|
                0 <= p < j ==> (#[trigger] nodes@[p]).t < 2 && (!nodes@[p].terminal()
                    ==> nodes@[p].r < 4),
            forall|p: int, a: int|
                0 <= p < j && 0 <= a < nodes@[p].children@.len() ==> (
                #[trigger] nodes@[p].children@[a]) < len,
        decreases len - j,
    {
        let node = &nodes[j];
        if node.t >= 2 {
            return false;
        }
        if node.children.len() > 0 && node.r >= 4 {
            assert(!fits(nodes@));
            return false;
        }
        if !children_below(node, len) {
            assert(!linked(nodes@)) by {
                if linked(nodes@) {
                    assert forall|a: int| 0 <= a < node.children@.len() implies node.children@[a]
                        < len by {
                        assert(nodes@[j as int].children@[a] < nodes@.len());
                    }
                }
            }
            return false;
        }
        proof {
            lemma_total_step(nodes@, j as int);
            lemma_total_prefix(nodes@, j + 1);
        }
        if node.children.len() > 0 {
            let w = clusters(node.r);
            if n > usize::MAX - w {
                return false;
            }
            n = n + w;
        }
        j = j + 1;
    }
    assert(nodes@.take(j as int) =~= nodes@);

    let mut owner: Vec<usize> = vec![len; n];
    let mut j: usize = 0;
    while j < len
        invariant
            len == nodes@.len(),
            j <= len,
            n == total(nodes@),
            owner@.len() == n,
            forall|p: int|
                0 <= p < len ==> (#[trigger] nodes@[p]).t < 2 && (!nodes@[p].terminal()
                    ==> nodes@[p].r < 4),
            forall|p: int|
                0 <= p < j && !(#[trigger] nodes@[p]).terminal() ==> nodes@[p].i + buckets(
                    nodes@[p].r,
                ) <= n,
            forall|k: int|
                0 <= k < n ==> #[trigger] owner@[k] == len || (owner@[k] < j && nodes@[owner@[k] as int].covers(
                    k,
                )),
            forall|k: int, p: int|
                0 <= k < n && 0 <= p < j && #[trigger] nodes@[p].covers(k) ==> owner@[k] == p,
        decreases len - j,
    {
        let node = &nodes[j];
        if node.children.len() > 0 {
            let w = clusters(node.r);
            if node.i > n || w > n - node.i {
                assert(!fits(nodes@));
                return false;
            }
            let mut h: usize = 0;
            while h < w
                invariant
                    len == nodes@.len(),
                    j < len,
                    *node == nodes@[j as int],
                    !node.terminal(),
                    h <= w,
                    w == buckets(node.r),
                    node.i + w <= n,
                    owner@.len() == n,
                    forall|k: int|
                        0 <= k < n ==> #[trigger] owner@[k] == len || (owner@[k] <= j
                            && nodes@[owner@[k] as int].covers(k)),
                    forall|k: int, p: int|
                        0 <= k < n && 0 <= p < j && #[trigger] nodes@[p].covers(k) ==> owner@[k]
                            == p,
                    forall|k: int| node.i <= k < node.i + h ==> #[trigger] owner@[k] == j,
                    forall|k: int|
                        0 <= k < n && #[trigger] owner@[k] == j ==> node.i <= k < node.i + h,
                decreases w - h,
            {
                let k = node.i + h;
                if owner[k] != len {
                    proof {
                        let p = owner@[k as int] as int;
                        assert(nodes@[p].covers(k as int));
                        assert(nodes@[j as int].covers(k as int));
                        assert(p != j);
                        assert(!apart(nodes@));
                    }
                    return false;
                }
                owner.set(k, j);
                h = h + 1;
            }
        }
        j = j + 1;
    }
    assert(fits(nodes@));
    assert(apart(nodes@)) by {
        assert forall|a: int, b: int, k: int|
            0 <= a < nodes@.len() && 0 <= b < nodes@.len() && #[trigger] nodes@[a].covers(k)
                && #[trigger] nodes@[b].covers(k) implies a == b by {
            assert(0 <= k < n);
        }
    }

    let mut k: usize = 0;
    while k < n
        invariant
            len == nodes@.len(),
            k <= n,
            n == total(nodes@),
            owner@.len() == n,
            forall|q: int|
                0 <= q < n ==> #[trigger] owner@[q] == len || (owner@[q] < len && nodes@[owner@[q] as int].covers(
                    q,
                )),
            forall|q: int, p: int|
                0 <= q < n && 0 <= p < len && #[trigger] nodes@[p].covers(q) ==> owner@[q] == p,
            forall|q: int| 0 <= q < k ==> #[trigger] owned(nodes@, q),
        decreases n - k,
    {
        if owner[k] == len {
            assert(!owned(nodes@, k as int));
            return false;
        }
        assert(nodes@[owner@[k as int] as int].covers(k as int));
        k = k + 1;
    }
    assert(linked(nodes@));
    true
}

} // verus!
