use crate::poker::deal::in_deck;
pub use crate::poker::deal::State;
use crate::poker::show::{render, rendering};
use crate::poker::tree::{
    buckets, clusters, fits, is_sound, lemma_index_consistent, lemma_size_at_step,
    lemma_total_prefix, lemma_total_step, size_at, sound, total,
};
pub use crate::poker::tree::Node;
use rand::rngs::SmallRng;
use vstd::prelude::*;

verus! {

/// What the leaf `node` pays to the player named there, whose hand has the
/// strength `me_score` against the opponent's `op_score`, smaller being
/// stronger. After a fold the named player collects what the opponent has
/// committed; at a showdown the stronger hand collects what the other has
/// committed, and equal hands pay nothing.
pub open spec fn payoff(node: Node, me_score: u64, op_score: u64) -> int {
    if node.a == 'f' || me_score < op_score {
        node.s[1 - node.t] as int
    } else if me_score > op_score {
        -(node.s[node.t as int] as int)
    } else {
        0
    }
}

/// The utility of the leaf `node` to player 0: what the leaf pays to the
/// player named there, with the sign turned where that player is player 1.
pub open spec fn utility(node: Node, me_score: u64, op_score: u64) -> int {
    if node.t == 0 {
        payoff(node, me_score, op_score)
    } else {
        -payoff(node, me_score, op_score)
    }
}

/// Every entry of a bucket table names one of the buckets of a round after
/// the flop.
pub open spec fn ranked(table: Seq<u16>) -> bool {
    forall|h: int| 0 <= h < table.len() ==> #[trigger] table[h] < buckets(1)
}

/// Decides whether a bucket table names buckets only.
fn is_ranked(table: &Vec<u16>) -> (ok: bool)
    ensures
        ok == ranked(table@),
{
    let limit = clusters(1);
    let mut h: usize = 0;
    while h < table.len()
        invariant
            h <= table@.len(),
            limit == buckets(1),
            forall|g: int| 0 <= g < h ==> #[trigger] table@[g] < buckets(1),
        decreases table@.len() - h,
    {
        if table[h] as usize >= limit {
            return false;
        }
        h = h + 1;
    }
    true
}

/// The poker game: the betting tree and, for each round after the flop, the
/// table that maps a canonical hand index to its bucket.
pub struct Poker {
    cluster_1: Vec<u16>,
    cluster_2: Vec<u16>,
    cluster_3: Vec<u16>,
    nodes: Vec<Node>,
}

impl Poker {
    /// The betting tree, root first.
    pub closed spec fn tree(&self) -> Seq<Node> {
        self.nodes@
    }

    /// The bucket table of round `r`; the pre-flop round has none.
    pub closed spec fn table(&self, r: u8) -> Seq<u16> {
        if r == 1 {
            self.cluster_1@
        } else if r == 2 {
            self.cluster_2@
        } else if r == 3 {
            self.cluster_3@
        } else {
            Seq::empty()
        }
    }

    /// The bucket of canonical hand index `hand` in round `r`: the index
    /// itself before the flop, the table's entry afterwards.
    pub open spec fn bucket(&self, r: u8, hand: int) -> int {
        if r == 0 {
            hand
        } else {
            self.table(r)[hand] as int
        }
    }

    /// Round `r` has a bucket for `hand`.
    pub open spec fn has_bucket(&self, r: u8, hand: int) -> bool {
        r < 4 && 0 <= hand && (r != 0 ==> hand < self.table(r).len())
    }

    /// The game can be played: the tree is sound and the bucket tables name
    /// buckets only.
    pub open spec fn playable(&self) -> bool {
        &&& sound(self.tree())
        &&& ranked(self.table(1))
        &&& ranked(self.table(2))
        &&& ranked(self.table(3))
    }

    /// Decides whether the game can be played.
    pub fn validate(&self) -> (ok: bool)
        ensures
            ok == self.playable(),
    {
        is_sound(&self.nodes) && is_ranked(&self.cluster_1) && is_ranked(&self.cluster_2)
            && is_ranked(&self.cluster_3)
    }

    /// A fresh deal of nine different cards.
    pub fn init(&self, rng: &mut SmallRng) -> (state: State)
        ensures
            state.complete(),
    {
        State::new(rng)
    }

    /// What the player to act at `node` sees of the deal `state`: the own
    /// hand and the board of the node's round. The canonical index of this
    /// pair is the hand that `index` asks for.
    pub fn holding(&self, node: &Node, state: &State) -> (seen: (u64, u64))
        requires
            node.t < 2,
            node.r < 4,
        ensures
            seen == (state.cards[node.t as int], state.board[node.r as int]),
    {
        (state.cards[node.t as usize], state.board[node.r as usize])
    }

    /// The seven cards that each player shows at the leaf `node`: those of
    /// the player named there first, the opponent's second. Their strengths
    /// are what `eval` asks for.
    pub fn showdown(&self, node: &Node, state: &State) -> (hands: (u64, u64))
        requires
            node.t < 2,
        ensures
            hands == (
                state.cards[node.t as int] | state.board[3],
                state.cards[1 - node.t] | state.board[3],
            ),
    {
        let t: u8 = node.t;
        let me: usize = t as usize;
        let op: usize = (t ^ 1) as usize;
        assert(t ^ 1 == 1 - t) by (bit_vector)
            requires
                t < 2,
        ;
        (state.cards[me] | state.board[3], state.cards[op] | state.board[3])
    }

    /// The node and the deal in print, for diagnostics.
    pub fn display(&self, node: &Node, state: &State) -> (res: String)
        requires
            node.r < 4,
            in_deck(state.cards[0]),
            in_deck(state.cards[1]),
            in_deck(state.board[node.r as int]),
        ensures
            res@ == rendering(*node, *state),
    {
        render(node, state)
    }

    /// A game over the given tree and bucket tables.
    pub fn new(nodes: Vec<Node>, cluster_1: Vec<u16>, cluster_2: Vec<u16>, cluster_3: Vec<u16>) -> (game:
        Self)
        ensures
            game.tree() == nodes@,
            game.table(1) == cluster_1@,
            game.table(2) == cluster_2@,
            game.table(3) == cluster_3@,
    {
        Poker { cluster_1, cluster_2, cluster_3, nodes }
    }

    /// Whether `node` is a leaf.
    pub fn done(&self, node: &Node) -> (b: bool)
        ensures
            b == node.terminal(),
    {
        node.children.len() == 0
    }

    /// The player to act at `node`.
    pub fn turn(&self, node: &Node) -> (p: usize)
        ensures
            p == node.t,
    {
        node.t as usize
    }

    /// The number of actions at `node`.
    pub fn next(&self, node: &Node) -> (n: usize)
        ensures
            n == node.children@.len(),
    {
        node.children.len()
    }

    /// The root of the tree.
    pub fn root(&self) -> (node: &Node)
        requires
            self.tree().len() > 0,
        ensures
            *node == self.tree()[0],
    {
        &self.nodes[0]
    }

    /// The child of `node` reached by `action`.
    pub fn play(&self, node: &Node, action: usize) -> (child: &Node)
        requires
            action < node.children@.len(),
            node.children@[action as int] < self.tree().len(),
        ensures
            *child == self.tree()[node.children@[action as int] as int],
    {
        &self.nodes[node.children[action]]
    }

    /// The information set of the player to act at `node`, who holds the
    /// hand with canonical index `hand` in the node's round.
    pub fn index(&self, node: &Node, hand: usize) -> (k: usize)
        requires
            self.has_bucket(node.r, hand as int),
            node.i + self.bucket(node.r, hand as int) <= usize::MAX,
        ensures
            k == node.i + self.bucket(node.r, hand as int),
    {
        let b: usize = if node.r == 0 {
            hand
        } else if node.r == 1 {
            self.cluster_1[hand] as usize
        } else if node.r == 2 {
            self.cluster_2[hand] as usize
        } else {
            self.cluster_3[hand] as usize
        };
        node.i + b
    }

    /// Whether `index` accepts `hand` at `node`.
    pub fn can_index(&self, node: &Node, hand: usize) -> (b: bool)
        ensures
            b == (self.has_bucket(node.r, hand as int) && node.i + self.bucket(
                node.r,
                hand as int,
            ) <= usize::MAX),
    {
        if node.r == 0 {
            hand <= usize::MAX - node.i
        } else if node.r == 1 {
            hand < self.cluster_1.len() && self.cluster_1[hand] as usize <= usize::MAX - node.i
        } else if node.r == 2 {
            hand < self.cluster_2.len() && self.cluster_2[hand] as usize <= usize::MAX - node.i
        } else if node.r == 3 {
            hand < self.cluster_3.len() && self.cluster_3[hand] as usize <= usize::MAX - node.i
        } else {
            false
        }
    }

    /// The utility to player 0 at the leaf `node`, given the strength of the
    /// hand of the player named there and of the opponent's, smaller being
    /// stronger, in the order in which `showdown` gives the hands. After a
    /// fold the strengths do not matter.
    pub fn eval(&self, node: &Node, me_score: u64, op_score: u64) -> (u: i64)
        requires
            node.t < 2,
        ensures
            u == utility(*node, me_score, op_score),
    {
        let t: u8 = node.t;
        let me: usize = t as usize;
        let op: usize = (t ^ 1) as usize;
        assert(t ^ 1 == 1 - t) by (bit_vector)
            requires
                t < 2,
        ;
        let pay: i64 = if node.a == 'f' {
            node.s[op] as i64
        } else if me_score < op_score {
            node.s[op] as i64
        } else if me_score > op_score {
            -(node.s[me] as i64)
        } else {
            0
        };
        if t == 0 {
            pay
        } else {
            -pay
        }
    }

    /// The table of action counts, one entry per information set.
    pub fn size(&self) -> (answer: Vec<usize>)
        requires
            total(self.tree()) <= usize::MAX,
            fits(self.tree()),
        ensures
            answer@.len() == total(self.tree()),
            forall|k: int| 0 <= k < answer@.len() ==> answer@[k] == size_at(self.tree(), k),
    {
        let mut n: usize = 0;
        let mut j: usize = 0;
        while j < self.nodes.len()
            invariant
                j <= self.tree().len(),
                n == total(self.tree().take(j as int)),
                total(self.tree()) <= usize::MAX,
                fits(self.tree()),
            decreases self.tree().len() - j,
        {
            proof {
                lemma_total_step(self.tree(), j as int);
                lemma_total_prefix(self.tree(), j + 1);
            }
            if self.nodes[j].children.len() > 0 {
                n = n + clusters(self.nodes[j].r);
            }
            j = j + 1;
        }
        assert(self.tree().take(j as int) =~= self.tree());

        let mut answer: Vec<usize> = vec![0; n];
        let mut j: usize = 0;
        while j < self.nodes.len()
            invariant
                j <= self.tree().len(),
                n == total(self.tree()),
                answer@.len() == n,
                fits(self.tree()),
                forall|k: int|
                    0 <= k < n ==> answer@[k] == size_at(self.tree().take(j as int), k),
            decreases self.tree().len() - j,
        {
            let node = &self.nodes[j];
            let count = node.children.len();
            if count > 0 {
                let w = clusters(node.r);
                let mut i: usize = 0;
                while i < w
                    invariant
                        i <= w,
                        w == buckets(node.r),
                        node.i + w <= n,
                        answer@.len() == n,
                        forall|k: int|
                            0 <= k < n ==> answer@[k] == if node.i <= k < node.i + i {
                                count as nat
                            } else {
                                size_at(self.tree().take(j as int), k)
                            },
                    decreases w - i,
                {
                    answer.set(node.i + i, count);
                    i = i + 1;
                }
            }
            proof {
                assert forall|k: int| 0 <= k < n implies answer@[k] == size_at(
                    self.tree().take(j + 1),
                    k,
                ) by {
                    lemma_size_at_step(self.tree(), j as int, k);
                }
            }
            j = j + 1;
        }
        assert(self.tree().take(j as int) =~= self.tree());
        answer
    }
}

/// On a game that can be played, `index` accepts every hand that has a
/// bucket at an inner node of the tree (before the flop: every hand below the
/// number of pre-flop buckets); the index it gives lies inside the table of
/// `size`, and the table holds there the node's number of actions.
pub proof fn lemma_index_sized(game: &Poker, j: int, hand: int)
    requires
        game.playable(),
        0 <= j < game.tree().len(),
        !game.tree()[j].terminal(),
        game.has_bucket(game.tree()[j].r, hand),
        game.tree()[j].r == 0 ==> hand < buckets(0),
    ensures
        0 <= game.tree()[j].i + game.bucket(game.tree()[j].r, hand) < total(game.tree()),
        total(game.tree()) <= usize::MAX,
        size_at(game.tree(), game.tree()[j].i + game.bucket(game.tree()[j].r, hand))
            == game.tree()[j].children@.len(),
{
    let node = game.tree()[j];
    let b = game.bucket(node.r, hand);
    if node.r != 0 {
        assert(game.table(node.r)[hand] < buckets(1));
    }
    lemma_index_consistent(game.tree(), j, b);
}

/// On a game that can be played, every node reached from the root by `play`
/// is a node of the tree.
pub proof fn lemma_play_stays(game: &Poker, j: int, action: int)
    requires
        game.playable(),
        0 <= j < game.tree().len(),
        0 <= action < game.tree()[j].children@.len(),
    ensures
        0 <= game.tree()[j].children@[action] < game.tree().len(),
{
}

/// After a fold, player 0 wins what player 1 has committed where the leaf
/// names player 0, and loses the own commitment where it names player 1.
pub proof fn lemma_fold_utility(node: Node, me_score: u64, op_score: u64)
    requires
        node.t < 2,
        node.a == 'f',
    ensures
        utility(node, me_score, op_score) == if node.t == 0 {
            node.s[1] as int
        } else {
            -(node.s[0] as int)
        },
{
}

/// At a showdown for equal stakes the utility does not depend on the player
/// that the leaf names: with `first` the strength of player 0's hand and
/// `second` that of player 1's, handed over with the named player's first,
/// player 0 wins the stake with the stronger hand, loses it with the weaker,
/// and equal hands pay nothing. Exchanging the two hands turns the sign.
pub proof fn lemma_showdown_utility(node: Node, first: u64, second: u64)
    requires
        node.t < 2,
        node.a != 'f',
        node.s[0] == node.s[1],
    ensures
        (if node.t == 0 {
            utility(node, first, second)
        } else {
            utility(node, second, first)
        }) == if first < second {
            node.s[0] as int
        } else if first > second {
            -(node.s[0] as int)
        } else {
            0
        },
        (if node.t == 0 {
            utility(node, second, first)
        } else {
            utility(node, first, second)
        }) == -(if node.t == 0 {
            utility(node, first, second)
        } else {
            utility(node, second, first)
        }),
{
}

} // verus!
