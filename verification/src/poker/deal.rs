use rand::rngs::SmallRng;
use rand::Rng;
use vstd::prelude::*;

verus! {

/// Number of cards in the deck.
pub const DECK: i32 = 52;

/// How many draws in a row may hit a card that is already out before the
/// dealer stops drawing and takes the lowest card left.
pub const PATIENCE: u64 = 0xffff_ffff_ffff_ffff;

/// `rand::rngs::SmallRng`, the generator that deals the cards. Nothing is
/// known of its state.
#[verifier::external_type_specification]
#[verifier::external_body]
pub struct ExSmallRng(SmallRng);

/// `rand::Rng::gen` at type `u64` on a `SmallRng`: advances the generator.
/// Nothing is claimed of the word that comes back.
#[verifier::external_body]
fn draw_word(rng: &mut SmallRng) -> (w: u64) {
    rng.gen()
}

/// `rand::Rng::gen_range` on a `SmallRng`, for the half-open range from zero
/// to `n`: advances the generator. Claimed: the value that comes back lies in
/// the range, which must not be empty, or the call panics.
#[verifier::external_body]
fn draw_below(rng: &mut SmallRng, n: i32) -> (c: i32)
    requires
        0 < n,
    ensures
        0 <= c < n,
{
    rng.gen_range(0..n)
}

/// The one-card set that holds card `c`.
pub open spec fn card(c: int) -> u64 {
    1u64 << (c as u64)
}

/// Every card of the set is one of the deck.
pub open spec fn in_deck(cards: u64) -> bool {
    cards < 0x10_0000_0000_0000
}

/// One deal: the two private hands and the board as it grows round by round,
/// each a set of cards with one bit per card.
#[derive(Clone)]
pub struct State {
    /// The cards that have left the deck.
    pub used: u64,
    /// The private hand of each player.
    pub cards: [u64; 2],
    /// The board of each round: empty, flop, flop and turn, all five.
    pub board: [u64; 4],
}

/// A card set of one card is not empty, and two one-card sets without a
/// common card hold different cards.
proof fn lemma_card_bits(a: u64, b: u64)
    by (bit_vector)
    requires
        a < 52,
        b < 52,
    ensures
        1u64 << a != 0,
        (1u64 << a) & (1u64 << b) == 0 ==> a != b,
{
}

/// Nine sets, each without a card of those taken before it, are pairwise
/// without a common card.
proof fn lemma_fresh_apart(x: Seq<u64>)
    requires
        x.len() == 9,
        x[0] & x[1] == 0,
        (x[0] | x[1]) & x[2] == 0,
        (x[0] | x[1] | x[2]) & x[3] == 0,
        (x[0] | x[1] | x[2] | x[3]) & x[4] == 0,
        (x[0] | x[1] | x[2] | x[3] | x[4]) & x[5] == 0,
        (x[0] | x[1] | x[2] | x[3] | x[4] | x[5]) & x[6] == 0,
        (x[0] | x[1] | x[2] | x[3] | x[4] | x[5] | x[6]) & x[7] == 0,
        (x[0] | x[1] | x[2] | x[3] | x[4] | x[5] | x[6] | x[7]) & x[8] == 0,
    ensures
        forall|i: int, j: int| 0 <= i < j < 9 ==> #[trigger] x[i] & #[trigger] x[j] == 0,
{
    let (a, b, c, d, e, f, g, h, i) = (x[0], x[1], x[2], x[3], x[4], x[5], x[6], x[7], x[8]);
    assert(a & b == 0 && (a | b) & c == 0 && (a | b | c) & d == 0 && (a | b | c | d) & e == 0 ==> a
        & b == 0 && a & c == 0 && a & d == 0 && a & e == 0 && b & c == 0 && b & d == 0 && b & e == 0
        && c & d == 0 && c & e == 0 && d & e == 0) by (bit_vector);
    let u = a | b | c | d | e;
    assert(u & f == 0 && (u | f) & g == 0 && (u | f | g) & h == 0 && (u | f | g | h) & i == 0
        && u == a | b | c | d | e ==> a & f == 0 && b & f == 0 && c & f == 0 && d & f == 0 && e & f
        == 0 && a & g == 0 && b & g == 0 && c & g == 0 && d & g == 0 && e & g == 0 && f & g == 0
        && a & h == 0 && b & h == 0 && c & h == 0 && d & h == 0 && e & h == 0 && f & h == 0 && g & h
        == 0 && a & i == 0 && b & i == 0 && c & i == 0 && d & i == 0 && e & i == 0 && f & i == 0
        && g & i == 0 && h & i == 0) by (bit_vector);
}

/// One-card sets that are pairwise without a common card hold different
/// cards.
proof fn lemma_cards_differ(c: Seq<int>, x: Seq<u64>)
    requires
        c.len() == 9,
        x.len() == 9,
        forall|i: int| 0 <= i < 9 ==> 0 <= #[trigger] c[i] < DECK && x[i] == card(c[i]),
        forall|i: int, j: int| 0 <= i < j < 9 ==> #[trigger] x[i] & #[trigger] x[j] == 0,
    ensures
        forall|i: int, j: int| 0 <= i < j < 9 ==> #[trigger] c[i] != #[trigger] c[j],
{
    assert forall|i: int, j: int| 0 <= i < j < 9 implies #[trigger] c[i] != #[trigger] c[j] by {
        assert(x[i] & x[j] == 0);
        lemma_card_bits(c[i] as u64, c[j] as u64);
    }
}

/// Eight cards or fewer never make up the nine lowest cards of the deck.
proof fn lemma_nine_lowest(a: u64, b: u64, c: u64, d: u64, e: u64, f: u64, g: u64, h: u64)
    by (bit_vector)
    requires
        a < 52,
        b < 52,
        c < 52,
        d < 52,
        e < 52,
        f < 52,
        g < 52,
        h < 52,
    ensures
        0u64 & 0x1ff != 0x1ff,
        (1u64 << a) & 0x1ff != 0x1ff,
        ((1u64 << a) | (1u64 << b)) & 0x1ff != 0x1ff,
        ((1u64 << a) | (1u64 << b) | (1u64 << c)) & 0x1ff != 0x1ff,
        ((1u64 << a) | (1u64 << b) | (1u64 << c) | (1u64 << d)) & 0x1ff != 0x1ff,
        ((1u64 << a) | (1u64 << b) | (1u64 << c) | (1u64 << d) | (1u64 << e)) & 0x1ff != 0x1ff,
        ((1u64 << a) | (1u64 << b) | (1u64 << c) | (1u64 << d) | (1u64 << e) | (1u64 << f))
            & 0x1ff != 0x1ff,
        ((1u64 << a) | (1u64 << b) | (1u64 << c) | (1u64 << d) | (1u64 << e) | (1u64 << f) | (1u64
            << g)) & 0x1ff != 0x1ff,
        ((1u64 << a) | (1u64 << b) | (1u64 << c) | (1u64 << d) | (1u64 << e) | (1u64 << f) | (1u64
            << g) | (1u64 << h)) & 0x1ff != 0x1ff,
{
}

/// A set that does not hold all of the nine lowest cards lacks one of them.
proof fn lemma_low_card(u: u64)
    by (bit_vector)
    requires
        u & 0x1ff != 0x1ff,
    ensures
        u & (1u64 << 0u64) == 0 || u & (1u64 << 1u64) == 0 || u & (1u64 << 2u64) == 0 || u & (1u64
            << 3u64) == 0 || u & (1u64 << 4u64) == 0 || u & (1u64 << 5u64) == 0 || u & (1u64
            << 6u64) == 0 || u & (1u64 << 7u64) == 0 || u & (1u64 << 8u64) == 0,
{
}

/// While no more than the eight cards `a` to `h`, or the first few of them,
/// are out, a card is still in the deck.
proof fn lemma_card_left(
    state: State,
    a: u64,
    b: u64,
    c: u64,
    d: u64,
    e: u64,
    f: u64,
    g: u64,
    h: u64,
)
    requires
        a < 52,
        b < 52,
        c < 52,
        d < 52,
        e < 52,
        f < 52,
        g < 52,
        h < 52,
        state.used == 0 || state.used == (1u64 << a) || state.used == (1u64 << a) | (1u64 << b)
            || state.used == (1u64 << a) | (1u64 << b) | (1u64 << c) || state.used == (1u64 << a)
            | (1u64 << b) | (1u64 << c) | (1u64 << d) || state.used == (1u64 << a) | (1u64 << b) | (
        1u64 << c) | (1u64 << d) | (1u64 << e) || state.used == (1u64 << a) | (1u64 << b) | (1u64
            << c) | (1u64 << d) | (1u64 << e) | (1u64 << f) || state.used == (1u64 << a) | (1u64
            << b) | (1u64 << c) | (1u64 << d) | (1u64 << e) | (1u64 << f) | (1u64 << g)
            || state.used == (1u64 << a) | (1u64 << b) | (1u64 << c) | (1u64 << d) | (1u64 << e) | (
        1u64 << f) | (1u64 << g) | (1u64 << h),
    ensures
        state.has_card(),
{
    let u = state.used;
    lemma_nine_lowest(a, b, c, d, e, f, g, h);
    assert(u & 0x1ff != 0x1ff);
    lemma_low_card(u);
    assert(u & card(0) == 0 || u & card(1) == 0 || u & card(2) == 0 || u & card(3) == 0 || u
        & card(4) == 0 || u & card(5) == 0 || u & card(6) == 0 || u & card(7) == 0 || u & card(8)
        == 0);
}

/// `state` is what dealing the cards `c` gives: the first two to the first
/// player, the next two to the second, three to the flop, one to the turn
/// and one to the river, nine different cards of the deck in all.
pub open spec fn dealt(state: State, c: Seq<int>) -> bool {
    &&& c.len() == 9
    &&& forall|i: int| 0 <= i < 9 ==> 0 <= #[trigger] c[i] < DECK
    &&& forall|i: int, j: int| 0 <= i < j < 9 ==> #[trigger] c[i] != #[trigger] c[j]
    &&& state.cards[0] == card(c[0]) | card(c[1])
    &&& state.cards[1] == card(c[2]) | card(c[3])
    &&& state.board[0] == 0
    &&& state.board[1] == card(c[4]) | card(c[5]) | card(c[6])
    &&& state.board[2] == card(c[7]) | state.board[1]
    &&& state.board[3] == card(c[8]) | state.board[2]
    &&& state.used == card(c[0]) | card(c[1]) | card(c[2]) | card(c[3]) | card(c[4]) | card(c[5])
        | card(c[6]) | card(c[7]) | card(c[8])
}

/// A card of the deck, as a one-card set, is in the deck, and so is the union
/// of two sets that are.
proof fn lemma_in_deck(c: u64, a: u64, b: u64)
    by (bit_vector)
    ensures
        c < 52 ==> (1u64 << c) < 0x10_0000_0000_0000,
        a < 0x10_0000_0000_0000 && b < 0x10_0000_0000_0000 ==> (a | b) < 0x10_0000_0000_0000,
{
}

/// The hands and boards of a deal of nine cards hold cards of the deck only.
pub proof fn lemma_complete_in_deck(state: State)
    requires
        state.complete(),
    ensures
        in_deck(state.cards[0]),
        in_deck(state.cards[1]),
        forall|r: int| 0 <= r < 4 ==> in_deck(#[trigger] state.board[r]),
        in_deck(state.used),
{
    let c = choose|c: Seq<int>| #[trigger] dealt(state, c);
    let x = Seq::new(9, |i: int| card(c[i]));
    assert forall|i: int| 0 <= i < 9 implies in_deck(#[trigger] x[i]) by {
        assert(0 <= c[i] < DECK);
        lemma_in_deck(c[i] as u64, 0, 0);
    }
    assert(in_deck(x[0]) && in_deck(x[1]) && in_deck(x[2]) && in_deck(x[3]) && in_deck(x[4])
        && in_deck(x[5]) && in_deck(x[6]) && in_deck(x[7]) && in_deck(x[8]));
    lemma_in_deck(0, x[0], x[1]);
    lemma_in_deck(0, x[2], x[3]);
    lemma_in_deck(0, x[4], x[5]);
    lemma_in_deck(0, x[4] | x[5], x[6]);
    lemma_in_deck(0, x[7], state.board[1]);
    lemma_in_deck(0, x[8], state.board[2]);
    lemma_in_deck(0, x[0] | x[1], x[2]);
    lemma_in_deck(0, x[0] | x[1] | x[2], x[3]);
    lemma_in_deck(0, x[0] | x[1] | x[2] | x[3], x[4]);
    lemma_in_deck(0, x[0] | x[1] | x[2] | x[3] | x[4], x[5]);
    lemma_in_deck(0, x[0] | x[1] | x[2] | x[3] | x[4] | x[5], x[6]);
    lemma_in_deck(0, x[0] | x[1] | x[2] | x[3] | x[4] | x[5] | x[6], x[7]);
    lemma_in_deck(0, x[0] | x[1] | x[2] | x[3] | x[4] | x[5] | x[6] | x[7], x[8]);
    assert forall|r: int| 0 <= r < 4 implies in_deck(#[trigger] state.board[r]) by {
        if r == 0 {
        } else if r == 1 {
        } else if r == 2 {
        } else {
        }
    }
}

impl State {
    /// The deal is that of some nine different cards.
    pub open spec fn complete(&self) -> bool {
        exists|c: Seq<int>| #[trigger] dealt(*self, c)
    }

    /// A deal of given hands and boards, with the whole deck still to draw
    /// from.
    pub fn from(cards: [u64; 2], board: [u64; 4]) -> (state: Self)
        ensures
            state.used == 0,
            state.cards == cards,
            state.board == board,
    {
        State { used: 0, cards, board }
    }

    /// Takes card `c` out of the deck if it is still there, and returns it as
    /// a one-card set; leaves the deal as it is if the card is out already.
    pub fn take(&mut self, c: i32) -> (x: Option<u64>)
        requires
            0 <= c < DECK,
        ensures
            final(self).cards == old(self).cards,
            final(self).board == old(self).board,
            old(self).used & card(c as int) != 0 ==> x.is_none() && final(self).used == old(self).used,
            old(self).used & card(c as int) == 0 ==> x == Some(card(c as int)) && final(self).used
                == old(self).used | card(c as int),
    {
        let x: u64 = 1u64 << (c as u64);
        if self.used & x != 0 {
            return None;
        }
        self.used = self.used | x;
        Some(x)
    }

    /// Some card is still in the deck.
    pub open spec fn has_card(&self) -> bool {
        exists|c: int| 0 <= c < DECK && self.used & #[trigger] card(c) == 0
    }

    /// Draws cards at random until one comes that is still in the deck, and
    /// takes it. After `PATIENCE` draws in a row of cards that are out, takes
    /// the lowest card still in the deck instead. `None`, with the deal
    /// unchanged, only when the whole deck is out.
    fn gen(&mut self, rng: &mut SmallRng) -> (x: Option<u64>)
        ensures
            final(self).cards == old(self).cards,
            final(self).board == old(self).board,
            x.is_some() <==> old(self).has_card(),
            match x {
                Some(v) => exists|c: int|
                    0 <= c < DECK && v == #[trigger] card(c) && old(self).used & v == 0 && final(self).used == old(self).used | v,
                None => final(self).used == old(self).used,
            },
    {
        let mut tries: u64 = 0;
        while tries < PATIENCE
            invariant
                *self == *old(self),
            decreases PATIENCE - tries,
        {
            let c: i32 = draw_below(rng, DECK);
            if let Some(v) = self.take(c) {
                assert(v == card(c as int));
                return Some(v);
            }
            tries = tries + 1;
        }
        let mut c: i32 = 0;
        while c < DECK
            invariant
                0 <= c <= DECK,
                *self == *old(self),
                forall|b: int| 0 <= b < c ==> old(self).used & #[trigger] card(b) != 0,
            decreases DECK - c,
        {
            if let Some(v) = self.take(c) {
                assert(v == card(c as int));
                return Some(v);
            }
            c = c + 1;
        }
        None
    }

    /// Deals a fresh hand to each player and a full board, nine different
    /// cards drawn at random.
    pub fn new(rng: &mut SmallRng) -> (state: Self)
        ensures
            state.complete(),
    {
        let w0 = draw_word(rng);
        let w1 = draw_word(rng);
        let mut state = State { used: 0, cards: [w0, w1], board: [0;4] };
        let ghost z = 0u64;
        proof {
            lemma_card_left(state, z, z, z, z, z, z, z, z);
        }
        let x0 = state.gen(rng).unwrap();
        let ghost c0 = choose|c: int| 0 <= c < DECK && x0 == card(c);
        let ghost s0 = c0 as u64;
        assert(0u64 | x0 == x0) by (bit_vector);
        proof {
            lemma_card_left(state, s0, z, z, z, z, z, z, z);
        }
        let x1 = state.gen(rng).unwrap();
        let ghost c1 = choose|c: int| 0 <= c < DECK && x1 == card(c);
        let ghost s1 = c1 as u64;
        state.cards[0] = x0 | x1;
        proof {
            lemma_card_left(state, s0, s1, z, z, z, z, z, z);
        }
        let x2 = state.gen(rng).unwrap();
        let ghost c2 = choose|c: int| 0 <= c < DECK && x2 == card(c);
        let ghost s2 = c2 as u64;
        proof {
            lemma_card_left(state, s0, s1, s2, z, z, z, z, z);
        }
        let x3 = state.gen(rng).unwrap();
        let ghost c3 = choose|c: int| 0 <= c < DECK && x3 == card(c);
        let ghost s3 = c3 as u64;
        state.cards[1] = x2 | x3;
        proof {
            lemma_card_left(state, s0, s1, s2, s3, z, z, z, z);
        }
        let x4 = state.gen(rng).unwrap();
        let ghost c4 = choose|c: int| 0 <= c < DECK && x4 == card(c);
        let ghost s4 = c4 as u64;
        proof {
            lemma_card_left(state, s0, s1, s2, s3, s4, z, z, z);
        }
        let x5 = state.gen(rng).unwrap();
        let ghost c5 = choose|c: int| 0 <= c < DECK && x5 == card(c);
        let ghost s5 = c5 as u64;
        proof {
            lemma_card_left(state, s0, s1, s2, s3, s4, s5, z, z);
        }
        let x6 = state.gen(rng).unwrap();
        let ghost c6 = choose|c: int| 0 <= c < DECK && x6 == card(c);
        let ghost s6 = c6 as u64;
        state.board[1] = x4 | x5 | x6;
        proof {
            lemma_card_left(state, s0, s1, s2, s3, s4, s5, s6, z);
        }
        let x7 = state.gen(rng).unwrap();
        let ghost c7 = choose|c: int| 0 <= c < DECK && x7 == card(c);
        let ghost s7 = c7 as u64;
        state.board[2] = x7 | state.board[1];
        proof {
            lemma_card_left(state, s0, s1, s2, s3, s4, s5, s6, s7);
        }
        let x8 = state.gen(rng).unwrap();
        let ghost c8 = choose|c: int| 0 <= c < DECK && x8 == card(c);
        state.board[3] = x8 | state.board[2];
        proof {
            let x = seq![x0, x1, x2, x3, x4, x5, x6, x7, x8];
            let c = seq![c0, c1, c2, c3, c4, c5, c6, c7, c8];
            lemma_fresh_apart(x);
            lemma_cards_differ(c, x);
            assert(dealt(state, c));
        }
        state
    }
}

} // verus!
