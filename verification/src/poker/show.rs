use crate::poker::deal::{card, in_deck, State};
use crate::poker::tree::Node;
use vstd::prelude::*;
use vstd::string::StringExecFns;

verus! {

/// The name of rank `r`, deuce to ace.
pub open spec fn rank_name(r: int) -> Seq<char> {
    if r == 0 {
        "2"@
    } else if r == 1 {
        "3"@
    } else if r == 2 {
        "4"@
    } else if r == 3 {
        "5"@
    } else if r == 4 {
        "6"@
    } else if r == 5 {
        "7"@
    } else if r == 6 {
        "8"@
    } else if r == 7 {
        "9"@
    } else if r == 8 {
        "T"@
    } else if r == 9 {
        "J"@
    } else if r == 10 {
        "Q"@
    } else if r == 11 {
        "K"@
    } else {
        "A"@
    }
}

/// The sign of suit `s`.
pub open spec fn suit_name(s: int) -> Seq<char> {
    if s == 0 {
        "♠"@
    } else if s == 1 {
        "♦"@
    } else if s == 2 {
        "♣"@
    } else {
        "♥"@
    }
}

/// Card `c` in print: rank, suit and a blank.
pub open spec fn face(c: int) -> Seq<char> {
    rank_name(c % 13) + suit_name(c / 13) + " "@
}

/// The cards of `cards` below card `n` in print, the highest first.
pub open spec fn faces(cards: u64, n: int) -> Seq<char>
    decreases n,
{
    if n <= 0 {
        Seq::empty()
    } else {
        (if cards & card(n - 1) != 0 {
            face(n - 1)
        } else {
            Seq::empty()
        }) + faces(cards, n - 1)
    }
}

/// The digit `d` in print.
pub open spec fn digit_name(d: int) -> Seq<char> {
    if d == 0 {
        "0"@
    } else if d == 1 {
        "1"@
    } else if d == 2 {
        "2"@
    } else if d == 3 {
        "3"@
    } else if d == 4 {
        "4"@
    } else if d == 5 {
        "5"@
    } else if d == 6 {
        "6"@
    } else if d == 7 {
        "7"@
    } else if d == 8 {
        "8"@
    } else {
        "9"@
    }
}

/// The number `n` in decimal, without leading zeros.
pub open spec fn decimal(n: nat) -> Seq<char>
    decreases n,
{
    if n < 10 {
        digit_name(n as int)
    } else {
        decimal(n / 10) + digit_name((n % 10) as int)
    }
}

/// A node and a deal in print: the first player's hand, the second's, the
/// board of the node's round, each closed by a bar, then the betting history
/// and, in brackets, the player to act.
pub open spec fn rendering(node: Node, state: State) -> Seq<char> {
    faces(state.cards[0], 52) + "| "@ + faces(state.cards[1], 52) + "| "@ + faces(
        state.board[node.r as int],
        52,
    ) + "| "@ + node.h@ + " ("@ + decimal(node.t as nat) + ")"@
}

fn rank_str(r: u32) -> (s: &'static str)
    requires
        r < 13,
    ensures
        s@ == rank_name(r as int),
{
    if r == 0 {
        "2"
    } else if r == 1 {
        "3"
    } else if r == 2 {
        "4"
    } else if r == 3 {
        "5"
    } else if r == 4 {
        "6"
    } else if r == 5 {
        "7"
    } else if r == 6 {
        "8"
    } else if r == 7 {
        "9"
    } else if r == 8 {
        "T"
    } else if r == 9 {
        "J"
    } else if r == 10 {
        "Q"
    } else if r == 11 {
        "K"
    } else {
        "A"
    }
}

fn suit_str(s: u32) -> (name: &'static str)
    requires
        s < 4,
    ensures
        name@ == suit_name(s as int),
{
    if s == 0 {
        "♠"
    } else if s == 1 {
        "♦"
    } else if s == 2 {
        "♣"
    } else {
        "♥"
    }
}

fn digit_str(d: u8) -> (s: &'static str)
    requires
        d < 10,
    ensures
        s@ == digit_name(d as int),
{
    if d == 0 {
        "0"
    } else if d == 1 {
        "1"
    } else if d == 2 {
        "2"
    } else if d == 3 {
        "3"
    } else if d == 4 {
        "4"
    } else if d == 5 {
        "5"
    } else if d == 6 {
        "6"
    } else if d == 7 {
        "7"
    } else if d == 8 {
        "8"
    } else {
        "9"
    }
}

/// Appends the cards of `cards` to `res`, the highest first.
fn push_faces(res: &mut String, cards: u64)
    ensures
        final(res)@ == old(res)@ + faces(cards, 52),
{
    let mut n: u32 = 52;
    while n > 0
        invariant
            n <= 52,
            res@ + faces(cards, n as int) == old(res)@ + faces(cards, 52),
        decreases n,
    {
        let c: u32 = n - 1;
        let ghost before = res@;
        if cards & (1u64 << (c as u64)) != 0 {
            res.append(rank_str(c % 13));
            res.append(suit_str(c / 13));
            res.append(" ");
            assert(res@ == before + face(c as int));
        }
        assert(res@ + faces(cards, c as int) == before + faces(cards, n as int));
        n = c;
    }
}

/// Appends `n` in decimal to `res`.
fn push_decimal(res: &mut String, n: u8)
    ensures
        final(res)@ == old(res)@ + decimal(n as nat),
{
    let ghost m = n as nat;
    if n >= 100 {
        res.append(digit_str(n / 100));
    }
    if n >= 10 {
        res.append(digit_str((n / 10) % 10));
    }
    res.append(digit_str(n % 10));
    proof {
        let ones = digit_name((m % 10) as int);
        let tens = digit_name(((m / 10) % 10) as int);
        if m >= 100 {
            assert(m / 10 / 10 == m / 100);
            assert(decimal(m / 100) == digit_name((m / 100) as int));
            assert(decimal(m / 10) == decimal(m / 100) + tens);
            assert(decimal(m) == decimal(m / 10) + ones);
            assert(res@ =~= old(res)@ + (digit_name((m / 100) as int) + tens + ones));
        } else if m >= 10 {
            assert((m / 10) % 10 == m / 10);
            assert(decimal(m / 10) == tens);
            assert(decimal(m) == decimal(m / 10) + ones);
            assert(res@ =~= old(res)@ + (tens + ones));
        }
    }
}

/// Prints a node and a deal.
pub fn render(node: &Node, state: &State) -> (res: String)
    requires
        node.r < 4,
        in_deck(state.cards[0]),
        in_deck(state.cards[1]),
        in_deck(state.board[node.r as int]),
    ensures
        res@ == rendering(*node, *state),
{
    let mut res = String::new();
    push_faces(&mut res, state.cards[0]);
    res.append("| ");
    push_faces(&mut res, state.cards[1]);
    res.append("| ");
    push_faces(&mut res, state.board[node.r as usize]);
    res.append("| ");
    res.append(node.h.as_str());
    res.append(" (");
    push_decimal(&mut res, node.t);
    res.append(")");
    res
}

} // verus!
