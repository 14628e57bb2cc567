use poker_solver::poker::game::{Node, Poker, State};
use poker_solver::poker::show::render;

fn node(t: u8, r: u8, h: &str) -> Node {
    Node { i: 0, t, r, a: 'c', h: h.to_string(), s: [0, 0], children: vec![] }
}

fn game() -> Poker {
    Poker::new(vec![node(0, 0, "")], vec![], vec![], vec![])
}

#[test]
fn display_of_an_empty_deal() {
    let state = State::from([0, 0], [0; 4]);
    assert_eq!(game().display(&node(0, 0, ""), &state), "| | |  (0)");
}

#[test]
fn display_lists_high_cards_first() {
    let state = State::from([1 << 47 | 1 << 21, 1 << 12 | 1 << 1], [0; 4]);
    assert_eq!(game().display(&node(1, 0, "rc"), &state), "T♥ T♦ | A♠ 3♠ | | rc (1)");
}

#[test]
fn display_names_every_rank_and_suit() {
    let spades = (1u64 << 13) - 1;
    let state = State::from([spades, 1 << 13 | 1 << 26 | 1 << 39], [0, 0, 1 << 51, 0]);
    assert_eq!(
        game().display(&node(0, 2, "x"), &state),
        "A♠ K♠ Q♠ J♠ T♠ 9♠ 8♠ 7♠ 6♠ 5♠ 4♠ 3♠ 2♠ | 2♥ 2♣ 2♦ | A♥ | x (0)"
    );
}

#[test]
fn display_shows_the_board_of_the_round() {
    let state = State::from([1, 2], [0, 1 << 6 | 1 << 3 | 1 << 34, 1 << 8, 1 << 39]);
    let game = game();
    assert_eq!(game.display(&node(0, 0, "a"), &state), "2♠ | 3♠ | | a (0)");
    assert_eq!(game.display(&node(0, 1, "a"), &state), "2♠ | 3♠ | T♣ 8♠ 5♠ | a (0)");
    assert_eq!(game.display(&node(0, 2, "a"), &state), "2♠ | 3♠ | T♠ | a (0)");
    assert_eq!(game.display(&node(1, 3, "a"), &state), "2♠ | 3♠ | 2♥ | a (1)");
}

#[test]
fn render_prints_the_player_in_decimal() {
    let state = State::from([0, 0], [0; 4]);
    assert_eq!(render(&node(7, 0, "h"), &state), "| | | h (7)");
    assert_eq!(render(&node(10, 0, "h"), &state), "| | | h (10)");
    assert_eq!(render(&node(42, 0, "h"), &state), "| | | h (42)");
    assert_eq!(render(&node(100, 0, "h"), &state), "| | | h (100)");
    assert_eq!(render(&node(209, 0, "h"), &state), "| | | h (209)");
    assert_eq!(render(&node(255, 0, "h"), &state), "| | | h (255)");
}
