use poker_solver::poker::game::{Node, Poker};
use poker_solver::poker::tree::is_sound;

fn node(i: usize, t: u8, r: u8, a: char, h: &str, s: [i32; 2], children: Vec<usize>) -> Node {
    Node { i, t, r, a, h: h.to_string(), s, children }
}

/// Root before the flop with two actions: a fold, and a call that leads to a
/// flop node with three actions, all of them leaves.
fn small_tree() -> Vec<Node> {
    vec![
        node(0, 0, 0, 'r', "", [1, 2], vec![1, 2]),
        node(0, 1, 0, 'f', "f", [1, 2], vec![]),
        node(169, 1, 1, 'c', "c", [2, 2], vec![3, 4, 5]),
        node(0, 0, 1, 'f', "cf", [2, 2], vec![]),
        node(0, 0, 1, 'c', "cc", [2, 2], vec![]),
        node(0, 0, 1, 'b', "cb", [2, 6], vec![]),
    ]
}

fn small_game() -> Poker {
    let flop: Vec<u16> = vec![5, 0, 2196, 17];
    Poker::new(small_tree(), flop, vec![1, 2], vec![3])
}

#[test]
fn size_counts_buckets_of_inner_nodes() {
    let sizes = small_game().size();
    assert_eq!(sizes.len(), 169 + 2197);
    for k in 0..169 {
        assert_eq!(sizes[k], 2);
    }
    for k in 169..169 + 2197 {
        assert_eq!(sizes[k], 3);
    }
}

#[test]
fn size_of_leaves_only_is_empty() {
    let game = Poker::new(vec![node(0, 0, 0, 'f', "", [1, 2], vec![])], vec![], vec![], vec![]);
    assert_eq!(game.size(), Vec::<usize>::new());
}

#[test]
fn size_later_node_overrides_and_gaps_stay_zero() {
    let nodes = vec![
        node(0, 0, 0, 'r', "", [1, 2], vec![1, 1]),
        node(0, 1, 0, 'c', "c", [2, 2], vec![0, 0, 0]),
    ];
    let sizes = Poker::new(nodes, vec![], vec![], vec![]).size();
    assert_eq!(sizes.len(), 338);
    for k in 0..169 {
        assert_eq!(sizes[k], 3);
    }
    for k in 169..338 {
        assert_eq!(sizes[k], 0);
    }
}

#[test]
fn size_entries_match_next_of_indexed_node() {
    let game = small_game();
    let sizes = game.size();
    let root = game.root();
    for hand in [0usize, 1, 100, 168] {
        assert!(game.can_index(root, hand));
        assert_eq!(sizes[game.index(root, hand)], game.next(root));
    }
    let flop = game.play(root, 1);
    for hand in 0..4usize {
        assert!(game.can_index(flop, hand));
        assert_eq!(sizes[game.index(flop, hand)], game.next(flop));
    }
}

#[test]
fn size_has_no_zero_on_a_playable_game() {
    let game = small_game();
    assert!(game.validate());
    assert!(game.size().iter().all(|&n| n >= 1));
}

#[test]
fn is_sound_accepts_the_small_tree() {
    assert!(is_sound(&small_tree()));
    assert!(small_game().validate());
}

#[test]
fn is_sound_rejects_an_empty_tree() {
    assert!(!is_sound(&Vec::new()));
}

#[test]
fn is_sound_rejects_a_third_player() {
    let mut nodes = small_tree();
    nodes[3].t = 2;
    assert!(!is_sound(&nodes));
}

#[test]
fn is_sound_rejects_a_fifth_round_at_an_inner_node() {
    let mut nodes = small_tree();
    nodes[2].r = 4;
    assert!(!is_sound(&nodes));
}

#[test]
fn is_sound_asks_no_round_of_a_leaf() {
    let mut nodes = small_tree();
    nodes[4].r = 4;
    nodes[5].r = 255;
    assert!(is_sound(&nodes));
}

#[test]
fn is_sound_rejects_a_child_outside_the_tree() {
    let mut nodes = small_tree();
    nodes[2].children[1] = 6;
    assert!(!is_sound(&nodes));
}

#[test]
fn is_sound_rejects_shared_information_sets() {
    let mut nodes = small_tree();
    nodes[2].i = 168;
    assert!(!is_sound(&nodes));
}

#[test]
fn is_sound_rejects_information_sets_outside_the_table() {
    let mut nodes = small_tree();
    nodes[2].i = 170;
    assert!(!is_sound(&nodes));
}

#[test]
fn is_sound_rejects_a_table_with_gaps() {
    let nodes = vec![
        node(0, 0, 0, 'r', "", [1, 2], vec![1, 1]),
        node(0, 1, 0, 'c', "c", [2, 2], vec![0, 0, 0]),
    ];
    assert!(!is_sound(&nodes));
}

#[test]
fn validate_rejects_a_bucket_beyond_the_round() {
    let game = Poker::new(small_tree(), vec![2197], vec![], vec![]);
    assert!(!game.validate());
    let game = Poker::new(small_tree(), vec![], vec![0, 2197], vec![]);
    assert!(!game.validate());
    let game = Poker::new(small_tree(), vec![], vec![], vec![2196, 40000]);
    assert!(!game.validate());
    let game = Poker::new(small_tree(), vec![2196], vec![2196], vec![2196]);
    assert!(game.validate());
}

#[test]
fn index_before_the_flop_adds_the_hand() {
    let game = small_game();
    let root = game.root();
    assert_eq!(game.index(root, 0), 0);
    assert_eq!(game.index(root, 168), 168);
}

#[test]
fn index_after_the_flop_adds_the_bucket() {
    let game = small_game();
    let flop = game.play(game.root(), 1);
    assert_eq!(game.index(flop, 0), 169 + 5);
    assert_eq!(game.index(flop, 1), 169);
    assert_eq!(game.index(flop, 2), 169 + 2196);
    assert_eq!(game.index(flop, 3), 169 + 17);
    let turn = node(1000, 0, 2, 'c', "", [0, 0], vec![0]);
    assert_eq!(game.index(&turn, 1), 1002);
    let river = node(2000, 0, 3, 'c', "", [0, 0], vec![0]);
    assert_eq!(game.index(&river, 0), 2003);
}

#[test]
fn can_index_tells_hands_without_a_bucket() {
    let game = small_game();
    let flop = game.play(game.root(), 1);
    assert!(game.can_index(flop, 3));
    assert!(!game.can_index(flop, 4));
    let turn = node(1000, 0, 2, 'c', "", [0, 0], vec![0]);
    assert!(game.can_index(&turn, 1));
    assert!(!game.can_index(&turn, 2));
    let river = node(2000, 0, 3, 'c', "", [0, 0], vec![0]);
    assert!(game.can_index(&river, 0));
    assert!(!game.can_index(&river, 1));
    let late = node(0, 0, 4, 'c', "", [0, 0], vec![0]);
    assert!(!game.can_index(&late, 0));
    let far = node(usize::MAX, 0, 0, 'c', "", [0, 0], vec![0]);
    assert!(game.can_index(&far, 0));
    assert!(!game.can_index(&far, 1));
}

#[test]
fn different_nodes_and_buckets_get_different_indices() {
    let game = small_game();
    let root = game.root();
    let flop = game.play(root, 1);
    let mut seen = vec![false; game.size().len()];
    for hand in 0..169usize {
        let k = game.index(root, hand);
        assert!(!seen[k]);
        seen[k] = true;
    }
    for hand in [1usize, 0, 3, 2] {
        let k = game.index(flop, hand);
        assert!(!seen[k]);
        seen[k] = true;
    }
}

#[test]
fn root_and_play_walk_the_tree() {
    let game = small_game();
    let root = game.root();
    assert_eq!(root.h, "");
    assert!(!game.done(root));
    assert_eq!(game.turn(root), 0);
    assert_eq!(game.next(root), 2);
    let fold = game.play(root, 0);
    assert_eq!(fold.h, "f");
    assert!(game.done(fold));
    assert_eq!(game.next(fold), 0);
    let flop = game.play(root, 1);
    assert_eq!(flop.h, "c");
    assert_eq!(game.turn(flop), 1);
    assert_eq!(game.next(flop), 3);
    assert_eq!(game.play(flop, 2).h, "cb");
    assert!(game.done(game.play(flop, 2)));
}

#[test]
fn eval_after_a_fold_is_the_utility_to_player_zero() {
    let game = small_game();
    let leaf = node(0, 0, 3, 'f', "", [200, 2024], vec![]);
    assert_eq!(game.eval(&leaf, 9, 1), 2024);
    assert_eq!(game.eval(&leaf, 1, 9), 2024);
    let leaf = node(0, 1, 3, 'f', "", [200, 2024], vec![]);
    assert_eq!(game.eval(&leaf, 9, 1), -200);
    assert_eq!(game.eval(&leaf, 1, 9), -200);
}

#[test]
fn eval_at_a_showdown_is_the_utility_to_player_zero() {
    let game = small_game();
    let leaf = node(0, 0, 3, 'c', "", [6000, 5000], vec![]);
    assert_eq!(game.eval(&leaf, 10, 20), 5000);
    assert_eq!(game.eval(&leaf, 20, 10), -6000);
    assert_eq!(game.eval(&leaf, 15, 15), 0);
    let leaf = node(0, 1, 3, 'c', "", [6000, 5000], vec![]);
    assert_eq!(game.eval(&leaf, 10, 20), -6000);
    assert_eq!(game.eval(&leaf, 20, 10), 5000);
    assert_eq!(game.eval(&leaf, 15, 15), 0);
}

#[test]
fn eval_for_equal_stakes_does_not_depend_on_the_named_player() {
    let game = small_game();
    let (strong, weak) = (10, 20);
    let named_0 = node(0, 0, 3, 'c', "", [6000, 6000], vec![]);
    let named_1 = node(0, 1, 3, 'c', "", [6000, 6000], vec![]);
    assert_eq!(game.eval(&named_0, strong, weak), 6000);
    assert_eq!(game.eval(&named_1, weak, strong), 6000);
    assert_eq!(game.eval(&named_0, weak, strong), -6000);
    assert_eq!(game.eval(&named_1, strong, weak), -6000);
    assert_eq!(game.eval(&named_0, strong, strong), 0);
    assert_eq!(game.eval(&named_1, weak, weak), 0);
}

#[test]
fn eval_negates_the_smallest_stake_without_overflow() {
    let game = small_game();
    let leaf = node(0, 0, 3, 'c', "", [i32::MIN, 0], vec![]);
    assert_eq!(game.eval(&leaf, 2, 1), 2147483648);
    let leaf = node(0, 1, 3, 'c', "", [i32::MIN, 0], vec![]);
    assert_eq!(game.eval(&leaf, 1, 2), 2147483648);
    let leaf = node(0, 1, 3, 'f', "", [i32::MIN, 0], vec![]);
    assert_eq!(game.eval(&leaf, 0, 0), 2147483648);
}
