//! Heads-up poker as a game tree with bucketed information sets: the tree of
//! betting nodes, the deal of private and board cards, the layout of the
//! information-set table, and the payoff at the leaves.

pub mod poker;
