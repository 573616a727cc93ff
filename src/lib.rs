//! A blackjack round: hand valuation with soft and hard totals, a multi-deck
//! shoe that reshuffles at its penetration depth, the player and dealer turns,
//! a basic-strategy advisor, and the text drawing of hands.

pub mod game;
pub mod hand;
pub mod render;
pub mod shoe;
