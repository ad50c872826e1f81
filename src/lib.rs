//! A simplified baccarat simulator: cards and their point values, multi-deck
//! shoes, the dealing rules of one round, the outcome of a round, and the play
//! of a whole shoe up to its cut card.
pub mod card;
pub mod shoe;
pub mod round;
pub mod game;
