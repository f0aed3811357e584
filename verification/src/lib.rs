//! A Klondike solitaire game: cards, the rules of the piles and the moves of the game, where
//! the game stands on the screen, and what every move keeps.
pub mod card;
pub mod laws;
pub mod logic;
pub mod renderer;
