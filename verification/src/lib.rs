//! Rules of the trick-taking card games Hokm (four or six players) and
//! Baloot: the decks, bidding, trick play, scoring and the match loop's
//! decisions, each stated as a contract and proved with Verus.

pub mod cards;
pub mod text;
pub mod deck;
pub mod bid;
pub mod game;
pub mod hand;
pub mod bidding;
pub mod tricks;
pub mod session;
pub mod card_rules;
