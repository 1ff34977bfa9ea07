//! Cards that can lie face up or face down, and the full deck of them.
use crate::cards::{Card, GameMode, Rank, Suit};
use crate::deck::fresh_deck;
use vstd::prelude::*;

verus! {

/// A card that also knows whether it lies face up.
#[derive(Debug, Clone, Copy, PartialEq, Eq, Structural)]
pub struct Cards {
    pub face: bool,
    pub id: u32,
    pub rank: Rank,
    pub suit: Suit,
    pub trump: bool,
}

/// The card `c` lying face down.
pub open spec fn face_down(c: Card) -> Cards {
    Cards { face: false, id: c.id, rank: c.rank, suit: c.suit, trump: c.trump }
}

impl Cards {
    pub fn new(face: bool, id: u32, rank: Rank, suit: Suit, trump: bool) -> (c: Cards)
        ensures
            c == (Cards { face, id, rank, suit, trump }),
    {
        Cards { face, id, rank, suit, trump }
    }
}

/// The full deck: every rank from Two to Ace of Clubs, Diamonds, Hearts and
/// Spades in that order, numbered 1 to 52, then the black joker (53, as a
/// Spade) and the red joker (54, as a Heart); all face down and none trump.
#[derive(Debug, Clone)]
pub struct Deck {
    pub deck: Vec<Cards>,
}

impl Deck {
    /// The full deck: the cards of Hokm for six players (see `fresh_deck`),
    /// face down.
    pub fn new() -> (d: Deck)
        ensures
            d.deck@ == fresh_deck(GameMode::Hokm6).map_values(|c: Card| face_down(c)),
    {
        let cards = crate::deck::Deck::new_for_mode(GameMode::Hokm6).cards;
        let n = cards.len();
        let mut deck: Vec<Cards> = Vec::with_capacity(n);
        let mut i: usize = 0;
        while i < n
            invariant
                n == cards@.len(),
                cards@ == fresh_deck(GameMode::Hokm6),
                i <= n,
                deck@ == cards@.take(i as int).map_values(|c: Card| face_down(c)),
            decreases n - i,
        {
            let c = cards[i];
            deck.push(Cards::new(false, c.id, c.rank, c.suit, c.trump));
            proof {
                assert(cards@.take(i + 1) =~= cards@.take(i as int).push(c));
                assert(cards@.take(i + 1).map_values(|c: Card| face_down(c)) =~= cards@.take(
                    i as int,
                ).map_values(|c: Card| face_down(c)).push(face_down(c)));
            }
            i = i + 1;
        }
        proof {
            assert(cards@.take(n as int) =~= cards@);
        }
        Deck { deck }
    }
}

} // verus!
