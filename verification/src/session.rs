//! The match around the hands: the choice of mode, the first dealer, when
//! the match ends, and who deals next.
use crate::cards::GameMode;
use crate::game::{seats, Game};
use crate::text::{text_at, trim, trim_bounds};
use crate::tricks::{MAX_SCORE, MERCY_SCORE};
use rand::Rng;
use vstd::prelude::*;

verus! {

/// The mode that a line of input chooses: after trimming white space,
/// exactly `1` (Hokm for four), `2` (Hokm for six) or `3` (Baloot).
pub open spec fn mode_of_text(t: Seq<char>) -> Option<GameMode> {
    let w = trim(t);
    if w == "1"@ {
        Some(GameMode::Hokm4)
    } else if w == "2"@ {
        Some(GameMode::Hokm6)
    } else if w == "3"@ {
        Some(GameMode::Baloot)
    } else {
        None
    }
}

impl GameMode {
    /// Reads the choice of mode from a line of input (see `mode_of_text`).
    pub fn from_choice(s: &str) -> (m: Option<GameMode>)
        ensures
            m == mode_of_text(s@),
    {
        let (lo, hi) = trim_bounds(s);
        if text_at(s, lo, hi, "1") {
            Some(GameMode::Hokm4)
        } else if text_at(s, lo, hi, "2") {
            Some(GameMode::Hokm6)
        } else if text_at(s, lo, hi, "3") {
            Some(GameMode::Baloot)
        } else {
            None
        }
    }

    /// The number of seats of the mode.
    pub fn num_players(self) -> (n: usize)
        ensures
            n == seats(self),
    {
        match self {
            GameMode::Hokm4 | GameMode::Baloot => 4,
            GameMode::Hokm6 => 6,
        }
    }
}

/// A seat drawn with `rand::Rng::gen_range(0..n)` from the thread-local
/// generator of `rand::thread_rng`. The draw is random; the contract claims
/// what holds of every outcome: a seat below `n` (the range is not empty,
/// where `gen_range` would panic).
#[verifier::external_body]
fn random_seat(n: usize) -> (r: usize)
    requires
        n > 0,
    ensures
        r < n,
{
    rand::thread_rng().gen_range(0..n)
}

/// The dealer of the first hand of a match: a seat drawn at random.
pub fn first_dealer(mode: GameMode) -> (d: usize)
    ensures
        d < seats(mode),
{
    random_seat(mode.num_players())
}

/// How a match ends.
#[derive(Debug, Clone, Copy, PartialEq, Eq, Structural)]
pub enum MatchEnd {
    /// A team reached `MAX_SCORE`.
    MaxScore,
    /// A team has exactly `MERCY_SCORE` and the other none.
    Mercy,
}

impl Game {
    /// Whether the match is over after a hand, and how: a team at `MAX_SCORE`
    /// or more; otherwise a team at exactly `MERCY_SCORE` against none.
    pub fn match_over(&self) -> (r: Option<MatchEnd>)
        ensures
            r == if self.scores[0] >= MAX_SCORE || self.scores[1] >= MAX_SCORE {
                Some(MatchEnd::MaxScore)
            } else if (self.scores[0] == MERCY_SCORE && self.scores[1] == 0) || (self.scores[1]
                == MERCY_SCORE && self.scores[0] == 0) {
                Some(MatchEnd::Mercy)
            } else {
                None::<MatchEnd>
            },
    {
        if self.scores[0] >= MAX_SCORE || self.scores[1] >= MAX_SCORE {
            return Some(MatchEnd::MaxScore);
        }
        if (self.scores[0] == MERCY_SCORE && self.scores[1] == 0) || (self.scores[1] == MERCY_SCORE
            && self.scores[0] == 0) {
            return Some(MatchEnd::Mercy);
        }
        None
    }

    /// The dealer of the next hand: when the dealer's team leads on total
    /// points, the seat to the right (anticlockwise); otherwise the same seat.
    pub fn next_dealer(&self) -> (d: usize)
        requires
            self.num_players > 0,
            self.dealer < usize::MAX,
        ensures
            d == if self.scores[(self.dealer % 2) as int] > self.scores[1 - (self.dealer % 2) as int] {
                (self.dealer + 1) % self.num_players as int
            } else {
                self.dealer as int
            },
            self.dealer < self.num_players ==> d < self.num_players,
    {
        let dealer_team = self.team_of(self.dealer);
        let other_team = 1 - dealer_team;
        if self.scores[dealer_team] > self.scores[other_team] {
            (self.dealer + 1) % self.num_players
        } else {
            self.dealer
        }
    }
}

} // verus!
