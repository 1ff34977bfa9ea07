//! Playing out a hand: who leads, who takes each trick, when the hand ends
//! early, and how it is scored.
use crate::bid::{bid_value, Bid};
use crate::bidding::{rotation, rotation_seat};
use crate::cards::{card_beats, card_text, Card, Suit};
use crate::game::Game;
use vstd::prelude::*;

verus! {

/// The highest score a team can have; reaching it ends the match.
pub const MAX_SCORE: u32 = 52;

/// The score that ends the match when the other team has none.
pub const MERCY_SCORE: u32 = 32;

/// `a + b`, or `u32::MAX` when that does not fit.
pub open spec fn sat_add(a: u32, b: int) -> u32 {
    if a + b > u32::MAX {
        u32::MAX
    } else {
        (a + b) as u32
    }
}

/// Whether position `w` holds the card that takes the trick `plays`: no
/// card beats it, and it beats every card played before it.
pub open spec fn takes_trick(plays: Seq<(usize, Card)>, w: int, lead: Suit, trump: Suit) -> bool {
    &&& 0 <= w < plays.len()
    &&& forall|i: int| 0 <= i < plays.len() ==> !card_beats(#[trigger] plays[i].1, plays[w].1, lead, trump)
    &&& forall|i: int| 0 <= i < w ==> card_beats(plays[w].1, #[trigger] plays[i].1, lead, trump)
}

/// How a trick leaves the hand.
#[derive(Debug, Clone, Copy, PartialEq, Eq, Structural)]
pub enum TrickEnd {
    /// The hand goes on.
    Continue,
    /// The bidder's team has taken as many tricks as it bid.
    BidMet,
    /// The bidder's team can no longer take as many tricks as it bid.
    OutOfReach,
}

/// The state of a hand while its tricks are played.
#[derive(Debug, Clone, Copy)]
pub struct HandState {
    pub bidder: usize,
    pub bid: Bid,
    pub bidder_team: usize,
    pub bid_target: u8,
    /// The seat that leads the next trick.
    pub leader: usize,
    /// Tricks taken by team 0 and team 1.
    pub tricks_won: [u8; 2],
    /// Whether the black joker was played within the first three tricks.
    pub black_played_by_round3: bool,
    /// Whether the hand ended before its ninth trick.
    pub early_end: bool,
}

impl HandState {
    /// The tricks the bidder's team will have once the trick that `winner`
    /// takes is counted.
    pub open spec fn bidder_tricks_after(&self, winner: usize) -> int {
        if winner % 2 == self.bidder_team {
            self.tricks_won[self.bidder_team as int] + 1
        } else {
            self.tricks_won[self.bidder_team as int] as int
        }
    }

    /// The start of the play of a hand won by `bidder` with `bid`: the seat
    /// right of the bidder leads, no trick taken yet.
    pub fn new(game: &Game, bidder: usize, bid: Bid) -> (h: HandState)
        requires
            game.num_players > 0,
            bidder < usize::MAX,
        ensures
            h.bidder == bidder,
            h.bid == bid,
            h.bidder_team == bidder % 2,
            h.bid_target == bid_value(bid),
            h.leader == (bidder + 1) % game.num_players as int,
            h.tricks_won[0] == 0 && h.tricks_won[1] == 0,
            !h.black_played_by_round3,
            !h.early_end,
    {
        HandState {
            bidder,
            bid,
            bidder_team: game.team_of(bidder),
            bid_target: bid.value(),
            leader: (bidder + 1) % game.num_players,
            tricks_won: [0, 0],
            black_played_by_round3: false,
            early_end: false,
        }
    }

    /// The order of play of the next trick: from the leader round the table.
    pub fn trick_order(&self, game: &Game) -> (v: Vec<usize>)
        requires
            game.num_players > 0,
            self.leader + game.num_players - 1 <= usize::MAX,
        ensures
            v@.len() == game.num_players,
            forall|k: int|
                0 <= k < game.num_players ==> #[trigger] v@[k] == rotation_seat(
                    self.leader as int,
                    game.num_players as int,
                    k,
                ),
    {
        rotation(self.leader, game.num_players)
    }

    /// Notes, after a card of trick `trick_no`, whether the black joker has been
    /// played by the end of the third trick.
    pub fn note_play(&mut self, black_played: bool, trick_no: usize)
        ensures
            *final(self) == (HandState {
                black_played_by_round3: old(self).black_played_by_round3 || (black_played && trick_no <= 3),
                ..*old(self)
            }),
    {
        if black_played && trick_no <= 3 {
            self.black_played_by_round3 = true;
        }
    }

    /// Counts trick `trick_no` (1 to 9) for the team of `winner_player`, and
    /// decides whether the hand ends: when the bidder's team has taken the
    /// number of tricks it bid, or can no longer reach it with the tricks left.
    /// Otherwise the winner leads the next trick.
    pub fn finish_trick(&mut self, winner_player: usize, trick_no: usize) -> (r: TrickEnd)
        requires
            old(self).bidder_team < 2,
            trick_no <= 9,
            old(self).tricks_won[(winner_player % 2) as int] < 255,
            old(self).bidder_tricks_after(winner_player) < old(self).bid_target ==> old(
                self,
            ).bidder_tricks_after(winner_player) + (9 - trick_no) <= 255,
        ensures
            final(self).tricks_won[(winner_player % 2) as int] == old(self).tricks_won[(winner_player % 2) as int] + 1,
            final(self).tricks_won[1 - (winner_player % 2) as int] == old(self).tricks_won[1 - (winner_player % 2) as int],
            r == if old(self).bidder_tricks_after(winner_player) >= old(self).bid_target {
                TrickEnd::BidMet
            } else if old(self).bidder_tricks_after(winner_player) + (9 - trick_no) < old(
                self,
            ).bid_target {
                TrickEnd::OutOfReach
            } else {
                TrickEnd::Continue
            },
            final(self).early_end == (old(self).early_end || r != TrickEnd::Continue),
            final(self).leader == if r == TrickEnd::Continue {
                winner_player
            } else {
                old(self).leader
            },
            final(self).bidder == old(self).bidder,
            final(self).bid == old(self).bid,
            final(self).bidder_team == old(self).bidder_team,
            final(self).bid_target == old(self).bid_target,
            final(self).black_played_by_round3 == old(self).black_played_by_round3,
    {
        let winner_team = winner_player % 2;
        self.tricks_won[winner_team] = self.tricks_won[winner_team] + 1;
        let remaining: u8 = (9 - trick_no) as u8;
        if self.tricks_won[self.bidder_team] >= self.bid_target {
            self.early_end = true;
            return TrickEnd::BidMet;
        }
        if self.tricks_won[self.bidder_team] + remaining < self.bid_target {
            self.early_end = true;
            return TrickEnd::OutOfReach;
        }
        self.leader = winner_player;
        TrickEnd::Continue
    }
}

impl Game {
    /// The position in `plays` (in order of play) of the card that takes the
    /// trick: the first card that no other card beats, the suit led being the
    /// suit of the first card (see `takes_trick`).
    pub fn trick_winner(&self, plays: &Vec<(usize, Card)>) -> (w: usize)
        requires
            plays@.len() > 0,
            self.trump is Some,
        ensures
            takes_trick(plays@, w as int, plays@[0].1.suit, self.trump->0),
    {
        let lead_suit = plays[0].1.suit;
        let trump_suit = match self.trump {
            Some(t) => t,
            None => Suit::Clubs,
        };
        let mut win_idx: usize = 0;
        let mut i: usize = 1;
        while i < plays.len()
            invariant
                1 <= i <= plays@.len(),
                win_idx < i,
                lead_suit == plays@[0].1.suit,
                trump_suit == self.trump->0,
                forall|j: int| 0 <= j < i ==> !card_beats(#[trigger] plays@[j].1, plays@[win_idx as int].1, lead_suit, trump_suit),
                forall|j: int| 0 <= j < win_idx ==> card_beats(plays@[win_idx as int].1, #[trigger] plays@[j].1, lead_suit, trump_suit),
            decreases plays@.len() - i,
        {
            if plays[i].1.beats(&plays[win_idx].1, lead_suit, trump_suit, self.black_becomes_highest_trump) {
                win_idx = i;
            }
            i = i + 1;
        }
        win_idx
    }

    /// The points of a hand: 15 to the team with more tricks (team 1 on a tie)
    /// when the black joker was not played within the first three tricks; the
    /// bid to the bidder's team when it took at least as many tricks, twice the
    /// bid to the other team otherwise; all additions saturating, and each score
    /// then capped at `MAX_SCORE`.
    pub open spec fn scores_after(old_scores: [u32; 2], hand: HandState) -> (u32, u32) {
        let hw: int = if hand.tricks_won[0] > hand.tricks_won[1] {
            0
        } else {
            1
        };
        let bt = hand.bidder_team as int;
        let x = bid_value(hand.bid);
        let s0 = old_scores[0];
        let s1 = old_scores[1];
        let p0 = if !hand.black_played_by_round3 && hw == 0 {
            sat_add(s0, 15)
        } else {
            s0
        };
        let p1 = if !hand.black_played_by_round3 && hw == 1 {
            sat_add(s1, 15)
        } else {
            s1
        };
        let met = hand.tricks_won[bt] >= x;
        let m0 = if met && bt == 0 {
            sat_add(p0, x as int)
        } else if !met && bt == 1 {
            sat_add(p0, 2 * x)
        } else {
            p0
        };
        let m1 = if met && bt == 1 {
            sat_add(p1, x as int)
        } else if !met && bt == 0 {
            sat_add(p1, 2 * x)
        } else {
            p1
        };
        (if m0 > MAX_SCORE {
            MAX_SCORE
        } else {
            m0
        }, if m1 > MAX_SCORE {
            MAX_SCORE
        } else {
            m1
        })
    }

    /// Scores a finished hand (see `scores_after`).
    pub fn score_hand(&mut self, hand: &HandState)
        requires
            hand.bidder_team < 2,
        ensures
            final(self).scores[0] == Game::scores_after(old(self).scores, *hand).0,
            final(self).scores[1] == Game::scores_after(old(self).scores, *hand).1,
            final(self).mode == old(self).mode,
            final(self).num_players == old(self).num_players,
            final(self).dealer == old(self).dealer,
            final(self).players == old(self).players,
            final(self).deck == old(self).deck,
            final(self).trump == old(self).trump,
            final(self).red_played == old(self).red_played,
            final(self).black_played == old(self).black_played,
            final(self).black_becomes_highest_trump == old(self).black_becomes_highest_trump,
    {
        let tricks_won = hand.tricks_won;
        let bidder_team = hand.bidder_team;
        let hand_winner_team: usize = if tricks_won[0] > tricks_won[1] {
            0
        } else {
            1
        };
        let bidder_tricks = tricks_won[bidder_team];
        let x = hand.bid.value();
        if !hand.black_played_by_round3 {
            self.scores[hand_winner_team] = self.scores[hand_winner_team].saturating_add(15);
        }
        if bidder_tricks >= x {
            self.scores[bidder_team] = self.scores[bidder_team].saturating_add(x as u32);
        } else {
            let opp = 1 - bidder_team;
            self.scores[opp] = self.scores[opp].saturating_add((2 * x) as u32);
        }
        if self.scores[0] > MAX_SCORE {
            self.scores[0] = MAX_SCORE;
        }
        if self.scores[1] > MAX_SCORE {
            self.scores[1] = MAX_SCORE;
        }
    }
}

/// The cards of `plays`, as shown, separated by `, `.
pub open spec fn cards_listed(plays: Seq<(usize, Card)>) -> Seq<char>
    decreases plays.len(),
{
    if plays.len() == 0 {
        Seq::empty()
    } else if plays.len() == 1 {
        card_text(plays[0].1)
    } else {
        cards_listed(plays.drop_last()) + ", "@ + card_text(plays.last().1)
    }
}

/// What the table shows of the cards played so far in a trick.
pub open spec fn ground_text_of(plays: Seq<(usize, Card)>) -> Seq<char> {
    if plays.len() == 0 {
        "cards on ground: (none)"@
    } else {
        "cards on ground:\n"@ + cards_listed(plays)
    }
}

/// The text that shows the cards played so far in a trick (see
/// `ground_text_of`).
pub fn ground_text(plays: &[(usize, Card)]) -> (s: String)
    ensures
        s@ == ground_text_of(plays@),
{
    if plays.len() == 0 {
        return String::from_str("cards on ground: (none)");
    }
    let mut s = String::from_str("cards on ground:\n");
    let n = plays.len();
    let mut i: usize = 0;
    while i < n
        invariant
            n == plays@.len(),
            n > 0,
            i <= n,
            s@ == "cards on ground:\n"@ + cards_listed(plays@.take(i as int)),
        decreases n - i,
    {
        let ghost before = s@;
        if i > 0 {
            s.append(", ");
        }
        let d = plays[i].1.describe();
        s.append(d.as_str());
        proof {
            let t = plays@.take(i + 1);
            assert(t.drop_last() =~= plays@.take(i as int));
            assert(t.last() == plays@[i as int]);
            if i == 0 {
                assert(cards_listed(plays@.take(0)) =~= Seq::<char>::empty());
                assert(s@ =~= "cards on ground:\n"@ + cards_listed(t));
            } else {
                assert(s@ =~= "cards on ground:\n"@ + cards_listed(t));
            }
        }
        i = i + 1;
    }
    proof {
        assert(plays@.take(n as int) =~= plays@);
    }
    s
}

/// Law: after a hand is scored no team has more than `MAX_SCORE` points and
/// no team has lost points beyond that cap; when the black joker came out in
/// time and the bid was met, the bidder's team gains exactly the bid (when it
/// fits under the cap) and the other team nothing; when the bid failed, the
/// bidder's team gains nothing.
pub proof fn lemma_scoring(old_scores: [u32; 2], hand: HandState)
    requires
        hand.bidder_team < 2,
    ensures
        Game::scores_after(old_scores, hand).0 <= MAX_SCORE,
        Game::scores_after(old_scores, hand).1 <= MAX_SCORE,
        Game::scores_after(old_scores, hand).0 >= if old_scores[0] > MAX_SCORE {
            MAX_SCORE
        } else {
            old_scores[0]
        },
        Game::scores_after(old_scores, hand).1 >= if old_scores[1] > MAX_SCORE {
            MAX_SCORE
        } else {
            old_scores[1]
        },
        hand.black_played_by_round3 && hand.tricks_won[hand.bidder_team as int] >= bid_value(hand.bid)
            && old_scores[0] + bid_value(hand.bid) <= MAX_SCORE && old_scores[1] + bid_value(hand.bid) <= MAX_SCORE ==> {
            let s = Game::scores_after(old_scores, hand);
            &&& hand.bidder_team == 0 ==> s.0 == old_scores[0] + bid_value(hand.bid) && s.1 == old_scores[1]
            &&& hand.bidder_team == 1 ==> s.1 == old_scores[1] + bid_value(hand.bid) && s.0 == old_scores[0]
        },
        hand.black_played_by_round3 && hand.tricks_won[hand.bidder_team as int] < bid_value(hand.bid)
            && old_scores[0] <= MAX_SCORE && old_scores[1] <= MAX_SCORE ==> {
            let s = Game::scores_after(old_scores, hand);
            &&& hand.bidder_team == 0 ==> s.0 == old_scores[0]
            &&& hand.bidder_team == 1 ==> s.1 == old_scores[1]
        },
{
}

/// Law: the penalty for the black joker. A hand in which the black joker was
/// not played within the first three tricks scores exactly 15 more for the
/// team that took more tricks (team 1 when both took as many), whichever team
/// bid, and the same for the other team, than the same hand with the black
/// joker played in time (while no score reaches the cap). So with tricks
/// [4, 2], a failed bid of six by team 1 and scores [0, 0], the scores become
/// [27, 0].
pub proof fn lemma_black_joker_penalty(old_scores: [u32; 2], hand: HandState)
    requires
        hand.bidder_team < 2,
        !hand.black_played_by_round3,
        old_scores[0] + 33 <= MAX_SCORE,
        old_scores[1] + 33 <= MAX_SCORE,
    ensures
        ({
            let late = Game::scores_after(old_scores, hand);
            let in_time = Game::scores_after(
                old_scores,
                HandState { black_played_by_round3: true, ..hand },
            );
            &&& hand.tricks_won[0] > hand.tricks_won[1] ==> late.0 == in_time.0 + 15 && late.1
                == in_time.1
            &&& hand.tricks_won[0] <= hand.tricks_won[1] ==> late.1 == in_time.1 + 15 && late.0
                == in_time.0
        }),
        ({
            let in_time = Game::scores_after(
                old_scores,
                HandState { black_played_by_round3: true, ..hand },
            );
            let x = bid_value(hand.bid);
            let met = hand.tricks_won[hand.bidder_team as int] >= x;
            &&& in_time.0 == old_scores[0] + if hand.bidder_team == 0 && met {
                x as int
            } else if hand.bidder_team == 1 && !met {
                2 * x
            } else {
                0
            }
            &&& in_time.1 == old_scores[1] + if hand.bidder_team == 1 && met {
                x as int
            } else if hand.bidder_team == 0 && !met {
                2 * x
            } else {
                0
            }
        }),
{
}

} // verus!
