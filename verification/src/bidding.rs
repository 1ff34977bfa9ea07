//! The bidding round: which bids a player may make, and how the round goes
//! on after each bid.
use crate::bid::{bid_label, bid_of_text, bid_value, Bid};
use crate::cards::GameMode;
use crate::game::{holds_joker, Game};
use vstd::prelude::*;

verus! {

/// The seats `first`, `first + 1`, ... taken modulo `n`: `n` of them.
pub open spec fn rotation_seat(first: int, n: int, k: int) -> int {
    (first + k) % n
}

/// The `n` seats in turn from `first` on (anticlockwise), modulo `n`.
pub fn rotation(first: usize, n: usize) -> (v: Vec<usize>)
    requires
        n > 0,
        first + n - 1 <= usize::MAX,
    ensures
        v@.len() == n,
        forall|k: int| 0 <= k < n ==> #[trigger] v@[k] == rotation_seat(first as int, n as int, k),
{
    let mut v: Vec<usize> = Vec::with_capacity(n);
    let mut i: usize = 0;
    while i < n
        invariant
            i <= n,
            n > 0,
            first + n - 1 <= usize::MAX,
            v@.len() == i,
            forall|k: int| 0 <= k < i ==> #[trigger] v@[k] == rotation_seat(first as int, n as int, k),
        decreases n - i,
    {
        v.push((first + i) % n);
        i = i + 1;
    }
    v
}

/// Why a bid is refused.
#[derive(Debug, Clone, Copy, PartialEq, Eq, Structural)]
pub enum BidRefusal {
    /// The input names no bid.
    Unreadable,
    /// A reshuffle by someone other than the dealer, or before all others passed.
    ReshuffleNotOpen,
    /// A bid of five by someone other than the dealer.
    FiveDealerOnly,
    /// A bid of eight or nine in Hokm without a joker in hand.
    NeedsJoker,
    /// A bid no higher than the highest bid so far (given).
    TooLow(Bid),
}

/// The text of a refusal.
pub open spec fn refusal_text(r: BidRefusal) -> Seq<char> {
    match r {
        BidRefusal::Unreadable => "Invalid input."@,
        BidRefusal::ReshuffleNotOpen => "Reshuffle is only available to dealer when all players passed."@,
        BidRefusal::FiveDealerOnly => "Only dealer can pick 5."@,
        BidRefusal::NeedsJoker => "To bid 8 or 9 in Hokm, you must hold at least one joker."@,
        BidRefusal::TooLow(h) => "You must bid higher than "@ + bid_label(h) + " or pass."@,
    }
}

impl BidRefusal {
    pub fn message(&self) -> (s: String)
        ensures
            s@ == refusal_text(*self),
    {
        match self {
            BidRefusal::Unreadable => String::from_str("Invalid input."),
            BidRefusal::ReshuffleNotOpen => String::from_str(
                "Reshuffle is only available to dealer when all players passed.",
            ),
            BidRefusal::FiveDealerOnly => String::from_str("Only dealer can pick 5."),
            BidRefusal::NeedsJoker => String::from_str(
                "To bid 8 or 9 in Hokm, you must hold at least one joker.",
            ),
            BidRefusal::TooLow(h) => {
                let mut s = String::from_str("You must bid higher than ");
                s.append(h.label());
                s.append(" or pass.");
                s
            },
        }
    }
}

/// How the bidding round goes on after a bid.
#[derive(Debug, Clone, Copy)]
pub enum BidStep {
    /// The round goes on, with this highest bid (and its bidder) so far.
    Continue(Option<(usize, Bid)>),
    /// The dealer reshuffled: the hand ends and the given team scored a point.
    Reshuffled(usize),
    /// The dealer passed after everybody else did: the hand ends.
    AllPassed,
}

impl Game {
    /// In Hokm for four players, whether the partner sitting opposite seat `p`
    /// holds a joker.
    pub open spec fn partner_has_joker(&self, p: usize) -> bool {
        self.mode == GameMode::Hokm4 && holds_joker(
            self.players@[((p + self.num_players / 2) % self.num_players as int)].hand@,
        )
    }

    /// The ruling on a bid typed by seat `p` (see `judge_bid`): whether an
    /// eight was raised to nine, and the bid or the refusal.
    pub open spec fn bid_ruling(
        &self,
        p: usize,
        dealer_turn: bool,
        allow_reshuffle: bool,
        highest: Option<Bid>,
        t: Seq<char>,
    ) -> (bool, Result<Bid, BidRefusal>) {
        match bid_of_text(t) {
            None => (false, Err(BidRefusal::Unreadable)),
            Some(b) => if b == Bid::Reshuffle && !(dealer_turn && allow_reshuffle) {
                (false, Err(BidRefusal::ReshuffleNotOpen))
            } else if b == Bid::Five && !dealer_turn {
                (false, Err(BidRefusal::FiveDealerOnly))
            } else if (self.mode == GameMode::Hokm4 || self.mode == GameMode::Hokm6) && (b
                == Bid::Eight || b == Bid::Nine) && !holds_joker(self.players@[p as int].hand@) {
                (false, Err(BidRefusal::NeedsJoker))
            } else {
                let up = self.mode == GameMode::Hokm4 && b == Bid::Eight && self.partner_has_joker(
                    p,
                );
                let b2 = if up {
                    Bid::Nine
                } else {
                    b
                };
                match highest {
                    Some(h) => if b2 == Bid::Pass {
                        (up, Ok(Bid::Pass))
                    } else if bid_value(b2) <= bid_value(h) {
                        (up, Err(BidRefusal::TooLow(h)))
                    } else {
                        (up, Ok(b2))
                    },
                    None => (up, Ok(b2)),
                }
            },
        }
    }

    /// Judges the bid that seat `p` typed as `input`: a reshuffle only by the
    /// dealer when it is open, a five only by the dealer, an eight or nine in
    /// Hokm only with a joker in hand; in Hokm for four players an eight
    /// becomes a nine when the partner opposite holds a joker; a bid must top
    /// the highest bid so far, or be a pass. The first component tells whether
    /// the eight was raised (see `bid_ruling`).
    pub fn judge_bid(
        &self,
        p: usize,
        dealer_turn: bool,
        allow_reshuffle: bool,
        current_highest: Option<Bid>,
        input: &str,
    ) -> (r: (bool, Result<Bid, BidRefusal>))
        requires
            self.wf(),
            p < self.num_players,
        ensures
            r == self.bid_ruling(p, dealer_turn, allow_reshuffle, current_highest, input@),
    {
        let n = self.num_players;
        let opposite_has_joker = match self.mode {
            GameMode::Hokm4 => {
                let opp = (p + (n / 2)) % n;
                self.players[opp].has_joker()
            },
            _ => false,
        };
        let mut bid = match Bid::from_input(input) {
            Some(b) => b,
            None => {
                return (false, Err(BidRefusal::Unreadable));
            },
        };
        if bid == Bid::Reshuffle && !(dealer_turn && allow_reshuffle) {
            return (false, Err(BidRefusal::ReshuffleNotOpen));
        }
        if bid == Bid::Five && !dealer_turn {
            return (false, Err(BidRefusal::FiveDealerOnly));
        }
        let hokm = match self.mode {
            GameMode::Hokm4 | GameMode::Hokm6 => true,
            GameMode::Baloot => false,
        };
        if hokm && (bid == Bid::Eight || bid == Bid::Nine) && !self.players[p].has_joker() {
            return (false, Err(BidRefusal::NeedsJoker));
        }
        let mut upgraded = false;
        if self.mode == GameMode::Hokm4 && bid == Bid::Eight && opposite_has_joker {
            bid = Bid::Nine;
            upgraded = true;
        }
        if let Some(high) = current_highest {
            if bid == Bid::Pass {
                return (upgraded, Ok(Bid::Pass));
            }
            if bid.value() <= high.value() {
                return (upgraded, Err(BidRefusal::TooLow(high)));
            }
        } else {
            if bid == Bid::Pass {
                return (upgraded, Ok(Bid::Pass));
            }
        }
        (upgraded, Ok(bid))
    }

    /// The order of the bidding round: from the seat right of the dealer round
    /// to the dealer.
    pub fn bidding_order(&self) -> (v: Vec<usize>)
        requires
            self.num_players > 0,
            self.dealer + self.num_players <= usize::MAX,
        ensures
            v@.len() == self.num_players,
            forall|k: int|
                0 <= k < self.num_players ==> #[trigger] v@[k] == rotation_seat(
                    self.dealer + 1,
                    self.num_players as int,
                    k,
                ),
    {
        rotation(self.dealer + 1, self.num_players)
    }

    /// The `turn`-th turn of the bidding round, at seat `p`: whether it is the
    /// dealer's, and whether the dealer may reshuffle (the last turn, when it is
    /// the dealer's and nobody has bid yet).
    pub fn bid_turn(&self, turn: usize, n_turns: usize, p: usize, highest: Option<(usize, Bid)>) -> (r:
        (bool, bool))
        ensures
            r.0 == (p == self.dealer),
            r.1 == (p == self.dealer && highest is None && turn + 1 == n_turns),
    {
        let dealer_turn = p == self.dealer;
        let allow_reshuffle_now = dealer_turn && highest.is_none() && n_turns > 0 && turn
            == n_turns - 1;
        (dealer_turn, allow_reshuffle_now)
    }

    /// Records the bid of seat `p`: a reshuffle ends the hand with a point
    /// (saturating) for the team not dealing; a pass ends the hand when the
    /// dealer could have reshuffled, and otherwise changes nothing; any other
    /// bid becomes the highest when there is none yet or it tops it.
    pub fn record_bid(
        &mut self,
        p: usize,
        bid: Bid,
        allow_reshuffle_now: bool,
        highest: Option<(usize, Bid)>,
    ) -> (r: BidStep)
        ensures
            bid == Bid::Reshuffle ==> {
                let enemy = 1 - old(self).dealer % 2;
                &&& r == BidStep::Reshuffled(enemy as usize)
                &&& final(self).scores[enemy] == if old(self).scores[enemy] == u32::MAX {
                    u32::MAX
                } else {
                    (old(self).scores[enemy] + 1) as u32
                }
                &&& final(self).scores[1 - enemy] == old(self).scores[1 - enemy]
            },
            bid != Bid::Reshuffle ==> final(self).scores == old(self).scores,
            bid == Bid::Pass && allow_reshuffle_now ==> r == BidStep::AllPassed,
            bid == Bid::Pass && !allow_reshuffle_now ==> r == BidStep::Continue(highest),
            bid != Bid::Pass && bid != Bid::Reshuffle ==> r == BidStep::Continue(
                match highest {
                    None => Some((p, bid)),
                    Some((q, h)) => if bid_value(bid) > bid_value(h) {
                        Some((p, bid))
                    } else {
                        Some((q, h))
                    },
                },
            ),
            final(self).mode == old(self).mode,
            final(self).num_players == old(self).num_players,
            final(self).dealer == old(self).dealer,
            final(self).players == old(self).players,
            final(self).deck == old(self).deck,
            final(self).trump == old(self).trump,
            final(self).red_played == old(self).red_played,
            final(self).black_played == old(self).black_played,
            final(self).black_becomes_highest_trump == old(self).black_becomes_highest_trump,
    {
        if bid == Bid::Reshuffle {
            let enemy = 1 - self.team_of(self.dealer);
            self.scores[enemy] = self.scores[enemy].saturating_add(1);
            return BidStep::Reshuffled(enemy);
        }
        if bid == Bid::Pass {
            if allow_reshuffle_now {
                return BidStep::AllPassed;
            }
            return BidStep::Continue(highest);
        }
        match highest {
            None => BidStep::Continue(Some((p, bid))),
            Some((q, h)) => if bid.value() > h.value() {
                BidStep::Continue(Some((p, bid)))
            } else {
                BidStep::Continue(Some((q, h)))
            },
        }
    }
}

/// Law: what an accepted bid guarantees. Over a highest bid, anything but a
/// pass tops it; a five comes only from the dealer, a reshuffle only from the
/// dealer when it is open; in Hokm an eight or nine comes only from a hand
/// holding a joker; and an eight is raised to nine only in Hokm for four
/// players, when the partner opposite holds a joker.
pub proof fn lemma_bid_rules(
    g: Game,
    p: usize,
    dealer_turn: bool,
    allow_reshuffle: bool,
    highest: Option<Bid>,
    t: Seq<char>,
)
    ensures
        ({
            let (up, r) = g.bid_ruling(p, dealer_turn, allow_reshuffle, highest, t);
            &&& (r matches Ok(b) && b != Bid::Pass && highest is Some) ==> bid_value(r->Ok_0) > bid_value(
                highest->0,
            )
            &&& r == Ok::<Bid, BidRefusal>(Bid::Five) ==> dealer_turn
            &&& r == Ok::<Bid, BidRefusal>(Bid::Reshuffle) ==> dealer_turn && allow_reshuffle
            &&& (r == Ok::<Bid, BidRefusal>(Bid::Eight) || r == Ok::<Bid, BidRefusal>(Bid::Nine))
                && g.mode != GameMode::Baloot ==> holds_joker(g.players@[p as int].hand@)
            &&& up ==> g.mode == GameMode::Hokm4 && bid_of_text(t) == Some(Bid::Eight)
                && g.partner_has_joker(p) && r != Ok::<Bid, BidRefusal>(Bid::Eight)
        }),
{
}

/// Law: in Baloot there is no joker rule. A readable bid of eight or nine
/// that is the first bid, or tops the highest bid so far, is accepted as that
/// bid, whatever the hand holds and whoever bids.
pub proof fn lemma_baloot_high_bids(
    g: Game,
    p: usize,
    dealer_turn: bool,
    allow_reshuffle: bool,
    highest: Option<Bid>,
    t: Seq<char>,
)
    requires
        g.mode == GameMode::Baloot,
        bid_of_text(t) == Some(Bid::Eight) || bid_of_text(t) == Some(Bid::Nine),
        highest matches Some(h) ==> bid_value(h) < bid_value(bid_of_text(t)->0),
    ensures
        g.bid_ruling(p, dealer_turn, allow_reshuffle, highest, t) == (false, Ok::<Bid, BidRefusal>(
            bid_of_text(t)->0,
        )),
{
}

} // verus!
