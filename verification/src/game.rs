//! The table: the players and their hands, the deck, the trump suit, the two
//! teams' scores and the joker state of the current hand.
use crate::bid::{bid_value, Bid};
use crate::cards::{rank_is_joker, suit_name, Card, GameMode, Rank, Suit};
use crate::deck::{fresh_deck, marked, Deck};
use crate::hand::{display_order, sort_hand};
use vstd::prelude::*;

verus! {

/// The number of cards each player is dealt.
pub const HAND_SIZE: usize = 9;

/// The number of seats of a mode: six in Hokm for six players, four otherwise.
pub open spec fn seats(mode: GameMode) -> usize {
    match mode {
        GameMode::Hokm6 => 6,
        _ => 4,
    }
}

/// Whether some card of `hand` has rank `r`.
pub open spec fn holds_rank(hand: Seq<Card>, r: Rank) -> bool {
    exists|i: int| 0 <= i < hand.len() && #[trigger] hand[i].rank == r
}

/// Whether `hand` holds a joker.
pub open spec fn holds_joker(hand: Seq<Card>) -> bool {
    exists|i: int| 0 <= i < hand.len() && rank_is_joker(#[trigger] hand[i].rank)
}

/// Whether `hand` holds a card of `suit` that is not a joker.
pub open spec fn holds_suit(hand: Seq<Card>, suit: Suit) -> bool {
    exists|i: int| 0 <= i < hand.len() && !rank_is_joker(#[trigger] hand[i].rank) && hand[i].suit == suit
}

/// Whether `i` is the first position in `hand` of a card numbered `id`.
pub open spec fn first_with_id(hand: Seq<Card>, id: u32, i: int) -> bool {
    &&& 0 <= i < hand.len()
    &&& hand[i].id == id
    &&& forall|j: int| 0 <= j < i ==> (#[trigger] hand[j]).id != id
}

#[derive(Debug, Clone)]
pub struct Player {
    pub id: usize,
    pub hand: Vec<Card>,
}

impl Player {
    pub fn has_joker(&self) -> (b: bool)
        ensures
            b == holds_joker(self.hand@),
    {
        let n = self.hand.len();
        let mut i: usize = 0;
        while i < n
            invariant
                n == self.hand@.len(),
                i <= n,
                forall|j: int| 0 <= j < i ==> !rank_is_joker(#[trigger] self.hand@[j].rank),
            decreases n - i,
        {
            if self.hand[i].is_joker() {
                return true;
            }
            i = i + 1;
        }
        false
    }

    fn has_rank(&self, r: Rank) -> (b: bool)
        ensures
            b == holds_rank(self.hand@, r),
    {
        let n = self.hand.len();
        let mut i: usize = 0;
        while i < n
            invariant
                n == self.hand@.len(),
                i <= n,
                forall|j: int| 0 <= j < i ==> (#[trigger] self.hand@[j]).rank != r,
            decreases n - i,
        {
            if self.hand[i].rank == r {
                return true;
            }
            i = i + 1;
        }
        false
    }

    pub fn has_black_joker(&self) -> (b: bool)
        ensures
            b == holds_rank(self.hand@, Rank::BJoker),
    {
        self.has_rank(Rank::BJoker)
    }

    pub fn has_red_joker(&self) -> (b: bool)
        ensures
            b == holds_rank(self.hand@, Rank::RJoker),
    {
        self.has_rank(Rank::RJoker)
    }

    /// The position of the first card numbered `id` in the hand, if any.
    pub(crate) fn position_of_id(&self, id: u32) -> (r: Option<usize>)
        ensures
            match r {
                Some(i) => first_with_id(self.hand@, id, i as int),
                None => forall|j: int| 0 <= j < self.hand@.len() ==> (#[trigger] self.hand@[j]).id != id,
            },
    {
        let n = self.hand.len();
        let mut i: usize = 0;
        while i < n
            invariant
                n == self.hand@.len(),
                i <= n,
                forall|j: int| 0 <= j < i ==> (#[trigger] self.hand@[j]).id != id,
            decreases n - i,
        {
            if self.hand[i].id == id {
                return Some(i);
            }
            i = i + 1;
        }
        None
    }

    fn has_suit(&self, suit: Suit) -> (b: bool)
        ensures
            b == holds_suit(self.hand@, suit),
    {
        let n = self.hand.len();
        let mut i: usize = 0;
        while i < n
            invariant
                n == self.hand@.len(),
                i <= n,
                forall|j: int|
                    0 <= j < i ==> rank_is_joker(#[trigger] self.hand@[j].rank) || self.hand@[j].suit
                        != suit,
            decreases n - i,
        {
            if !self.hand[i].is_joker() && self.hand[i].suit == suit {
                return true;
            }
            i = i + 1;
        }
        false
    }
}

/// Why a card may not be played.
#[derive(Debug, Clone, Copy, PartialEq, Eq, Structural)]
pub enum PlayError {
    /// The red joker before the black one, outside the bidder's exception.
    RedBeforeBlack,
    /// A card off the suit led while the hand still holds that suit.
    MustFollow(Suit),
}

#[derive(Debug)]
pub struct Game {
    pub mode: GameMode,
    pub num_players: usize,
    pub deck: Deck,
    pub players: Vec<Player>,
    /// The seat of the dealer, from 0 to `num_players - 1`.
    pub dealer: usize,
    pub trump: Option<Suit>,
    /// Team 0 are the even seats, team 1 the odd seats.
    pub scores: [u32; 2],
    pub red_played: bool,
    pub black_played: bool,
    pub black_becomes_highest_trump: bool,
}

impl Game {
    /// A table in a consistent state: as many seats as the mode has, one player
    /// for each seat, and the dealer at one of them.
    pub open spec fn wf(&self) -> bool {
        &&& self.num_players == seats(self.mode)
        &&& self.players@.len() == self.num_players
        &&& self.dealer < self.num_players
    }

    /// The bidder's exception to the joker order: a bid of seven or more by a
    /// player holding both jokers, within the first three tricks.
    pub open spec fn red_exception(&self, bidder: usize, bid: Bid, trick_no: usize) -> bool {
        &&& bid_value(bid) >= 7
        &&& holds_rank(self.players@[bidder as int].hand@, Rank::BJoker)
        &&& holds_rank(self.players@[bidder as int].hand@, Rank::RJoker)
        &&& trick_no <= 3
    }

    /// Whether playing `chosen` is refused, and why: the red joker may not come
    /// before the black one, outside the bidder's exception; any other joker may
    /// always be played; any other card must follow the suit led when the
    /// player holds a (non-joker) card of it.
    pub open spec fn play_error(
        &self,
        player_idx: usize,
        chosen: Card,
        lead: Option<Card>,
        bidder: usize,
        bid: Bid,
        trick_no: usize,
    ) -> Option<PlayError> {
        if rank_is_joker(chosen.rank) {
            if chosen.rank == Rank::RJoker && !self.black_played && !self.red_exception(
                bidder,
                bid,
                trick_no,
            ) {
                Some(PlayError::RedBeforeBlack)
            } else {
                None
            }
        } else {
            match lead {
                Some(l) => if holds_suit(self.players@[player_idx as int].hand@, l.suit)
                    && chosen.suit != l.suit {
                    Some(PlayError::MustFollow(l.suit))
                } else {
                    None
                },
                None => None,
            }
        }
    }

    /// A new table for `mode`: a freshly shuffled deck, empty hands, the dealer
    /// at seat `dealer` modulo the number of seats, no trump, no points.
    pub fn new(mode: GameMode, dealer: usize) -> (g: Game)
        ensures
            g.wf(),
            g.mode == mode,
            g.num_players == seats(mode),
            g.dealer == dealer % seats(mode),
            g.deck.cards@.to_multiset() == fresh_deck(mode).to_multiset(),
            g.deck.cards@.len() == fresh_deck(mode).len(),
            forall|i: int|
                0 <= i < g.players@.len() ==> (#[trigger] g.players@[i]).id == i
                    && g.players@[i].hand@.len() == 0,
            g.trump == None::<Suit>,
            g.scores[0] == 0 && g.scores[1] == 0,
            !g.red_played && !g.black_played && !g.black_becomes_highest_trump,
    {
        let num_players: usize = match mode {
            GameMode::Hokm4 | GameMode::Baloot => 4,
            GameMode::Hokm6 => 6,
        };
        let mut deck = Deck::new_for_mode(mode);
        deck.shuffle();
        let mut players: Vec<Player> = Vec::with_capacity(num_players);
        let mut i: usize = 0;
        while i < num_players
            invariant
                i <= num_players,
                players@.len() == i,
                forall|j: int|
                    0 <= j < i ==> (#[trigger] players@[j]).id == j && players@[j].hand@.len()
                        == 0,
            decreases num_players - i,
        {
            players.push(Player { id: i, hand: Vec::new() });
            i = i + 1;
        }
        Game {
            mode,
            num_players,
            deck,
            players,
            dealer: dealer % num_players,
            trump: None,
            scores: [0, 0],
            red_played: false,
            black_played: false,
            black_becomes_highest_trump: false,
        }
    }

    /// Starts a new hand: no trump, no joker played, a freshly shuffled deck and
    /// empty hands; the mode, seats, dealer and scores stay.
    pub fn reset_hand_state(&mut self)
        ensures
            final(self).mode == old(self).mode,
            final(self).num_players == old(self).num_players,
            final(self).dealer == old(self).dealer,
            final(self).scores == old(self).scores,
            final(self).trump == None::<Suit>,
            !final(self).red_played && !final(self).black_played
                && !final(self).black_becomes_highest_trump,
            final(self).deck.cards@.to_multiset() == fresh_deck(old(self).mode).to_multiset(),
            final(self).deck.cards@.len() == fresh_deck(old(self).mode).len(),
            final(self).players@.len() == old(self).players@.len(),
            forall|i: int|
                0 <= i < final(self).players@.len() ==> (#[trigger] final(self).players@[i]).id
                    == old(self).players@[i].id && final(self).players@[i].hand@.len() == 0,
    {
        self.trump = None;
        self.red_played = false;
        self.black_played = false;
        self.black_becomes_highest_trump = false;
        self.deck = Deck::new_for_mode(self.mode);
        self.deck.shuffle();
        let n = self.players.len();
        let mut i: usize = 0;
        while i < n
            invariant
                n == self.players@.len(),
                n == old(self).players@.len(),
                i <= n,
                self.mode == old(self).mode,
                self.num_players == old(self).num_players,
                self.dealer == old(self).dealer,
                self.scores == old(self).scores,
                self.trump == None::<Suit>,
                !self.red_played && !self.black_played && !self.black_becomes_highest_trump,
                self.deck.cards@.to_multiset() == fresh_deck(old(self).mode).to_multiset(),
                self.deck.cards@.len() == fresh_deck(old(self).mode).len(),
                forall|j: int|
                    0 <= j < n ==> (#[trigger] self.players@[j]).id == old(self).players@[j].id,
                forall|j: int| 0 <= j < i ==> (#[trigger] self.players@[j]).hand@.len() == 0,
            decreases n - i,
        {
            self.players[i].hand.clear();
            i = i + 1;
        }
    }

    /// The team of a seat: 0 for the even seats, 1 for the odd ones.
    pub fn team_of(&self, player: usize) -> (t: usize)
        ensures
            t == player % 2,
    {
        player % 2
    }

    pub fn team_name(team: usize) -> (s: &'static str)
        ensures
            s@ == if team == 0 {
                "Team 0"@
            } else if team == 1 {
                "Team 1"@
            } else {
                "Unknown"@
            },
    {
        match team {
            0 => "Team 0",
            1 => "Team 1",
            _ => "Unknown",
        }
    }

    /// Sets the trump suit and marks the trumps in every hand.
    pub fn set_trump(&mut self, suit: Suit)
        ensures
            final(self).trump == Some(suit),
            final(self).players@.len() == old(self).players@.len(),
            forall|i: int|
                0 <= i < final(self).players@.len() ==> (#[trigger] final(self).players@[i]).id
                    == old(self).players@[i].id && final(self).players@[i].hand@ == marked(
                    old(self).players@[i].hand@,
                    suit,
                ),
            final(self).mode == old(self).mode,
            final(self).num_players == old(self).num_players,
            final(self).dealer == old(self).dealer,
            final(self).scores == old(self).scores,
            final(self).deck.cards@ == old(self).deck.cards@,
            final(self).red_played == old(self).red_played,
            final(self).black_played == old(self).black_played,
            final(self).black_becomes_highest_trump == old(self).black_becomes_highest_trump,
    {
        self.trump = Some(suit);
        let n = self.players.len();
        let mut i: usize = 0;
        while i < n
            invariant
                n == self.players@.len(),
                n == old(self).players@.len(),
                i <= n,
                self.trump == Some(suit),
                self.mode == old(self).mode,
                self.num_players == old(self).num_players,
                self.dealer == old(self).dealer,
                self.scores == old(self).scores,
                self.deck.cards@ == old(self).deck.cards@,
                self.red_played == old(self).red_played,
                self.black_played == old(self).black_played,
                self.black_becomes_highest_trump == old(self).black_becomes_highest_trump,
                forall|j: int|
                    0 <= j < n ==> (#[trigger] self.players@[j]).id == old(self).players@[j].id,
                forall|j: int|
                    0 <= j < n ==> (#[trigger] self.players@[j]).hand@ == if j < i {
                        marked(old(self).players@[j].hand@, suit)
                    } else {
                        old(self).players@[j].hand@
                    },
            decreases n - i,
        {
            let m = self.players[i].hand.len();
            let ghost before = self.players@[i as int].hand@;
            let mut k: usize = 0;
            while k < m
                invariant
                    n == self.players@.len(),
                    i < n,
                    m == self.players@[i as int].hand@.len(),
                    m == before.len(),
                    k <= m,
                    self.trump == Some(suit),
                    self.mode == old(self).mode,
                    self.num_players == old(self).num_players,
                    self.dealer == old(self).dealer,
                    self.scores == old(self).scores,
                    self.deck.cards@ == old(self).deck.cards@,
                    self.red_played == old(self).red_played,
                    self.black_played == old(self).black_played,
                    self.black_becomes_highest_trump == old(self).black_becomes_highest_trump,
                    forall|j: int|
                        0 <= j < n ==> (#[trigger] self.players@[j]).id == old(self).players@[j].id,
                    forall|j: int|
                        0 <= j < n && j != i ==> (#[trigger] self.players@[j]).hand@ == if j < i {
                            marked(old(self).players@[j].hand@, suit)
                        } else {
                            old(self).players@[j].hand@
                        },
                    before == old(self).players@[i as int].hand@,
                    forall|j: int|
                        0 <= j < m ==> #[trigger] self.players@[i as int].hand@[j] == if j < k {
                            Card { trump: before[j].suit == suit, ..before[j] }
                        } else {
                            before[j]
                        },
                decreases m - k,
            {
                let c = self.players[i].hand[k];
                self.players[i].hand.set(k, Card { trump: c.suit == suit, ..c });
                k = k + 1;
            }
            assert(self.players@[i as int].hand@ =~= marked(before, suit));
            i = i + 1;
        }
    }
}


/// The card led, if any, as a value.
pub open spec fn lead_of(lead: Option<&Card>) -> Option<Card> {
    match lead {
        Some(c) => Some(*c),
        None => None,
    }
}

/// The text of the refusal of the red joker before the black one.
pub open spec fn red_before_black_text() -> Seq<char> {
    "Red Joker cannot be played before Black Joker unless the bidder (≥7) holds both, within first 3 tricks."@
}

/// The text of a refusal.
pub open spec fn play_error_text(e: PlayError) -> Seq<char> {
    match e {
        PlayError::RedBeforeBlack => red_before_black_text(),
        PlayError::MustFollow(s) => "You must follow suit: "@ + suit_name(s),
    }
}

impl PlayError {
    pub fn message(&self) -> (s: String)
        ensures
            s@ == play_error_text(*self),
    {
        match self {
            PlayError::RedBeforeBlack => String::from_str(
                "Red Joker cannot be played before Black Joker unless the bidder (≥7) holds both, within first 3 tricks.",
            ),
            PlayError::MustFollow(suit) => {
                let mut e = String::from_str("You must follow suit: ");
                e.append(suit.name());
                e
            },
        }
    }
}

impl Game {
    /// Decides whether `player_idx` may play `chosen` (see `play_error`); a
    /// refusal comes with its text (see `play_error_text`).
    pub fn validate_play(
        &self,
        player_idx: usize,
        chosen: &Card,
        lead_card_opt: Option<&Card>,
        bidder: usize,
        bidder_bid: Bid,
        trick_no: usize,
    ) -> (r: Result<(), String>)
        requires
            chosen.rank == Rank::RJoker && !self.black_played && bid_value(bidder_bid) >= 7
                ==> bidder < self.players@.len(),
            !rank_is_joker(chosen.rank) && lead_card_opt is Some ==> player_idx
                < self.players@.len(),
        ensures
            match self.play_error(
                player_idx,
                *chosen,
                lead_of(lead_card_opt),
                bidder,
                bidder_bid,
                trick_no,
            ) {
                None => r is Ok,
                Some(e) => r is Err && r->Err_0@ == play_error_text(e),
            },
    {
        match self.check_play(player_idx, chosen, lead_card_opt, bidder, bidder_bid, trick_no) {
            None => Ok(()),
            Some(e) => Err(e.message()),
        }
    }

    /// Decides whether `player_idx` may play `chosen` (see `play_error`).
    pub fn check_play(
        &self,
        player_idx: usize,
        chosen: &Card,
        lead_card_opt: Option<&Card>,
        bidder: usize,
        bidder_bid: Bid,
        trick_no: usize,
    ) -> (r: Option<PlayError>)
        requires
            chosen.rank == Rank::RJoker && !self.black_played && bid_value(bidder_bid) >= 7
                ==> bidder < self.players@.len(),
            !rank_is_joker(chosen.rank) && lead_card_opt is Some ==> player_idx
                < self.players@.len(),
        ensures
            r == self.play_error(player_idx, *chosen, lead_of(lead_card_opt), bidder, bidder_bid, trick_no),
    {
        if chosen.is_joker() {
            if chosen.rank == Rank::RJoker && !self.black_played {
                if bidder_bid.value() >= 7 && self.players[bidder].has_black_joker()
                    && self.players[bidder].has_red_joker() && trick_no <= 3 {
                    return None;
                } else {
                    return Some(PlayError::RedBeforeBlack);
                }
            }
            return None;
        }
        if let Some(lead_card) = lead_card_opt {
            let lead_suit = lead_card.suit;
            let has_lead = self.players[player_idx].has_suit(lead_suit);
            if has_lead && chosen.suit != lead_suit {
                return Some(PlayError::MustFollow(lead_suit));
            }
        }
        None
    }

    /// Records that `player_idx` played `card`: the black joker marks itself
    /// played; the red joker marks itself played and, when it comes before the
    /// black one under the bidder's exception, makes the black joker the highest
    /// trump; the first card of the player's hand that bears the card's number
    /// leaves the hand.
    pub fn on_card_played(
        &mut self,
        player_idx: usize,
        card: &Card,
        bidder: usize,
        bidder_bid: Bid,
        trick_no: usize,
    )
        requires
            player_idx < old(self).players@.len(),
            card.rank == Rank::RJoker && bid_value(bidder_bid) >= 7 ==> bidder < old(self).players@.len(),
        ensures
            final(self).black_played == (old(self).black_played || card.rank == Rank::BJoker),
            card.rank == Rank::RJoker ==> final(self).red_played
                && final(self).black_becomes_highest_trump == (
            old(self).black_becomes_highest_trump || (old(self).red_exception(
                bidder,
                bidder_bid,
                trick_no,
            ) && !old(self).black_played)),
            card.rank != Rank::RJoker ==> final(self).red_played == old(self).red_played
                && final(self).black_becomes_highest_trump == old(self).black_becomes_highest_trump,
            final(self).players@.len() == old(self).players@.len(),
            forall|j: int|
                0 <= j < final(self).players@.len() && j != player_idx ==> #[trigger] final(self).players@[j] == old(self).players@[j],
            final(self).players@[player_idx as int].id == old(self).players@[player_idx as int].id,
            forall|i: int|
                first_with_id(old(self).players@[player_idx as int].hand@, card.id, i) ==> final(self).players@[player_idx as int].hand@ == old(self).players@[player_idx as int].hand@.remove(i),
            (forall|j: int|
                0 <= j < old(self).players@[player_idx as int].hand@.len() ==> (#[trigger] old(self).players@[player_idx as int].hand@[j]).id != card.id) ==> final(self).players@[player_idx as int].hand@ == old(self).players@[player_idx as int].hand@,
            final(self).mode == old(self).mode,
            final(self).num_players == old(self).num_players,
            final(self).dealer == old(self).dealer,
            final(self).scores == old(self).scores,
            final(self).trump == old(self).trump,
            final(self).deck.cards@ == old(self).deck.cards@,
    {
        if card.rank == Rank::BJoker {
            self.black_played = true;
        }
        if card.rank == Rank::RJoker {
            let allow_exception = bidder_bid.value() >= 7 && self.players[bidder].has_black_joker()
                && self.players[bidder].has_red_joker() && trick_no <= 3;
            if allow_exception && !self.black_played {
                self.black_becomes_highest_trump = true;
            }
            self.red_played = true;
        }
        if let Some(pos) = self.players[player_idx].position_of_id(card.id) {
            self.players[player_idx].hand.remove(pos);
        }
    }
}


/// The seat that receives the `k`-th packet of each round of the deal:
/// anticlockwise from the seat right of the dealer, ending on the dealer.
pub open spec fn deal_seat(dealer: int, n: int, k: int) -> int {
    (dealer + 1 + k) % n
}

/// The nine cards, in the order they arrive, that the `k`-th seat of the deal
/// order receives when the deck `d` is dealt from its top (its last card) in
/// packets of three, round after round, to `n` seats.
pub open spec fn dealt_cards(d: Seq<Card>, n: int, k: int) -> Seq<Card> {
    Seq::new(9, |i: int| d[d.len() - 1 - deal_position(n, k, i)])
}

/// How deep in the deck (counted from its top, from 0) lies the `i`-th card
/// dealt to the `k`-th seat of the deal order, with `n` seats: the packets of
/// three go round the table three times.
pub open spec fn deal_position(n: int, k: int, i: int) -> int {
    3 * n * (i / 3) + 3 * k + i % 3
}

proof fn lemma_deal_seat(dealer: int, n: int, k: int)
    requires
        0 <= dealer < n,
        0 <= k < n,
    ensures
        0 <= deal_seat(dealer, n, k) < n,
        deal_seat(dealer, n, k) == if dealer + 1 + k < n {
            dealer + 1 + k
        } else {
            dealer + 1 + k - n
        },
{
    let x = dealer + 1 + k;
    if x < n {
        vstd::arithmetic::div_mod::lemma_fundamental_div_mod_converse(x, n, 0, x);
    } else {
        vstd::arithmetic::div_mod::lemma_fundamental_div_mod_converse(x, n, 1, x - n);
    }
}

proof fn lemma_deal_seats_distinct(dealer: int, n: int, k1: int, k2: int)
    requires
        0 <= dealer < n,
        0 <= k1 < n,
        0 <= k2 < n,
        k1 != k2,
    ensures
        deal_seat(dealer, n, k1) != deal_seat(dealer, n, k2),
{
    lemma_deal_seat(dealer, n, k1);
    lemma_deal_seat(dealer, n, k2);
}

proof fn lemma_packet_index(n: int, round: int, q: int, c: int)
    requires
        0 <= c < 3,
        0 <= round,
    ensures
        (3 * round + c) / 3 == round,
        (3 * round + c) % 3 == c,
        3 * n * ((3 * round + c) / 3) + 3 * q + (3 * round + c) % 3 == 3 * n * round + 3 * q + c,
{
    vstd::arithmetic::div_mod::lemma_fundamental_div_mod_converse(3 * round + c, 3, round, c);
}

proof fn lemma_deal_bound(n: int, round: int, q: int, c: int)
    requires
        0 <= round < 3,
        0 <= q < n,
        0 <= c < 3,
    ensures
        0 <= 3 * n * round + 3 * q + c < 9 * n,
        3 * n * (round + 1) == 3 * n * round + 3 * n,
{
    assert(0 <= 3 * n * round + 3 * q + c < 9 * n) by (nonlinear_arith)
        requires
            0 <= round < 3,
            0 <= q < n,
            0 <= c < 3,
    ;
    assert(3 * n * (round + 1) == 3 * n * round + 3 * n) by (nonlinear_arith);
}

impl Game {
    /// Deals nine cards to every player: three rounds in which each seat, from
    /// the one right of the dealer round to the dealer, receives a packet of
    /// three cards taken one by one from the top (the end) of the deck (see
    /// `dealt_cards`). The deck keeps its other cards; nothing else changes.
    pub fn deal(&mut self)
        requires
            old(self).wf(),
            old(self).deck.cards@.len() >= HAND_SIZE * old(self).num_players,
        ensures
            final(self).deck.cards@ == old(self).deck.cards@.subrange(
                0,
                old(self).deck.cards@.len() - HAND_SIZE * old(self).num_players,
            ),
            final(self).players@.len() == old(self).players@.len(),
            forall|k: int|
                0 <= k < old(self).num_players ==> 0 <= deal_seat(old(self).dealer as int, old(self).num_players as int, k) < old(self).num_players
                    && (#[trigger] final(self).players@[deal_seat(old(self).dealer as int, old(self).num_players as int, k)]).id
                        == old(self).players@[deal_seat(old(self).dealer as int, old(self).num_players as int, k)].id
                    && final(self).players@[deal_seat(old(self).dealer as int, old(self).num_players as int, k)].hand@
                        == old(self).players@[deal_seat(old(self).dealer as int, old(self).num_players as int, k)].hand@
                        + dealt_cards(old(self).deck.cards@, old(self).num_players as int, k),
            final(self).mode == old(self).mode,
            final(self).num_players == old(self).num_players,
            final(self).dealer == old(self).dealer,
            final(self).scores == old(self).scores,
            final(self).trump == old(self).trump,
            final(self).red_played == old(self).red_played,
            final(self).black_played == old(self).black_played,
            final(self).black_becomes_highest_trump == old(self).black_becomes_highest_trump,
    {
        let n = self.num_players;
        let dealer = self.dealer;
        let ghost d = self.deck.cards@;
        let ghost len = d.len() as int;
        let ghost start = self.players@;
        let mut order: Vec<usize> = Vec::with_capacity(n);
        let mut i: usize = 1;
        while i <= n
            invariant
                1 <= i <= n + 1,
                n <= 6,
                dealer < n,
                order@.len() == i - 1,
                forall|k: int| 0 <= k < i - 1 ==> #[trigger] order@[k] == deal_seat(dealer as int, n as int, k),
            decreases n + 1 - i,
        {
            order.push((dealer + i) % n);
            i = i + 1;
        }
        let mut round: usize = 0;
        while round < HAND_SIZE / 3
            invariant
                round <= 3,
                n == self.num_players,
                dealer == self.dealer,
                self.wf(),
                d.len() == len,
                len >= 9 * n,
                order@.len() == n,
                forall|k: int| 0 <= k < n ==> #[trigger] order@[k] == deal_seat(dealer as int, n as int, k),
                self.deck.cards@ == d.subrange(0, len - 3 * n * round),
                self.players@.len() == start.len(),
                forall|j: int| 0 <= j < n ==> (#[trigger] self.players@[j]).id == start[j].id,
                forall|k: int|
                    0 <= k < n ==> #[trigger] self.players@[deal_seat(dealer as int, n as int, k)].hand@
                        == start[deal_seat(dealer as int, n as int, k)].hand@ + dealt_cards(d, n as int, k).take(
                        3 * round,
                    ),
                self.mode == old(self).mode,
                self.scores == old(self).scores,
                self.trump == old(self).trump,
                self.red_played == old(self).red_played,
                self.black_played == old(self).black_played,
                self.black_becomes_highest_trump == old(self).black_becomes_highest_trump,
            decreases 3 - round,
        {
            let mut q: usize = 0;
            while q < n
                invariant
                    round < 3,
                    q <= n,
                    n == self.num_players,
                    dealer == self.dealer,
                    self.wf(),
                    d.len() == len,
                    len >= 9 * n,
                    order@.len() == n,
                    forall|k: int| 0 <= k < n ==> #[trigger] order@[k] == deal_seat(dealer as int, n as int, k),
                    self.deck.cards@ == d.subrange(0, len - (3 * n * round + 3 * q)),
                    self.players@.len() == start.len(),
                    forall|j: int| 0 <= j < n ==> (#[trigger] self.players@[j]).id == start[j].id,
                    forall|k: int|
                        0 <= k < n ==> #[trigger] self.players@[deal_seat(dealer as int, n as int, k)].hand@
                            == start[deal_seat(dealer as int, n as int, k)].hand@ + dealt_cards(d, n as int, k).take(
                            if k < q { 3 * round + 3 } else { 3 * round as int },
                        ),
                    self.mode == old(self).mode,
                    self.scores == old(self).scores,
                    self.trump == old(self).trump,
                    self.red_played == old(self).red_played,
                    self.black_played == old(self).black_played,
                    self.black_becomes_highest_trump == old(self).black_becomes_highest_trump,
                decreases n - q,
            {
                let p = order[q];
                proof {
                    lemma_deal_seat(dealer as int, n as int, q as int);
                }
                let mut c: usize = 0;
                while c < 3
                    invariant
                        round < 3,
                        q < n,
                        c <= 3,
                        p == deal_seat(dealer as int, n as int, q as int),
                        0 <= p < n,
                        n == self.num_players,
                        dealer == self.dealer,
                        self.wf(),
                        d.len() == len,
                        len >= 9 * n,
                        self.deck.cards@ == d.subrange(0, len - (3 * n * round + 3 * q + c)),
                        self.players@.len() == start.len(),
                        forall|j: int| 0 <= j < n ==> (#[trigger] self.players@[j]).id == start[j].id,
                        forall|k: int|
                            0 <= k < n ==> #[trigger] self.players@[deal_seat(dealer as int, n as int, k)].hand@
                                == start[deal_seat(dealer as int, n as int, k)].hand@ + dealt_cards(d, n as int, k).take(
                                if k < q { 3 * round + 3 } else if k == q { 3 * round + c } else { 3 * round as int },
                            ),
                        self.mode == old(self).mode,
                        self.scores == old(self).scores,
                        self.trump == old(self).trump,
                        self.red_played == old(self).red_played,
                        self.black_played == old(self).black_played,
                        self.black_becomes_highest_trump == old(self).black_becomes_highest_trump,
                    decreases 3 - c,
                {
                    proof {
                        lemma_deal_bound(n as int, round as int, q as int, c as int);
                    }
                    let card = self.deck.cards.pop().unwrap();
                    let ghost m = 3 * n * round + 3 * q + c;
                    proof {
                        assert(card == d[len - 1 - m]);
                        lemma_packet_index(n as int, round as int, q as int, c as int);
                        assert(dealt_cards(d, n as int, q as int)[3 * round + c] == card);
                    }
                    let ghost before = self.players@;
                    self.players[p].hand.push(card);
                    proof {
                        assert forall|k: int| 0 <= k < n implies #[trigger] self.players@[deal_seat(dealer as int, n as int, k)].hand@
                            == start[deal_seat(dealer as int, n as int, k)].hand@ + dealt_cards(d, n as int, k).take(
                                if k < q { 3 * round + 3 } else if k == q { 3 * round + c + 1 } else { 3 * round as int },
                            ) by {
                            lemma_deal_seat(dealer as int, n as int, k);
                            if k != q {
                                lemma_deal_seats_distinct(dealer as int, n as int, k, q as int);
                                assert(before[deal_seat(dealer as int, n as int, k)].hand@ == start[deal_seat(dealer as int, n as int, k)].hand@ + dealt_cards(d, n as int, k).take(
                                    if k < q { 3 * round + 3 } else { 3 * round as int }));
                            } else {
                                assert(before[p as int].hand@ == start[p as int].hand@ + dealt_cards(d, n as int, k).take(3 * round + c));
                                assert(dealt_cards(d, n as int, k).take(3 * round + c + 1) =~= dealt_cards(d, n as int, k).take(3 * round + c).push(card));
                                assert(self.players@[p as int].hand@ =~= start[p as int].hand@ + dealt_cards(d, n as int, k).take(3 * round + c + 1));
                            }
                        }
                        assert(self.deck.cards@ =~= d.subrange(0, len - (m + 1)));
                    }
                    c = c + 1;
                }
                q = q + 1;
            }
            proof {
                lemma_deal_bound(n as int, round as int, 0, 0);
            }
            round = round + 1;
        }
        proof {
            assert forall|k: int| 0 <= k < n implies 0 <= deal_seat(dealer as int, n as int, k) < n
                && (#[trigger] self.players@[deal_seat(dealer as int, n as int, k)]).id == start[deal_seat(dealer as int, n as int, k)].id
                && self.players@[deal_seat(dealer as int, n as int, k)].hand@ == start[deal_seat(dealer as int, n as int, k)].hand@ + dealt_cards(d, n as int, k) by {
                lemma_deal_seat(dealer as int, n as int, k);
                assert(dealt_cards(d, n as int, k).take(9) =~= dealt_cards(d, n as int, k));
            }
        }
    }
}

/// Why a card picked by its position in the shown hand is not taken.
#[derive(Debug, Clone, Copy, PartialEq, Eq, Structural)]
pub enum PickError {
    /// The position is past the end of the hand.
    OutOfRange,
    /// The hand holds no card with the picked card's number.
    NotInHand,
    /// The card may not be played now.
    Refused(PlayError),
}

/// Whether some card of `hand` bears the number `id`.
pub open spec fn holds_id(hand: Seq<Card>, id: u32) -> bool {
    exists|j: int| 0 <= j < hand.len() && (#[trigger] hand[j]).id == id
}

impl Game {
    /// What picking position `idx` of the hand of `player_idx`, as it is shown
    /// (see `display_order`), gives: the card, or why it is not taken.
    pub open spec fn pick_result(
        &self,
        player_idx: usize,
        idx: usize,
        lead: Option<Card>,
        bidder: usize,
        bid: Bid,
        trick_no: usize,
    ) -> Result<Card, PickError> {
        let shown = display_order(self.players@[player_idx as int].hand@);
        if idx >= shown.len() {
            Err(PickError::OutOfRange)
        } else if !holds_id(self.players@[player_idx as int].hand@, shown[idx as int].id) {
            Err(PickError::NotInHand)
        } else {
            match self.play_error(player_idx, shown[idx as int], lead, bidder, bid, trick_no) {
                Some(e) => Err(PickError::Refused(e)),
                None => Ok(shown[idx as int]),
            }
        }
    }

    /// Takes the card at position `idx` of the hand of `player_idx` as shown
    /// (jokers first, then by suit and rank), if it may be played (see
    /// `pick_result`).
    pub fn pick_card(
        &self,
        player_idx: usize,
        idx: usize,
        lead_card: Option<&Card>,
        bidder: usize,
        bidder_bid: Bid,
        trick_no: usize,
    ) -> (r: Result<Card, PickError>)
        requires
            player_idx < self.players@.len(),
            ({
                let shown = display_order(self.players@[player_idx as int].hand@);
                idx < shown.len() && shown[idx as int].rank == Rank::RJoker && !self.black_played
                    && bid_value(bidder_bid) >= 7 ==> bidder < self.players@.len()
            }),
        ensures
            r == self.pick_result(player_idx, idx, lead_of(lead_card), bidder, bidder_bid, trick_no),
    {
        let mut hand = self.players[player_idx].hand.clone();
        proof {
            assert(hand@ =~= self.players@[player_idx as int].hand@);
        }
        sort_hand(&mut hand);
        if idx >= hand.len() {
            return Err(PickError::OutOfRange);
        }
        let card = hand[idx];
        match self.players[player_idx].position_of_id(card.id) {
            None => {
                return Err(PickError::NotInHand);
            },
            Some(_) => {},
        }
        match self.check_play(player_idx, &card, lead_card, bidder, bidder_bid, trick_no) {
            Some(e) => Err(PickError::Refused(e)),
            None => Ok(card),
        }
    }
}

/// Whether some seat receives the card at depth `j` of the deck.
pub open spec fn is_dealt_position(n: int, j: int) -> bool {
    exists|k: int, i: int| 0 <= k < n && 0 <= i < 9 && #[trigger] deal_position(n, k, i) == j
}

/// Law: a deal hands out each of the top `9 n` cards of the deck exactly
/// once: every card a seat receives lies within them, two different
/// (seat, card) places take different cards, and every one of those cards goes
/// to some place.
pub proof fn lemma_deal_positions(n: int)
    requires
        n > 0,
    ensures
        forall|k: int, i: int|
            0 <= k < n && 0 <= i < 9 ==> 0 <= #[trigger] deal_position(n, k, i) < 9 * n,
        forall|k1: int, i1: int, k2: int, i2: int|
            0 <= k1 < n && 0 <= i1 < 9 && 0 <= k2 < n && 0 <= i2 < 9 && #[trigger] deal_position(
                n,
                k1,
                i1,
            ) == #[trigger] deal_position(n, k2, i2) ==> k1 == k2 && i1 == i2,
        forall|j: int| 0 <= j < 9 * n ==> #[trigger] is_dealt_position(n, j),
{
    assert forall|k: int, i: int| 0 <= k < n && 0 <= i < 9 implies 0 <= #[trigger] deal_position(
        n,
        k,
        i,
    ) < 9 * n by {
        lemma_split_position(n, k, i);
    }
    assert forall|k1: int, i1: int, k2: int, i2: int|
        0 <= k1 < n && 0 <= i1 < 9 && 0 <= k2 < n && 0 <= i2 < 9 && #[trigger] deal_position(
            n,
            k1,
            i1,
        ) == #[trigger] deal_position(n, k2, i2) implies k1 == k2 && i1 == i2 by {
        lemma_split_position(n, k1, i1);
        lemma_split_position(n, k2, i2);
    }
    assert forall|j: int| 0 <= j < 9 * n implies #[trigger] is_dealt_position(n, j) by {
        let c = j % 3;
        let m = j / 3;
        vstd::arithmetic::div_mod::lemma_fundamental_div_mod(j, 3);
        assert(0 <= m < 3 * n) by (nonlinear_arith)
            requires
                j == 3 * m + c,
                0 <= c < 3,
                0 <= j < 9 * n,
        ;
        let t = m / n;
        let k = m % n;
        vstd::arithmetic::div_mod::lemma_fundamental_div_mod(m, n);
        assert(0 <= t < 3) by (nonlinear_arith)
            requires
                m == n * t + k,
                0 <= k < n,
                0 <= m < 3 * n,
        ;
        let i = 3 * t + c;
        lemma_split_position(n, k, i);
        assert(deal_position(n, k, i) == j) by (nonlinear_arith)
            requires
                deal_position(n, k, i) == 3 * (n * t + k) + c,
                m == n * t + k,
                j == 3 * m + c,
        ;
    }
}

/// The position of a dealt card, split into its packet round, seat and place
/// within the packet.
proof fn lemma_split_position(n: int, k: int, i: int)
    requires
        n > 0,
        0 <= k < n,
        0 <= i < 9,
    ensures
        deal_position(n, k, i) == 3 * (n * (i / 3) + k) + i % 3,
        0 <= deal_position(n, k, i) < 9 * n,
        deal_position(n, k, i) / 3 == n * (i / 3) + k,
        deal_position(n, k, i) % 3 == i % 3,
        (n * (i / 3) + k) / n == i / 3,
        (n * (i / 3) + k) % n == k,
        i == 3 * (i / 3) + i % 3,
{
    let t = i / 3;
    let c = i % 3;
    vstd::arithmetic::div_mod::lemma_fundamental_div_mod(i, 3);
    assert(0 <= t < 3);
    assert(3 * n * t + 3 * k + c == 3 * (n * t + k) + c) by (nonlinear_arith);
    assert(0 <= 3 * (n * t + k) + c < 9 * n) by (nonlinear_arith)
        requires
            0 <= t < 3,
            0 <= k < n,
            0 <= c < 3,
    ;
    assert(0 <= n * t + k) by (nonlinear_arith)
        requires
            0 <= t,
            0 <= k,
            n > 0,
    ;
    vstd::arithmetic::div_mod::lemma_fundamental_div_mod_converse(
        3 * (n * t + k) + c,
        3,
        n * t + k,
        c,
    );
    vstd::arithmetic::div_mod::lemma_fundamental_div_mod_converse(n * t + k, n, t, k);
}

/// Law: the play rules. The black joker may always be played, and the red
/// joker once the black one has been; any card may lead a trick; a card of
/// the suit led may always be played; a card of another suit (not a joker)
/// is refused exactly when the hand holds a card of the suit led that is not
/// a joker.
pub proof fn lemma_play_rules(
    g: Game,
    player_idx: usize,
    chosen: Card,
    lead: Option<Card>,
    bidder: usize,
    bid: Bid,
    trick_no: usize,
)
    ensures
        chosen.rank == Rank::BJoker ==> g.play_error(player_idx, chosen, lead, bidder, bid, trick_no)
            is None,
        chosen.rank == Rank::RJoker && g.black_played ==> g.play_error(
            player_idx,
            chosen,
            lead,
            bidder,
            bid,
            trick_no,
        ) is None,
        !rank_is_joker(chosen.rank) && lead is None ==> g.play_error(
            player_idx,
            chosen,
            lead,
            bidder,
            bid,
            trick_no,
        ) is None,
        !rank_is_joker(chosen.rank) && lead is Some && chosen.suit == lead->0.suit ==> g.play_error(
            player_idx,
            chosen,
            lead,
            bidder,
            bid,
            trick_no,
        ) is None,
        !rank_is_joker(chosen.rank) && lead is Some && chosen.suit != lead->0.suit ==> (g.play_error(
            player_idx,
            chosen,
            lead,
            bidder,
            bid,
            trick_no,
        ) is Some <==> holds_suit(g.players@[player_idx as int].hand@, lead->0.suit)),
{
}

/// Law: the red joker before the black one. While the black joker has not
/// been played, the red joker is refused unless the bid is seven or more, the
/// bidder holds both the black and the red joker, and it is one of the first
/// three tricks; in particular a bidder without the black joker cannot lead
/// it out early.
pub proof fn lemma_red_joker_rule(
    g: Game,
    player_idx: usize,
    chosen: Card,
    lead: Option<Card>,
    bidder: usize,
    bid: Bid,
    trick_no: usize,
)
    requires
        chosen.rank == Rank::RJoker,
        !g.black_played,
    ensures
        g.play_error(player_idx, chosen, lead, bidder, bid, trick_no) == if bid_value(bid) >= 7
            && holds_rank(g.players@[bidder as int].hand@, Rank::BJoker) && holds_rank(
            g.players@[bidder as int].hand@,
            Rank::RJoker,
        ) && trick_no <= 3 {
            None::<PlayError>
        } else {
            Some(PlayError::RedBeforeBlack)
        },
        !holds_rank(g.players@[bidder as int].hand@, Rank::BJoker) ==> g.play_error(
            player_idx,
            chosen,
            lead,
            bidder,
            bid,
            trick_no,
        ) == Some(PlayError::RedBeforeBlack),
{
}

} // verus!
