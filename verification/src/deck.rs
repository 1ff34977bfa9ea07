//! The decks of the three game modes.
use crate::cards::{rank_is_joker, rank_value, Card, GameMode, Rank, Suit};
use rand::seq::SliceRandom;
use vstd::prelude::*;

verus! {

/// The rank whose face value is `v` (2 to 14).
pub open spec fn rank_of_value(v: int) -> Rank {
    if v == 2 {
        Rank::Two
    } else if v == 3 {
        Rank::Three
    } else if v == 4 {
        Rank::Four
    } else if v == 5 {
        Rank::Five
    } else if v == 6 {
        Rank::Six
    } else if v == 7 {
        Rank::Seven
    } else if v == 8 {
        Rank::Eight
    } else if v == 9 {
        Rank::Nine
    } else if v == 10 {
        Rank::Ten
    } else if v == 11 {
        Rank::Jack
    } else if v == 12 {
        Rank::Queen
    } else if v == 13 {
        Rank::King
    } else {
        Rank::Ace
    }
}

/// The suit at position `k` of the order Clubs, Diamonds, Hearts, Spades.
pub open spec fn suit_at(k: int) -> Suit {
    if k == 0 {
        Suit::Clubs
    } else if k == 1 {
        Suit::Diamonds
    } else if k == 2 {
        Suit::Hearts
    } else {
        Suit::Spades
    }
}

/// Whether a mode plays with the suited card of face value `v` (2 to 14) in
/// `suit`: Hokm for six players with all of them, Baloot with Six to Ace, and
/// Hokm for four players with Six to Ace except the Six of Diamonds and the
/// Six of Clubs.
pub open spec fn includes_card(mode: GameMode, suit: Suit, v: int) -> bool {
    match mode {
        GameMode::Hokm4 => 6 <= v && !(v == 6 && (suit == Suit::Diamonds || suit == Suit::Clubs)),
        GameMode::Hokm6 => true,
        GameMode::Baloot => 6 <= v,
    }
}

/// The ranks of `suit` that `mode` plays with, of face value `v` or more, in
/// increasing order.
pub open spec fn ranks_from(mode: GameMode, suit: Suit, v: int) -> Seq<Rank>
    decreases 15 - v,
{
    if v > 14 {
        Seq::empty()
    } else {
        (if includes_card(mode, suit, v) {
            seq![rank_of_value(v)]
        } else {
            Seq::<Rank>::empty()
        }) + ranks_from(mode, suit, v + 1)
    }
}

/// The (rank, suit) pairs that `mode` plays with in `suit`, by increasing rank.
pub open spec fn suit_pairs(mode: GameMode, suit: Suit) -> Seq<(Rank, Suit)> {
    ranks_from(mode, suit, 2).map_values(|r: Rank| (r, suit))
}

/// The suited (rank, suit) pairs of the first `k` suits, suit after suit.
pub open spec fn suited_upto(mode: GameMode, k: int) -> Seq<(Rank, Suit)>
    decreases k,
{
    if k <= 0 {
        Seq::empty()
    } else {
        suited_upto(mode, k - 1) + suit_pairs(mode, suit_at(k - 1))
    }
}

/// The jokers of a mode: the black joker (as a Spade) and then the red joker
/// (as a Heart) in both Hokm modes, none in Baloot.
pub open spec fn joker_pairs(mode: GameMode) -> Seq<(Rank, Suit)> {
    match mode {
        GameMode::Baloot => Seq::empty(),
        _ => seq![(Rank::BJoker, Suit::Spades), (Rank::RJoker, Suit::Hearts)],
    }
}

/// The (rank, suit) pairs of a fresh deck of `mode`, in order.
pub open spec fn deck_layout(mode: GameMode) -> Seq<(Rank, Suit)> {
    suited_upto(mode, 4) + joker_pairs(mode)
}

/// The cards for a list of (rank, suit) pairs: numbered from 1 in order, none
/// marked as trump.
pub open spec fn numbered(l: Seq<(Rank, Suit)>) -> Seq<Card> {
    Seq::new(
        l.len(),
        |i: int| Card { id: (i + 1) as u32, rank: l[i].0, suit: l[i].1, trump: false },
    )
}

/// A fresh, unshuffled deck of `mode`.
pub open spec fn fresh_deck(mode: GameMode) -> Seq<Card> {
    numbered(deck_layout(mode))
}

/// The cards of `cards` with their trump mark set exactly for the suit `trump`.
pub open spec fn marked(cards: Seq<Card>, trump: Suit) -> Seq<Card> {
    cards.map_values(|c: Card| Card { trump: c.suit == trump, ..c })
}

#[derive(Debug, Clone)]
pub struct Deck {
    pub cards: Vec<Card>,
}

/// Shuffles the cards in place with `rand`'s `SliceRandom::shuffle` and the
/// thread-local generator of `rand::thread_rng`. The contract claims what holds
/// of every outcome of that random shuffle (a sequence of swaps): the same
/// cards, in some order. Which order comes out is left unsaid.
#[verifier::external_body]
fn shuffle_in_place(cards: &mut Vec<Card>)
    ensures
        final(cards)@.len() == old(cards)@.len(),
        final(cards)@.to_multiset() == old(cards)@.to_multiset(),
{
    cards.shuffle(&mut rand::thread_rng());
}

fn suit_at_index(k: usize) -> (s: Suit)
    requires
        k < 4,
    ensures
        s == suit_at(k as int),
{
    if k == 0 {
        Suit::Clubs
    } else if k == 1 {
        Suit::Diamonds
    } else if k == 2 {
        Suit::Hearts
    } else {
        Suit::Spades
    }
}

fn rank_for_value(v: u8) -> (r: Rank)
    requires
        2 <= v <= 14,
    ensures
        r == rank_of_value(v as int),
{
    match v {
        2 => Rank::Two,
        3 => Rank::Three,
        4 => Rank::Four,
        5 => Rank::Five,
        6 => Rank::Six,
        7 => Rank::Seven,
        8 => Rank::Eight,
        9 => Rank::Nine,
        10 => Rank::Ten,
        11 => Rank::Jack,
        12 => Rank::Queen,
        13 => Rank::King,
        _ => Rank::Ace,
    }
}

/// Whether `mode` plays with cards of `rank` at all (before the two Sixes that
/// Hokm for four players leaves out).
fn include_rank(mode: GameMode, rank: Rank) -> (b: bool)
    ensures
        b == match mode {
            GameMode::Hokm4 => rank_value(rank) >= 6 || rank_is_joker(rank),
            GameMode::Hokm6 => !rank_is_joker(rank),
            GameMode::Baloot => rank_value(rank) >= 6,
        },
{
    match mode {
        GameMode::Hokm4 => match rank {
            Rank::Six | Rank::Seven | Rank::Eight | Rank::Nine | Rank::Ten | Rank::Jack
            | Rank::Queen | Rank::King | Rank::Ace | Rank::BJoker | Rank::RJoker => true,
            _ => false,
        },
        GameMode::Hokm6 => match rank {
            Rank::BJoker | Rank::RJoker => false,
            _ => true,
        },
        GameMode::Baloot => match rank {
            Rank::Six | Rank::Seven | Rank::Eight | Rank::Nine | Rank::Ten | Rank::Jack
            | Rank::Queen | Rank::King | Rank::Ace => true,
            _ => false,
        },
    }
}

proof fn lemma_ranks_len(mode: GameMode, suit: Suit, v: int)
    requires
        2 <= v <= 15,
    ensures
        ranks_from(mode, suit, v).len() <= 15 - v,
    decreases 15 - v,
{
    if v <= 14 {
        lemma_ranks_len(mode, suit, v + 1);
    }
}

proof fn lemma_suited_upto_len(mode: GameMode, k: int)
    requires
        0 <= k <= 4,
    ensures
        suited_upto(mode, k).len() <= 13 * k,
    decreases k,
{
    if k > 0 {
        lemma_suited_upto_len(mode, k - 1);
        lemma_ranks_len(mode, suit_at(k - 1), 2);
    }
}

proof fn lemma_numbered_push(l: Seq<(Rank, Suit)>, x: (Rank, Suit))
    ensures
        numbered(l.push(x)) == numbered(l).push(
            Card { id: (l.len() + 1) as u32, rank: x.0, suit: x.1, trump: false },
        ),
{
    assert(numbered(l.push(x)) =~= numbered(l).push(
        Card { id: (l.len() + 1) as u32, rank: x.0, suit: x.1, trump: false },
    ));
}

impl Deck {
    /// A fresh deck for `mode`: suit after suit (Clubs, Diamonds, Hearts,
    /// Spades), each by increasing rank, the cards the mode plays with, then its
    /// jokers; numbered from 1 and none marked as trump.
    pub fn new_for_mode(mode: GameMode) -> (d: Deck)
        ensures
            d.cards@ == fresh_deck(mode),
    {
        let mut cards: Vec<Card> = Vec::new();
        let mut id: u32 = 1;
        let ghost mut done: Seq<(Rank, Suit)> = Seq::empty();
        let mut si: usize = 0;
        while si < 4
            invariant
                si <= 4,
                done == suited_upto(mode, si as int),
                cards@ == numbered(done),
                id == done.len() + 1,
            decreases 4 - si,
        {
            let suit = suit_at_index(si);
            proof {
                lemma_suited_upto_len(mode, si as int);
                assert(ranks_from(mode, suit, 2).map_values(|r: Rank| (r, suit)) == suit_pairs(
                    mode,
                    suit,
                ));
            }
            let mut r: u8 = 2;
            while r <= 14
                invariant
                    2 <= r <= 15,
                    si < 4,
                    suit == suit_at(si as int),
                    done.len() <= 13 * si + (r - 2),
                    done + ranks_from(mode, suit, r as int).map_values(|x: Rank| (x, suit))
                        == suited_upto(mode, si + 1),
                    cards@ == numbered(done),
                    id == done.len() + 1,
                decreases 15 - r,
            {
                let rank = rank_for_value(r);
                let ghost rest = ranks_from(mode, suit, r + 1);
                let ghost f = |x: Rank| (x, suit);
                if include_rank(mode, rank) && !(match mode {
                    GameMode::Hokm4 => true,
                    _ => false,
                } && rank == Rank::Six && (suit == Suit::Diamonds || suit == Suit::Clubs)) {
                    proof {
                        assert(includes_card(mode, suit, r as int));
                        assert(ranks_from(mode, suit, r as int) == seq![rank] + rest);
                        assert((seq![rank] + rest).map_values(f) =~= seq![(rank, suit)]
                            + rest.map_values(f));
                        assert(done + (seq![(rank, suit)] + rest.map_values(f)) =~= done.push(
                            (rank, suit),
                        ) + rest.map_values(f));
                        lemma_numbered_push(done, (rank, suit));
                        done = done.push((rank, suit));
                    }
                    cards.push(Card::new(id, rank, suit));
                    id = id + 1;
                } else {
                    proof {
                        assert(!includes_card(mode, suit, r as int));
                        assert(ranks_from(mode, suit, r as int) =~= rest);
                    }
                }
                r = r + 1;
            }
            proof {
                assert(ranks_from(mode, suit, 15).map_values(|x: Rank| (x, suit)) =~= Seq::empty());
                assert(done =~= done + Seq::<(Rank, Suit)>::empty());
            }
            si = si + 1;
        }
        proof {
            lemma_suited_upto_len(mode, 4);
        }
        match mode {
            GameMode::Hokm4 | GameMode::Hokm6 => {
                proof {
                    lemma_numbered_push(done, (Rank::BJoker, Suit::Spades));
                    lemma_numbered_push(done.push((Rank::BJoker, Suit::Spades)), (Rank::RJoker, Suit::Hearts));
                    assert(done.push((Rank::BJoker, Suit::Spades)).push((Rank::RJoker, Suit::Hearts))
                        =~= deck_layout(mode));
                }
                cards.push(Card::new(id, Rank::BJoker, Suit::Spades));
                id = id + 1;
                cards.push(Card::new(id, Rank::RJoker, Suit::Hearts));
            },
            GameMode::Baloot => {
                proof {
                    assert(done =~= deck_layout(mode));
                }
            },
        }
        Deck { cards }
    }

    /// Shuffles the deck: afterwards it holds the same cards, in an order that
    /// the random generator decides.
    pub fn shuffle(&mut self)
        ensures
            final(self).cards@.len() == old(self).cards@.len(),
            final(self).cards@.to_multiset() == old(self).cards@.to_multiset(),
    {
        shuffle_in_place(&mut self.cards);
    }

    /// Marks as trump exactly the cards of the suit `trump`.
    pub fn mark_trump(&mut self, trump: Suit)
        ensures
            final(self).cards@ == marked(old(self).cards@, trump),
    {
        let n = self.cards.len();
        let mut i: usize = 0;
        while i < n
            invariant
                n == self.cards@.len(),
                n == old(self).cards@.len(),
                i <= n,
                forall|j: int|
                    0 <= j < n ==> #[trigger] self.cards@[j] == if j < i {
                        Card { trump: old(self).cards@[j].suit == trump, ..old(self).cards@[j] }
                    } else {
                        old(self).cards@[j]
                    },
            decreases n - i,
        {
            let c = self.cards[i];
            self.cards.set(i, Card { trump: c.suit == trump, ..c });
            i = i + 1;
        }
        assert(self.cards@ =~= marked(old(self).cards@, trump));
    }
}

/// The number of suited cards of `suit` that `mode` plays with from face
/// value `v` on: all of them in Hokm for six, from the Six in Baloot, and in
/// Hokm for four from the Six in Hearts and Spades and from the Seven in Clubs
/// and Diamonds.
pub open spec fn count_from(mode: GameMode, suit: Suit, v: int) -> int {
    let low: int = match mode {
        GameMode::Hokm6 => 2,
        GameMode::Baloot => 6,
        GameMode::Hokm4 => if suit == Suit::Clubs || suit == Suit::Diamonds {
            7
        } else {
            6
        },
    };
    if v <= low {
        15 - low
    } else if v <= 15 {
        15 - v
    } else {
        0
    }
}

proof fn lemma_ranks_count(mode: GameMode, suit: Suit, v: int)
    requires
        2 <= v <= 15,
    ensures
        ranks_from(mode, suit, v).len() == count_from(mode, suit, v),
    decreases 15 - v,
{
    if v <= 14 {
        lemma_ranks_count(mode, suit, v + 1);
    }
}

/// Law: a fresh deck holds exactly nine cards for each seat of its mode
/// (36 cards for Hokm with four players and for Baloot, 54 for Hokm with six),
/// numbered from 1 in order and none marked as trump; so dealing a fresh deck
/// empties it.
pub proof fn lemma_fresh_deck_size(mode: GameMode)
    ensures
        fresh_deck(mode).len() == match mode {
            GameMode::Hokm4 => 36int,
            GameMode::Hokm6 => 54int,
            GameMode::Baloot => 36int,
        },
        fresh_deck(mode).len() == 9 * (match mode {
            GameMode::Hokm6 => 6int,
            _ => 4int,
        }),
        forall|i: int|
            0 <= i < fresh_deck(mode).len() ==> (#[trigger] fresh_deck(mode)[i]).id == i + 1
                && !fresh_deck(mode)[i].trump,
{
    lemma_ranks_count(mode, Suit::Clubs, 2);
    lemma_ranks_count(mode, Suit::Diamonds, 2);
    lemma_ranks_count(mode, Suit::Hearts, 2);
    lemma_ranks_count(mode, Suit::Spades, 2);
    lemma_suited_upto_len(mode, 4);
    assert(suited_upto(mode, 0).len() == 0);
    assert(suited_upto(mode, 1).len() == ranks_from(mode, suit_at(0), 2).len());
    assert(suited_upto(mode, 2).len() == suited_upto(mode, 1).len() + ranks_from(mode, suit_at(1), 2).len());
    assert(suited_upto(mode, 3).len() == suited_upto(mode, 2).len() + ranks_from(mode, suit_at(2), 2).len());
    assert(suited_upto(mode, 4).len() == suited_upto(mode, 3).len() + ranks_from(mode, suit_at(3), 2).len());
}

/// Whether `mode` plays with the card of rank `r` and suit `s`: a suited
/// card when `includes_card` says so, and in both Hokm modes the black joker
/// (as a Spade) and the red joker (as a Heart).
pub open spec fn plays_with(mode: GameMode, r: Rank, s: Suit) -> bool {
    if rank_is_joker(r) {
        mode != GameMode::Baloot && ((r == Rank::BJoker && s == Suit::Spades) || (r == Rank::RJoker
            && s == Suit::Hearts))
    } else {
        includes_card(mode, s, rank_value(r) as int)
    }
}

/// The position of a suit in the order of the deck.
pub open spec fn suit_index(s: Suit) -> int {
    match s {
        Suit::Clubs => 0,
        Suit::Diamonds => 1,
        Suit::Hearts => 2,
        Suit::Spades => 3,
    }
}

proof fn lemma_rank_of_value(r: Rank)
    ensures
        !rank_is_joker(r) ==> 2 <= rank_value(r) <= 14 && rank_of_value(rank_value(r) as int) == r,
{
}

proof fn lemma_ranks_from_contents(mode: GameMode, suit: Suit, v: int)
    requires
        2 <= v <= 15,
    ensures
        forall|r: Rank|
            #[trigger] ranks_from(mode, suit, v).contains(r) <==> (!rank_is_joker(r) && v
                <= rank_value(r) && includes_card(mode, suit, rank_value(r) as int)),
        forall|i: int, j: int|
            0 <= i < j < ranks_from(mode, suit, v).len() ==> rank_value(
                #[trigger] ranks_from(mode, suit, v)[i],
            ) < rank_value(#[trigger] ranks_from(mode, suit, v)[j]),
        forall|i: int|
            0 <= i < ranks_from(mode, suit, v).len() ==> !rank_is_joker(
                #[trigger] ranks_from(mode, suit, v)[i],
            ) && v <= rank_value(ranks_from(mode, suit, v)[i]),
    decreases 15 - v,
{
    if v <= 14 {
        lemma_ranks_from_contents(mode, suit, v + 1);
        let head = if includes_card(mode, suit, v) {
            seq![rank_of_value(v)]
        } else {
            Seq::<Rank>::empty()
        };
        let rest = ranks_from(mode, suit, v + 1);
        let all = ranks_from(mode, suit, v);
        assert(all == head + rest);
        assert forall|r: Rank| #[trigger] all.contains(r) <==> (!rank_is_joker(r) && v
            <= rank_value(r) && includes_card(mode, suit, rank_value(r) as int)) by {
            lemma_rank_of_value(r);
            if all.contains(r) {
                let i = choose|i: int| 0 <= i < all.len() && all[i] == r;
                if i >= head.len() {
                    assert(rest[i - head.len()] == r);
                    assert(rest.contains(r));
                }
            }
            if !rank_is_joker(r) && v <= rank_value(r) && includes_card(
                mode,
                suit,
                rank_value(r) as int,
            ) {
                if rank_value(r) == v {
                    assert(all[0] == r);
                } else {
                    assert(rest.contains(r));
                    let i = choose|i: int| 0 <= i < rest.len() && rest[i] == r;
                    assert(all[i + head.len()] == r);
                }
            }
        }
    } else {
        assert(ranks_from(mode, suit, v) =~= Seq::<Rank>::empty());
    }
}

proof fn lemma_suited_upto_contents(mode: GameMode, k: int)
    requires
        0 <= k <= 4,
    ensures
        forall|r: Rank, s: Suit|
            #[trigger] suited_upto(mode, k).contains((r, s)) <==> (suit_index(s) < k && !rank_is_joker(
                r,
            ) && includes_card(mode, s, rank_value(r) as int)),
        forall|i: int, j: int|
            0 <= i < j < suited_upto(mode, k).len() ==> #[trigger] suited_upto(mode, k)[i]
                != #[trigger] suited_upto(mode, k)[j],
    decreases k,
{
    if k > 0 {
        lemma_suited_upto_contents(mode, k - 1);
        let suit = suit_at(k - 1);
        lemma_ranks_from_contents(mode, suit, 2);
        let a = suited_upto(mode, k - 1);
        let rs = ranks_from(mode, suit, 2);
        let b = suit_pairs(mode, suit);
        let all = suited_upto(mode, k);
        assert(all == a + b);
        assert(b.len() == rs.len());
        assert forall|i: int| 0 <= i < b.len() implies #[trigger] b[i] == (rs[i], suit) by {}
        assert forall|r: Rank, s: Suit| #[trigger] all.contains((r, s)) <==> (suit_index(s) < k
            && !rank_is_joker(r) && includes_card(mode, s, rank_value(r) as int)) by {
            if all.contains((r, s)) {
                let i = choose|i: int| 0 <= i < all.len() && all[i] == (r, s);
                if i < a.len() {
                    assert(a[i] == (r, s));
                    assert(a.contains((r, s)));
                } else {
                    assert(b[i - a.len()] == (r, s));
                    assert(rs[i - a.len()] == r);
                    assert(rs.contains(r));
                }
            }
            if suit_index(s) < k && !rank_is_joker(r) && includes_card(mode, s, rank_value(r) as int) {
                if suit_index(s) < k - 1 {
                    assert(a.contains((r, s)));
                    let i = choose|i: int| 0 <= i < a.len() && a[i] == (r, s);
                    assert(all[i] == (r, s));
                } else {
                    assert(s == suit);
                    assert(rs.contains(r));
                    let i = choose|i: int| 0 <= i < rs.len() && rs[i] == r;
                    assert(all[a.len() + i] == (r, s));
                }
            }
        }
        assert forall|i: int, j: int| 0 <= i < j < all.len() implies #[trigger] all[i]
            != #[trigger] all[j] by {
            if j < a.len() {
                assert(all[i] == a[i] && all[j] == a[j]);
            } else if i < a.len() {
                assert(all[i] == a[i]);
                assert(a[i] == (a[i].0, a[i].1));
                assert(a.contains((a[i].0, a[i].1)));
                assert(suit_index(a[i].1) < k - 1);
                assert(all[j] == b[j - a.len()]);
            } else {
                assert(all[i] == b[i - a.len()] && all[j] == b[j - a.len()]);
            }
        }
    } else {
        assert(suited_upto(mode, k) =~= Seq::<(Rank, Suit)>::empty());
    }
}

/// Law: a fresh deck holds exactly the cards its mode plays with (see
/// `plays_with`), each of them once.
pub proof fn lemma_fresh_deck_contents(mode: GameMode)
    ensures
        forall|r: Rank, s: Suit|
            (exists|i: int|
                0 <= i < fresh_deck(mode).len() && (#[trigger] fresh_deck(mode)[i]).rank == r
                    && fresh_deck(mode)[i].suit == s) <==> #[trigger] plays_with(mode, r, s),
        forall|i: int, j: int|
            0 <= i < j < fresh_deck(mode).len() ==> (#[trigger] fresh_deck(mode)[i]).rank != (
            #[trigger] fresh_deck(mode)[j]).rank || fresh_deck(mode)[i].suit != fresh_deck(
                mode,
            )[j].suit,
{
    lemma_suited_upto_contents(mode, 4);
    let a = suited_upto(mode, 4);
    let jk = joker_pairs(mode);
    let l = deck_layout(mode);
    let d = fresh_deck(mode);
    assert(l == a + jk);
    assert forall|r: Rank, s: Suit|
        (exists|i: int| 0 <= i < d.len() && (#[trigger] d[i]).rank == r && d[i].suit == s)
            <==> #[trigger] plays_with(mode, r, s) by {
        if exists|i: int| 0 <= i < d.len() && (#[trigger] d[i]).rank == r && d[i].suit == s {
            let i = choose|i: int| 0 <= i < d.len() && (#[trigger] d[i]).rank == r && d[i].suit == s;
            assert(l[i] == (r, s));
            if i < a.len() {
                assert(a[i] == (r, s));
                assert(a.contains((r, s)));
            } else {
                assert(jk[i - a.len()] == (r, s));
            }
        }
        if plays_with(mode, r, s) {
            if rank_is_joker(r) {
                if r == Rank::BJoker {
                    assert(d[a.len() as int].rank == r && d[a.len() as int].suit == s);
                } else {
                    assert(d[a.len() + 1int].rank == r && d[a.len() + 1int].suit == s);
                }
            } else {
                assert(a.contains((r, s)));
                let i = choose|i: int| 0 <= i < a.len() && a[i] == (r, s);
                assert(d[i].rank == r && d[i].suit == s);
            }
        }
    }
    assert forall|i: int, j: int| 0 <= i < j < d.len() implies (#[trigger] d[i]).rank != (
    #[trigger] d[j]).rank || d[i].suit != d[j].suit by {
        assert(d[i].rank == l[i].0 && d[i].suit == l[i].1);
        assert(d[j].rank == l[j].0 && d[j].suit == l[j].1);
        if j < a.len() {
            assert(l[i] == a[i] && l[j] == a[j]);
        } else if i < a.len() {
            assert(a[i] == (a[i].0, a[i].1));
            assert(a.contains((a[i].0, a[i].1)));
            assert(!rank_is_joker(a[i].0));
        }
    }
}

/// Law: marking trumps keeps every card's number, rank and suit, marks
/// exactly the cards of the trump suit, and a second marking replaces the
/// first.
pub proof fn lemma_marking(cards: Seq<Card>, t1: Suit, t2: Suit)
    ensures
        marked(cards, t1).len() == cards.len(),
        forall|i: int|
            0 <= i < cards.len() ==> (#[trigger] marked(cards, t1)[i]).id == cards[i].id
                && marked(cards, t1)[i].rank == cards[i].rank && marked(cards, t1)[i].suit
                == cards[i].suit && marked(cards, t1)[i].trump == (cards[i].suit == t1),
        marked(marked(cards, t1), t2) == marked(cards, t2),
{
    assert(marked(marked(cards, t1), t2) =~= marked(cards, t2));
}

} // verus!
