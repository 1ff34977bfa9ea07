use crate::text::{ascii_lower, decimal_two, push_decimal_two, trim, trim_bounds, trim_end, trim_start, word_at, word_match};
use std::cmp::Ordering;
use vstd::prelude::*;

verus! {

/// The three variants of the game that the program offers.
#[derive(Debug, Clone, Copy, PartialEq, Eq, Structural)]
pub enum GameMode {
    Hokm4,
    Hokm6,
    Baloot,
}

/// The rank of a card, from Two up to Ace, and the two jokers.
#[derive(Debug, Clone, Copy, PartialEq, Eq, Structural)]
pub enum Rank {
    Two,
    Three,
    Four,
    Five,
    Six,
    Seven,
    Eight,
    Nine,
    Ten,
    Jack,
    Queen,
    King,
    Ace,
    /// The black joker.
    BJoker,
    /// The red joker.
    RJoker,
}

/// The four suits, in the order Clubs, Diamonds, Hearts, Spades.
#[derive(Debug, Clone, Copy, PartialEq, Eq, Structural)]
pub enum Suit {
    Clubs,
    Diamonds,
    Hearts,
    Spades,
}

/// Whether a rank is one of the two jokers.
pub open spec fn rank_is_joker(r: Rank) -> bool {
    r == Rank::BJoker || r == Rank::RJoker
}

/// The face value of a rank: 2 to 14 for Two to Ace, and 0 for a joker.
pub open spec fn rank_value(r: Rank) -> u8 {
    match r {
        Rank::Two => 2,
        Rank::Three => 3,
        Rank::Four => 4,
        Rank::Five => 5,
        Rank::Six => 6,
        Rank::Seven => 7,
        Rank::Eight => 8,
        Rank::Nine => 9,
        Rank::Ten => 10,
        Rank::Jack => 11,
        Rank::Queen => 12,
        Rank::King => 13,
        Rank::Ace => 14,
        Rank::BJoker => 0,
        Rank::RJoker => 0,
    }
}

impl Rank {
    pub fn is_joker(self) -> (b: bool)
        ensures
            b == rank_is_joker(self),
    {
        match self {
            Rank::BJoker | Rank::RJoker => true,
            _ => false,
        }
    }

    pub fn num_value(self) -> (v: u8)
        ensures
            v == rank_value(self),
    {
        match self {
            Rank::Two => 2,
            Rank::Three => 3,
            Rank::Four => 4,
            Rank::Five => 5,
            Rank::Six => 6,
            Rank::Seven => 7,
            Rank::Eight => 8,
            Rank::Nine => 9,
            Rank::Ten => 10,
            Rank::Jack => 11,
            Rank::Queen => 12,
            Rank::King => 13,
            Rank::Ace => 14,
            Rank::BJoker | Rank::RJoker => 0,
        }
    }
}

/// A card: its number in the deck it was made for, its rank and suit, and
/// whether it belongs to the trump suit of the current hand.
#[derive(Debug, Clone, Copy, PartialEq, Eq, Structural)]
pub struct Card {
    pub id: u32,
    pub rank: Rank,
    pub suit: Suit,
    pub trump: bool,
}

impl Card {
    /// A card that is not (yet) marked as trump.
    pub fn new(id: u32, rank: Rank, suit: Suit) -> (c: Card)
        ensures
            c == (Card { id, rank, suit, trump: false }),
    {
        Card { id, rank, suit, trump: false }
    }

    pub fn is_joker(&self) -> (b: bool)
        ensures
            b == rank_is_joker(self.rank),
    {
        self.rank.is_joker()
    }
}


/// The name that `{:?}` writes for a rank.
pub open spec fn rank_name(r: Rank) -> Seq<char> {
    match r {
        Rank::Two => "Two"@,
        Rank::Three => "Three"@,
        Rank::Four => "Four"@,
        Rank::Five => "Five"@,
        Rank::Six => "Six"@,
        Rank::Seven => "Seven"@,
        Rank::Eight => "Eight"@,
        Rank::Nine => "Nine"@,
        Rank::Ten => "Ten"@,
        Rank::Jack => "Jack"@,
        Rank::Queen => "Queen"@,
        Rank::King => "King"@,
        Rank::Ace => "Ace"@,
        Rank::BJoker => "BJoker"@,
        Rank::RJoker => "RJoker"@,
    }
}

/// The name that `{:?}` writes for a suit.
pub open spec fn suit_name(s: Suit) -> Seq<char> {
    match s {
        Suit::Clubs => "Clubs"@,
        Suit::Diamonds => "Diamonds"@,
        Suit::Hearts => "Hearts"@,
        Suit::Spades => "Spades"@,
    }
}

/// How a card is shown to the players: `#`, its number on two digits, a space,
/// its name (`Black Joker`, `Red Joker`, or `<rank> of <suit>`), and
/// ` (Trump)` when it is marked as trump.
pub open spec fn card_text(c: Card) -> Seq<char> {
    let name = if c.rank == Rank::BJoker {
        "Black Joker"@
    } else if c.rank == Rank::RJoker {
        "Red Joker"@
    } else {
        rank_name(c.rank) + " of "@ + suit_name(c.suit)
    };
    "#"@ + decimal_two(c.id as nat) + " "@ + name + if c.trump {
        " (Trump)"@
    } else {
        Seq::empty()
    }
}

/// The suit that a line of input names: after trimming white space, one of
/// `clubs`/`club`/`c`, `diamonds`/`diamond`/`d`, `hearts`/`heart`/`h`,
/// `spades`/`spade`/`s`, in any mix of upper and lower case.
pub open spec fn suit_of_text(t: Seq<char>) -> Option<Suit> {
    let w = trim(t);
    if word_match(w, "clubs"@) || word_match(w, "club"@) || word_match(w, "c"@) {
        Some(Suit::Clubs)
    } else if word_match(w, "diamonds"@) || word_match(w, "diamond"@) || word_match(w, "d"@) {
        Some(Suit::Diamonds)
    } else if word_match(w, "hearts"@) || word_match(w, "heart"@) || word_match(w, "h"@) {
        Some(Suit::Hearts)
    } else if word_match(w, "spades"@) || word_match(w, "spade"@) || word_match(w, "s"@) {
        Some(Suit::Spades)
    } else {
        None
    }
}

/// How a card ranks within a trick, as a key compared lexicographically: the
/// black joker (2) over the red joker (1) over every other card (0); then a
/// card of the trump suit; then a card of the suit led; then the face value.
/// A joker counts as neither trump nor led suit, and has face value 0.
pub open spec fn trick_key(c: Card, lead: Suit, trump: Suit) -> (u8, u8, u8, u8) {
    let j: u8 = if c.rank == Rank::BJoker {
        2
    } else if c.rank == Rank::RJoker {
        1
    } else {
        0
    };
    let t: u8 = if j == 0 && c.suit == trump {
        1
    } else {
        0
    };
    let f: u8 = if j == 0 && t == 0 && c.suit == lead {
        1
    } else {
        0
    };
    let rv: u8 = if j == 0 {
        rank_value(c.rank)
    } else {
        0
    };
    (j, t, f, rv)
}

/// The lexicographic order on trick keys: `a` comes strictly before `b`.
pub open spec fn key_lt(a: (u8, u8, u8, u8), b: (u8, u8, u8, u8)) -> bool {
    ||| a.0 < b.0
    ||| a.0 == b.0 && a.1 < b.1
    ||| a.0 == b.0 && a.1 == b.1 && a.2 < b.2
    ||| a.0 == b.0 && a.1 == b.1 && a.2 == b.2 && a.3 < b.3
}

/// Whether card `a` takes a trick over card `b`, with `lead` led and `trump`
/// as trumps.
pub open spec fn card_beats(a: Card, b: Card, lead: Suit, trump: Suit) -> bool {
    key_lt(trick_key(b, lead, trump), trick_key(a, lead, trump))
}

/// How card `a` compares with card `b` in a trick.
pub open spec fn compare_in_trick(a: Card, b: Card, lead: Suit, trump: Suit) -> Ordering {
    if key_lt(trick_key(a, lead, trump), trick_key(b, lead, trump)) {
        Ordering::Less
    } else if trick_key(a, lead, trump) == trick_key(b, lead, trump) {
        Ordering::Equal
    } else {
        Ordering::Greater
    }
}

fn joker_score(rank: Rank) -> (j: u8)
    ensures
        j == trick_key(Card { id: 0, rank, suit: Suit::Clubs, trump: false }, Suit::Clubs, Suit::Clubs).0,
{
    match rank {
        Rank::BJoker => 2,
        Rank::RJoker => 1,
        _ => 0,
    }
}

fn key_of(c: &Card, lead: Suit, trump: Suit) -> (k: (u8, u8, u8, u8))
    ensures
        k == trick_key(*c, lead, trump),
{
    let j = joker_score(c.rank);
    let t: u8 = if j == 0 && c.suit == trump {
        1
    } else {
        0
    };
    let f: u8 = if j == 0 && t == 0 && c.suit == lead {
        1
    } else {
        0
    };
    let rv: u8 = if j == 0 {
        c.rank.num_value()
    } else {
        0
    };
    (j, t, f, rv)
}

fn rank_name_str(r: Rank) -> (s: &'static str)
    ensures
        s@ == rank_name(r),
{
    match r {
        Rank::Two => "Two",
        Rank::Three => "Three",
        Rank::Four => "Four",
        Rank::Five => "Five",
        Rank::Six => "Six",
        Rank::Seven => "Seven",
        Rank::Eight => "Eight",
        Rank::Nine => "Nine",
        Rank::Ten => "Ten",
        Rank::Jack => "Jack",
        Rank::Queen => "Queen",
        Rank::King => "King",
        Rank::Ace => "Ace",
        Rank::BJoker => "BJoker",
        Rank::RJoker => "RJoker",
    }
}

impl Suit {
    /// The name that `{:?}` writes for the suit.
    pub fn name(self) -> (s: &'static str)
        ensures
            s@ == suit_name(self),
    {
        match self {
            Suit::Clubs => "Clubs",
            Suit::Diamonds => "Diamonds",
            Suit::Hearts => "Hearts",
            Suit::Spades => "Spades",
        }
    }

    /// Reads a suit from a line of input (see `suit_of_text`); on any other
    /// input the error is `Unknown suit: ` followed by the input as given.
    pub fn from_str(s: &str) -> (r: Result<Suit, String>)
        ensures
            match suit_of_text(s@) {
                Some(x) => r == Ok::<Suit, String>(x),
                None => r is Err && r->Err_0@ == "Unknown suit: "@ + s@,
            },
    {
        let (lo, hi) = trim_bounds(s);
        if word_at(s, lo, hi, "clubs") || word_at(s, lo, hi, "club") || word_at(s, lo, hi, "c") {
            Ok(Suit::Clubs)
        } else if word_at(s, lo, hi, "diamonds") || word_at(s, lo, hi, "diamond") || word_at(
            s,
            lo,
            hi,
            "d",
        ) {
            Ok(Suit::Diamonds)
        } else if word_at(s, lo, hi, "hearts") || word_at(s, lo, hi, "heart") || word_at(
            s,
            lo,
            hi,
            "h",
        ) {
            Ok(Suit::Hearts)
        } else if word_at(s, lo, hi, "spades") || word_at(s, lo, hi, "spade") || word_at(
            s,
            lo,
            hi,
            "s",
        ) {
            Ok(Suit::Spades)
        } else {
            let mut e = String::from_str("Unknown suit: ");
            e.append(s);
            Err(e)
        }
    }
}

impl Card {
    /// The card as shown to the players (see `card_text`).
    pub fn describe(&self) -> (s: String)
        ensures
            s@ == card_text(*self),
    {
        let mut out = String::from_str("#");
        push_decimal_two(&mut out, self.id);
        out.append(" ");
        if self.rank == Rank::BJoker {
            out.append("Black Joker");
        } else if self.rank == Rank::RJoker {
            out.append("Red Joker");
        } else {
            out.append(rank_name_str(self.rank));
            out.append(" of ");
            out.append(self.suit.name());
        }
        if self.trump {
            out.append(" (Trump)");
        }
        proof {
            let name = if self.rank == Rank::BJoker {
                "Black Joker"@
            } else if self.rank == Rank::RJoker {
                "Red Joker"@
            } else {
                rank_name(self.rank) + " of "@ + suit_name(self.suit)
            };
            let tail = if self.trump {
                " (Trump)"@
            } else {
                Seq::empty()
            };
            assert(out@ =~= "#"@ + decimal_two(self.id as nat) + " "@ + name + tail);
        }
        out
    }

    /// Compares two cards played to a trick: the black joker over the red
    /// joker over trumps over the suit led (by rank) over the other cards (see
    /// `trick_key`). The last argument is not used.
    pub fn compare_trick(&self, other: &Card, lead: Suit, trump: Suit, _black_highest: bool) -> (o:
        Ordering)
        ensures
            o == compare_in_trick(*self, *other, lead, trump),
    {
        let a = key_of(self, lead, trump);
        let b = key_of(other, lead, trump);
        if a.0 < b.0 || (a.0 == b.0 && a.1 < b.1) || (a.0 == b.0 && a.1 == b.1 && a.2 < b.2) || (
        a.0 == b.0 && a.1 == b.1 && a.2 == b.2 && a.3 < b.3) {
            Ordering::Less
        } else if a.0 == b.0 && a.1 == b.1 && a.2 == b.2 && a.3 == b.3 {
            Ordering::Equal
        } else {
            Ordering::Greater
        }
    }

    /// Whether this card takes the trick over `other`.
    pub fn beats(&self, other: &Card, lead: Suit, trump: Suit, black_highest: bool) -> (b: bool)
        ensures
            b == card_beats(*self, *other, lead, trump),
    {
        match self.compare_trick(other, lead, trump, black_highest) {
            Ordering::Greater => true,
            _ => false,
        }
    }
}

/// Law: comparing cards within a trick is a total order. No card beats
/// itself; of two cards at most one beats the other, and they tie exactly
/// when neither does; beating is transitive; `compare_in_trick` says
/// `Greater` exactly when the first card beats the second and `Less` exactly
/// when the second beats the first.
pub proof fn lemma_trick_order(a: Card, b: Card, c: Card, lead: Suit, trump: Suit)
    ensures
        !card_beats(a, a, lead, trump),
        card_beats(a, b, lead, trump) ==> !card_beats(b, a, lead, trump),
        card_beats(a, b, lead, trump) && card_beats(b, c, lead, trump) ==> card_beats(a, c, lead, trump),
        !card_beats(a, b, lead, trump) && !card_beats(b, a, lead, trump) <==> trick_key(a, lead, trump)
            == trick_key(b, lead, trump),
        (compare_in_trick(a, b, lead, trump) == Ordering::Greater) == card_beats(a, b, lead, trump),
        (compare_in_trick(a, b, lead, trump) == Ordering::Less) == card_beats(b, a, lead, trump),
{
}

/// Law: the ranking within a trick. The black joker takes every other card;
/// the red joker every card but the black joker; a trump that is not a joker
/// every card that is neither a joker nor a trump; a card of the suit led
/// (not a joker, not a trump) every card of another suit that is not a trump
/// nor a joker; and of two cards of the same suit that are not jokers, the
/// higher one.
pub proof fn lemma_trick_ranking(a: Card, b: Card, lead: Suit, trump: Suit)
    ensures
        a.rank == Rank::BJoker && b.rank != Rank::BJoker ==> card_beats(a, b, lead, trump),
        a.rank == Rank::RJoker && !rank_is_joker(b.rank) ==> card_beats(a, b, lead, trump),
        !rank_is_joker(a.rank) && a.suit == trump && !rank_is_joker(b.rank) && b.suit != trump
            ==> card_beats(a, b, lead, trump),
        !rank_is_joker(a.rank) && a.suit == lead && a.suit != trump && !rank_is_joker(b.rank)
            && b.suit != trump && b.suit != lead ==> card_beats(a, b, lead, trump),
        !rank_is_joker(a.rank) && !rank_is_joker(b.rank) && a.suit == b.suit && rank_value(a.rank)
            > rank_value(b.rank) ==> card_beats(a, b, lead, trump),
{
}

proof fn lemma_trim_word(t: Seq<char>)
    requires
        t.len() > 0,
        forall|i: int|
            0 <= i < t.len() ==> ('a' <= #[trigger] t[i] <= 'z' || 'A' <= t[i] <= 'Z'),
    ensures
        trim(t) == t,
{
    assert(trim_start(t) == t);
    assert(trim_end(t) == t);
}

/// Law: reading the name of a suit (as `{:?}` writes it) gives the suit back.
pub proof fn lemma_suit_name_reads_back(s: Suit)
    ensures
        suit_of_text(suit_name(s)) == Some(s),
{
    reveal_strlit("Clubs");
    reveal_strlit("Diamonds");
    reveal_strlit("Hearts");
    reveal_strlit("Spades");
    reveal_strlit("clubs");
    reveal_strlit("club");
    reveal_strlit("c");
    reveal_strlit("diamonds");
    reveal_strlit("diamond");
    reveal_strlit("d");
    reveal_strlit("hearts");
    reveal_strlit("heart");
    reveal_strlit("h");
    reveal_strlit("spades");
    reveal_strlit("spade");
    reveal_strlit("s");
    let t = suit_name(s);
    lemma_trim_word(t);
    match s {
        Suit::Clubs => {
            assert(word_match(t, "clubs"@));
        },
        Suit::Diamonds => {
            assert(word_match(t, "diamonds"@));
        },
        Suit::Hearts => {
            assert(word_match(t, "hearts"@));
        },
        Suit::Spades => {
            assert(ascii_lower(t[0]) != "hearts"@[0]);
            assert(word_match(t, "spades"@));
        },
    }
}

/// Law: the face values of the ranks: Two to Ten count 2 to 10, the Jack
/// 11, the Queen 12, the King 13, the Ace 14, and the jokers 0.
pub proof fn lemma_face_values()
    ensures
        rank_value(Rank::Two) == 2 && rank_value(Rank::Three) == 3 && rank_value(Rank::Four) == 4,
        rank_value(Rank::Five) == 5 && rank_value(Rank::Six) == 6 && rank_value(Rank::Seven) == 7,
        rank_value(Rank::Eight) == 8 && rank_value(Rank::Nine) == 9 && rank_value(Rank::Ten) == 10,
        rank_value(Rank::Jack) == 11 && rank_value(Rank::Queen) == 12,
        rank_value(Rank::King) == 13 && rank_value(Rank::Ace) == 14,
        rank_value(Rank::BJoker) == 0 && rank_value(Rank::RJoker) == 0,
{
}

/// Law: within a suit the trick follows the order Two < Three < ... < Ten <
/// Jack < Queen < King < Ace: of two cards of one suit that are not jokers,
/// the one of the next higher rank takes the other, whatever is led and
/// whatever is trump (with `lemma_trick_order`, beating is transitive, so any
/// higher rank takes any lower one).
pub proof fn lemma_rank_order_in_suit(a: Card, b: Card, lead: Suit, trump: Suit)
    requires
        a.suit == b.suit,
    ensures
        a.rank == Rank::Three && b.rank == Rank::Two ==> card_beats(a, b, lead, trump),
        a.rank == Rank::Four && b.rank == Rank::Three ==> card_beats(a, b, lead, trump),
        a.rank == Rank::Five && b.rank == Rank::Four ==> card_beats(a, b, lead, trump),
        a.rank == Rank::Six && b.rank == Rank::Five ==> card_beats(a, b, lead, trump),
        a.rank == Rank::Seven && b.rank == Rank::Six ==> card_beats(a, b, lead, trump),
        a.rank == Rank::Eight && b.rank == Rank::Seven ==> card_beats(a, b, lead, trump),
        a.rank == Rank::Nine && b.rank == Rank::Eight ==> card_beats(a, b, lead, trump),
        a.rank == Rank::Ten && b.rank == Rank::Nine ==> card_beats(a, b, lead, trump),
        a.rank == Rank::Jack && b.rank == Rank::Ten ==> card_beats(a, b, lead, trump),
        a.rank == Rank::Queen && b.rank == Rank::Jack ==> card_beats(a, b, lead, trump),
        a.rank == Rank::King && b.rank == Rank::Queen ==> card_beats(a, b, lead, trump),
        a.rank == Rank::Ace && b.rank == Rank::King ==> card_beats(a, b, lead, trump),
        a.rank == Rank::Ace && b.rank == Rank::Two ==> card_beats(a, b, lead, trump),
        a.rank == b.rank ==> !card_beats(a, b, lead, trump),
{
}

proof fn lemma_other_word(w: Seq<char>, x: Seq<char>, y: Seq<char>)
    requires
        word_match(w, y),
        x.len() != y.len() || (x.len() > 0 && y.len() > 0 && x[0] != y[0]),
    ensures
        !word_match(w, x),
{
    if x.len() == y.len() && x.len() > 0 {
        assert(ascii_lower(w[0]) == y[0]);
    }
}

/// Law: every spelling of a suit reads as that suit: any line that, once
/// trimmed of white space, is `clubs`, `club` or `c` in any mix of upper and
/// lower case reads as Clubs; likewise `diamonds`/`diamond`/`d` as Diamonds,
/// `hearts`/`heart`/`h` as Hearts and `spades`/`spade`/`s` as Spades.
pub proof fn lemma_suit_spellings(t: Seq<char>)
    ensures
        word_match(trim(t), "clubs"@) ==> suit_of_text(t) == Some(Suit::Clubs),
        word_match(trim(t), "club"@) ==> suit_of_text(t) == Some(Suit::Clubs),
        word_match(trim(t), "c"@) ==> suit_of_text(t) == Some(Suit::Clubs),
        word_match(trim(t), "diamonds"@) ==> suit_of_text(t) == Some(Suit::Diamonds),
        word_match(trim(t), "diamond"@) ==> suit_of_text(t) == Some(Suit::Diamonds),
        word_match(trim(t), "d"@) ==> suit_of_text(t) == Some(Suit::Diamonds),
        word_match(trim(t), "hearts"@) ==> suit_of_text(t) == Some(Suit::Hearts),
        word_match(trim(t), "heart"@) ==> suit_of_text(t) == Some(Suit::Hearts),
        word_match(trim(t), "h"@) ==> suit_of_text(t) == Some(Suit::Hearts),
        word_match(trim(t), "spades"@) ==> suit_of_text(t) == Some(Suit::Spades),
        word_match(trim(t), "spade"@) ==> suit_of_text(t) == Some(Suit::Spades),
        word_match(trim(t), "s"@) ==> suit_of_text(t) == Some(Suit::Spades),
{
    reveal_strlit("clubs");
    reveal_strlit("club");
    reveal_strlit("c");
    reveal_strlit("diamonds");
    reveal_strlit("diamond");
    reveal_strlit("d");
    reveal_strlit("hearts");
    reveal_strlit("heart");
    reveal_strlit("h");
    reveal_strlit("spades");
    reveal_strlit("spade");
    reveal_strlit("s");
    let w = trim(t);
    let clubs = seq!["clubs"@, "club"@, "c"@];
    let diamonds = seq!["diamonds"@, "diamond"@, "d"@];
    let hearts = seq!["hearts"@, "heart"@, "h"@];
    let spades = seq!["spades"@, "spade"@, "s"@];
    // a word of a later suit rules out every word of an earlier one
    assert forall|i: int, j: int| 0 <= i < 3 && 0 <= j < 3 && word_match(w, #[trigger] diamonds[i])
        implies !word_match(w, #[trigger] clubs[j]) by {
        lemma_other_word(w, clubs[j], diamonds[i]);
    }
    assert forall|i: int, j: int| 0 <= i < 3 && 0 <= j < 3 && word_match(w, #[trigger] hearts[i])
        implies !word_match(w, #[trigger] clubs[j]) && !word_match(w, diamonds[j]) by {
        lemma_other_word(w, clubs[j], hearts[i]);
        lemma_other_word(w, diamonds[j], hearts[i]);
    }
    assert forall|i: int, j: int| 0 <= i < 3 && 0 <= j < 3 && word_match(w, #[trigger] spades[i])
        implies !word_match(w, #[trigger] clubs[j]) && !word_match(w, diamonds[j]) && !word_match(
        w,
        hearts[j],
    ) by {
        lemma_other_word(w, clubs[j], spades[i]);
        lemma_other_word(w, diamonds[j], spades[i]);
        lemma_other_word(w, hearts[j], spades[i]);
    }
    assert(clubs[0] == "clubs"@ && clubs[1] == "club"@ && clubs[2] == "c"@);
    assert(diamonds[0] == "diamonds"@ && diamonds[1] == "diamond"@ && diamonds[2] == "d"@);
    assert(hearts[0] == "hearts"@ && hearts[1] == "heart"@ && hearts[2] == "h"@);
    assert(spades[0] == "spades"@ && spades[1] == "spade"@ && spades[2] == "s"@);
}

} // verus!
