//! The bids of a hand.
use crate::text::{ascii_lower, trim, trim_bounds, trim_end, trim_start, word_at, word_match};
use vstd::prelude::*;

verus! {

#[derive(Debug, Clone, Copy, PartialEq, Eq, Structural)]
pub enum Bid {
    Pass,
    /// Open to the dealer only.
    Five,
    Six,
    Seven,
    Eight,
    Nine,
    /// Open to the dealer only, after everybody else passed.
    Reshuffle,
}

/// The number of tricks a bid promises: 5 to 9, and 0 for a pass or a
/// reshuffle.
pub open spec fn bid_value(b: Bid) -> u8 {
    match b {
        Bid::Five => 5,
        Bid::Six => 6,
        Bid::Seven => 7,
        Bid::Eight => 8,
        Bid::Nine => 9,
        Bid::Pass => 0,
        Bid::Reshuffle => 0,
    }
}

/// The short name of a bid.
pub open spec fn bid_label(b: Bid) -> Seq<char> {
    match b {
        Bid::Pass => "pass"@,
        Bid::Five => "5"@,
        Bid::Six => "6"@,
        Bid::Seven => "7"@,
        Bid::Eight => "8"@,
        Bid::Nine => "9"@,
        Bid::Reshuffle => "reshuffle"@,
    }
}

/// The bid that a line of input names: after trimming white space, a digit 5
/// to 9 or its English name, `p`/`pass`, or `r`/`reshuffle`, in any mix of
/// upper and lower case.
pub open spec fn bid_of_text(t: Seq<char>) -> Option<Bid> {
    let w = trim(t);
    if word_match(w, "5"@) || word_match(w, "five"@) {
        Some(Bid::Five)
    } else if word_match(w, "6"@) || word_match(w, "six"@) {
        Some(Bid::Six)
    } else if word_match(w, "7"@) || word_match(w, "seven"@) {
        Some(Bid::Seven)
    } else if word_match(w, "8"@) || word_match(w, "eight"@) {
        Some(Bid::Eight)
    } else if word_match(w, "9"@) || word_match(w, "nine"@) {
        Some(Bid::Nine)
    } else if word_match(w, "p"@) || word_match(w, "pass"@) {
        Some(Bid::Pass)
    } else if word_match(w, "r"@) || word_match(w, "reshuffle"@) {
        Some(Bid::Reshuffle)
    } else {
        None
    }
}

impl Bid {
    pub fn value(self) -> (v: u8)
        ensures
            v == bid_value(self),
    {
        match self {
            Bid::Five => 5,
            Bid::Six => 6,
            Bid::Seven => 7,
            Bid::Eight => 8,
            Bid::Nine => 9,
            Bid::Pass | Bid::Reshuffle => 0,
        }
    }

    /// Reads a bid from a line of input (see `bid_of_text`).
    pub fn from_input(s: &str) -> (b: Option<Bid>)
        ensures
            b == bid_of_text(s@),
    {
        let (lo, hi) = trim_bounds(s);
        if word_at(s, lo, hi, "5") || word_at(s, lo, hi, "five") {
            Some(Bid::Five)
        } else if word_at(s, lo, hi, "6") || word_at(s, lo, hi, "six") {
            Some(Bid::Six)
        } else if word_at(s, lo, hi, "7") || word_at(s, lo, hi, "seven") {
            Some(Bid::Seven)
        } else if word_at(s, lo, hi, "8") || word_at(s, lo, hi, "eight") {
            Some(Bid::Eight)
        } else if word_at(s, lo, hi, "9") || word_at(s, lo, hi, "nine") {
            Some(Bid::Nine)
        } else if word_at(s, lo, hi, "p") || word_at(s, lo, hi, "pass") {
            Some(Bid::Pass)
        } else if word_at(s, lo, hi, "r") || word_at(s, lo, hi, "reshuffle") {
            Some(Bid::Reshuffle)
        } else {
            None
        }
    }

    pub fn label(self) -> (s: &'static str)
        ensures
            s@ == bid_label(self),
    {
        match self {
            Bid::Pass => "pass",
            Bid::Five => "5",
            Bid::Six => "6",
            Bid::Seven => "7",
            Bid::Eight => "8",
            Bid::Nine => "9",
            Bid::Reshuffle => "reshuffle",
        }
    }
}

proof fn lemma_trim_plain(t: Seq<char>)
    requires
        t.len() > 0,
        forall|i: int| 0 <= i < t.len() ==> 'a' <= #[trigger] t[i] <= 'z' || '0' <= t[i] <= '9',
    ensures
        trim(t) == t,
{
    assert(trim_start(t) == t);
    assert(trim_end(t) == t);
}

/// Law: reading the label of a bid gives the bid back.
pub proof fn lemma_label_reads_back(b: Bid)
    ensures
        bid_of_text(bid_label(b)) == Some(b),
{
    reveal_strlit("pass");
    reveal_strlit("5");
    reveal_strlit("five");
    reveal_strlit("6");
    reveal_strlit("six");
    reveal_strlit("7");
    reveal_strlit("seven");
    reveal_strlit("8");
    reveal_strlit("eight");
    reveal_strlit("9");
    reveal_strlit("nine");
    reveal_strlit("p");
    reveal_strlit("r");
    reveal_strlit("reshuffle");
    let t = bid_label(b);
    lemma_trim_plain(t);
    match b {
        Bid::Pass => {
            assert(!word_match(t, "five"@) && !word_match(t, "nine"@)) by {
                assert(ascii_lower(t[0]) == 'p');
                assert(ascii_lower(t[0]) != "five"@[0]);
                assert(ascii_lower(t[0]) != "nine"@[0]);
            }
            assert(word_match(t, "pass"@));
        },
        Bid::Reshuffle => {
            assert(word_match(t, "reshuffle"@));
        },
        _ => {
            assert(ascii_lower(t[0]) == t[0]);
            assert(b != Bid::Five ==> ascii_lower(t[0]) != "5"@[0]);
            assert(b != Bid::Six ==> ascii_lower(t[0]) != "6"@[0]);
            assert(b != Bid::Seven ==> ascii_lower(t[0]) != "7"@[0]);
            assert(b != Bid::Eight ==> ascii_lower(t[0]) != "8"@[0]);
        },
    }
}

/// Law: the bids that promise tricks promise five to nine of them, each more
/// than the one before; a pass and a reshuffle promise none.
pub proof fn lemma_bid_values()
    ensures
        bid_value(Bid::Five) < bid_value(Bid::Six) < bid_value(Bid::Seven) < bid_value(Bid::Eight)
            < bid_value(Bid::Nine),
        bid_value(Bid::Five) == 5 && bid_value(Bid::Nine) == 9,
        bid_value(Bid::Pass) == 0 && bid_value(Bid::Reshuffle) == 0,
{
}

} // verus!
