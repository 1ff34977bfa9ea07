use hokm::card_rules;
use hokm::cards::{Card, GameMode, Rank, Suit};
use hokm::deck::Deck;
use hokm::hand::{joker_count, sort_hand, suit_order};
use std::cmp::Ordering;

fn card(id: u32, rank: Rank, suit: Suit) -> Card {
    Card::new(id, rank, suit)
}

#[test]
fn rank_values_and_jokers() {
    assert_eq!(Rank::Two.num_value(), 2);
    assert_eq!(Rank::Ten.num_value(), 10);
    assert_eq!(Rank::Ace.num_value(), 14);
    assert_eq!(Rank::BJoker.num_value(), 0);
    assert_eq!(Rank::RJoker.num_value(), 0);
    assert!(Rank::BJoker.is_joker());
    assert!(Rank::RJoker.is_joker());
    assert!(!Rank::King.is_joker());
    assert!(card(53, Rank::BJoker, Suit::Spades).is_joker());
    assert!(!card(1, Rank::Two, Suit::Clubs).is_joker());
}

#[test]
fn new_card_is_not_trump() {
    let c = Card::new(12, Rank::King, Suit::Hearts);
    assert_eq!(c, Card { id: 12, rank: Rank::King, suit: Suit::Hearts, trump: false });
}

#[test]
fn describe_pads_the_number_and_names_the_card() {
    assert_eq!(card(7, Rank::Eight, Suit::Clubs).describe(), "#07 Eight of Clubs");
    assert_eq!(card(36, Rank::Jack, Suit::Hearts).describe(), "#36 Jack of Hearts");
    assert_eq!(card(53, Rank::BJoker, Suit::Spades).describe(), "#53 Black Joker");
    assert_eq!(card(54, Rank::RJoker, Suit::Hearts).describe(), "#54 Red Joker");
    let mut t = card(120, Rank::Ace, Suit::Spades);
    t.trump = true;
    assert_eq!(t.describe(), "#120 Ace of Spades (Trump)");
    assert_eq!(card(0, Rank::Two, Suit::Diamonds).describe(), "#00 Two of Diamonds");
}

#[test]
fn suit_from_str_accepts_names_and_letters() {
    assert_eq!(Suit::from_str("clubs"), Ok(Suit::Clubs));
    assert_eq!(Suit::from_str("  Hearts\n"), Ok(Suit::Hearts));
    assert_eq!(Suit::from_str("DIAMOND"), Ok(Suit::Diamonds));
    assert_eq!(Suit::from_str("s"), Ok(Suit::Spades));
    assert_eq!(Suit::from_str("\u{3000}h\t"), Ok(Suit::Hearts));
    assert_eq!(Suit::from_str("Clubs"), Ok(Suit::Clubs));
    assert_eq!(Suit::from_str("Spades"), Ok(Suit::Spades));
}

#[test]
fn suit_from_str_rejects_other_words() {
    assert_eq!(Suit::from_str("stars\n"), Err("Unknown suit: stars\n".to_string()));
    assert_eq!(Suit::from_str(""), Err("Unknown suit: ".to_string()));
    assert_eq!(Suit::from_str("club s"), Err("Unknown suit: club s".to_string()));
}

#[test]
fn trick_ranking_examples() {
    let lead = Suit::Hearts;
    let trump = Suit::Spades;
    let bj = card(53, Rank::BJoker, Suit::Spades);
    let rj = card(54, Rank::RJoker, Suit::Hearts);
    let two_spades = card(40, Rank::Two, Suit::Spades);
    let ace_hearts = card(39, Rank::Ace, Suit::Hearts);
    let king_hearts = card(38, Rank::King, Suit::Hearts);
    let ace_clubs = card(13, Rank::Ace, Suit::Clubs);
    assert!(bj.beats(&rj, lead, trump, false));
    assert!(rj.beats(&two_spades, lead, trump, false));
    assert!(two_spades.beats(&ace_hearts, lead, trump, false));
    assert!(ace_hearts.beats(&king_hearts, lead, trump, false));
    assert!(king_hearts.beats(&ace_clubs, lead, trump, false));
    assert!(!ace_clubs.beats(&king_hearts, lead, trump, false));
    assert_eq!(ace_hearts.compare_trick(&king_hearts, lead, trump, false), Ordering::Greater);
    assert_eq!(king_hearts.compare_trick(&ace_hearts, lead, trump, false), Ordering::Less);
    assert_eq!(ace_hearts.compare_trick(&ace_hearts, lead, trump, false), Ordering::Equal);
    // two off-suit cards compare by face value
    let ten_diamonds = card(22, Rank::Ten, Suit::Diamonds);
    assert!(ace_clubs.beats(&ten_diamonds, lead, trump, false));
    // a joker is neither trump nor of the suit led
    assert!(!card(40, Rank::Two, Suit::Spades).beats(&rj, lead, trump, false));
}

#[test]
fn deck_sizes_per_mode() {
    assert_eq!(Deck::new_for_mode(GameMode::Hokm4).cards.len(), 36);
    assert_eq!(Deck::new_for_mode(GameMode::Hokm6).cards.len(), 54);
    assert_eq!(Deck::new_for_mode(GameMode::Baloot).cards.len(), 36);
}

#[test]
fn deck_numbering_and_order() {
    for mode in [GameMode::Hokm4, GameMode::Hokm6, GameMode::Baloot] {
        let d = Deck::new_for_mode(mode);
        for (i, c) in d.cards.iter().enumerate() {
            assert_eq!(c.id as usize, i + 1);
            assert!(!c.trump);
        }
    }
    let h6 = Deck::new_for_mode(GameMode::Hokm6);
    assert_eq!(h6.cards[0], card(1, Rank::Two, Suit::Clubs));
    assert_eq!(h6.cards[12], card(13, Rank::Ace, Suit::Clubs));
    assert_eq!(h6.cards[13], card(14, Rank::Two, Suit::Diamonds));
    assert_eq!(h6.cards[51], card(52, Rank::Ace, Suit::Spades));
    assert_eq!(h6.cards[52], card(53, Rank::BJoker, Suit::Spades));
    assert_eq!(h6.cards[53], card(54, Rank::RJoker, Suit::Hearts));
}

#[test]
fn hokm4_deck_leaves_out_low_cards() {
    let d = Deck::new_for_mode(GameMode::Hokm4);
    assert_eq!(d.cards[0], card(1, Rank::Seven, Suit::Clubs));
    assert_eq!(d.cards[8], card(9, Rank::Seven, Suit::Diamonds));
    assert_eq!(d.cards[16], card(17, Rank::Six, Suit::Hearts));
    assert_eq!(d.cards[25], card(26, Rank::Six, Suit::Spades));
    assert_eq!(d.cards[34], card(35, Rank::BJoker, Suit::Spades));
    assert_eq!(d.cards[35], card(36, Rank::RJoker, Suit::Hearts));
    for c in &d.cards {
        if !c.is_joker() {
            assert!(c.rank.num_value() >= 6);
        }
        assert!(!(c.rank == Rank::Six && (c.suit == Suit::Clubs || c.suit == Suit::Diamonds)));
    }
}

#[test]
fn baloot_deck_has_no_jokers() {
    let d = Deck::new_for_mode(GameMode::Baloot);
    assert_eq!(joker_count(&d.cards), 0);
    assert_eq!(d.cards[0], card(1, Rank::Six, Suit::Clubs));
    assert_eq!(d.cards[35], card(36, Rank::Ace, Suit::Spades));
    assert_eq!(joker_count(&Deck::new_for_mode(GameMode::Hokm4).cards), 2);
}

fn ids_sorted(cards: &[Card]) -> Vec<u32> {
    let mut v: Vec<u32> = cards.iter().map(|c| c.id).collect();
    v.sort();
    v
}

#[test]
fn shuffle_keeps_the_cards_and_moves_them() {
    let fresh = Deck::new_for_mode(GameMode::Hokm6);
    let mut d = fresh.clone();
    d.shuffle();
    assert_eq!(d.cards.len(), 54);
    assert_eq!(ids_sorted(&d.cards), ids_sorted(&fresh.cards));
    // 54! orders: the same order twice in a row does not happen
    let mut e = fresh.clone();
    e.shuffle();
    assert!(d.cards != fresh.cards || e.cards != fresh.cards);
}

#[test]
fn mark_trump_marks_one_suit() {
    let mut d = Deck::new_for_mode(GameMode::Baloot);
    d.mark_trump(Suit::Hearts);
    for c in &d.cards {
        assert_eq!(c.trump, c.suit == Suit::Hearts);
    }
    d.mark_trump(Suit::Clubs);
    for c in &d.cards {
        assert_eq!(c.trump, c.suit == Suit::Clubs);
    }
}

#[test]
fn sort_hand_puts_jokers_first_then_suits_then_ranks() {
    let mut hand = vec![
        card(40, Rank::Two, Suit::Spades),
        card(13, Rank::Ace, Suit::Clubs),
        card(53, Rank::BJoker, Suit::Spades),
        card(2, Rank::Three, Suit::Clubs),
        card(54, Rank::RJoker, Suit::Hearts),
        card(27, Rank::Two, Suit::Hearts),
    ];
    sort_hand(&mut hand);
    let ids: Vec<u32> = hand.iter().map(|c| c.id).collect();
    assert_eq!(ids, vec![54, 53, 2, 13, 27, 40]);
    // sorting again changes nothing
    let again = hand.clone();
    sort_hand(&mut hand);
    assert_eq!(hand, again);
}

#[test]
fn sort_hand_is_stable() {
    let mut a = card(5, Rank::King, Suit::Hearts);
    a.trump = true;
    let b = card(5, Rank::King, Suit::Hearts);
    let mut hand = vec![a, card(1, Rank::Two, Suit::Clubs), b];
    sort_hand(&mut hand);
    assert_eq!(hand[1], a);
    assert_eq!(hand[2], b);
}

#[test]
fn suit_order_follows_the_deck() {
    assert_eq!(suit_order(Suit::Clubs), 0);
    assert_eq!(suit_order(Suit::Diamonds), 1);
    assert_eq!(suit_order(Suit::Hearts), 2);
    assert_eq!(suit_order(Suit::Spades), 3);
}

#[test]
fn joker_count_counts_jokers() {
    let hand = vec![
        card(53, Rank::BJoker, Suit::Spades),
        card(1, Rank::Two, Suit::Clubs),
        card(54, Rank::RJoker, Suit::Hearts),
    ];
    assert_eq!(joker_count(&hand), 2);
    assert_eq!(joker_count(&vec![]), 0);
}

#[test]
fn full_deck_of_face_down_cards() {
    let d = card_rules::Deck::new();
    assert_eq!(d.deck.len(), 54);
    let hokm6 = Deck::new_for_mode(GameMode::Hokm6);
    for (a, b) in d.deck.iter().zip(hokm6.cards.iter()) {
        assert!(!a.face);
        assert_eq!((a.id, a.rank, a.suit, a.trump), (b.id, b.rank, b.suit, b.trump));
    }
    assert_eq!(d.deck[52], card_rules::Cards::new(false, 53, Rank::BJoker, Suit::Spades, false));
    let c = card_rules::Cards::new(true, 9, Rank::Ten, Suit::Clubs, true);
    assert!(c.face && c.trump && c.id == 9);
}
