use hokm::bid::Bid;
use hokm::bidding::{rotation, BidRefusal, BidStep};
use hokm::cards::{Card, GameMode, Rank, Suit};
use hokm::deck::Deck;
use hokm::game::{Game, PickError, PlayError, Player, HAND_SIZE};
use hokm::session::{first_dealer, MatchEnd};
use hokm::tricks::{ground_text, HandState, TrickEnd, MAX_SCORE, MERCY_SCORE};

fn card(id: u32, rank: Rank, suit: Suit) -> Card {
    Card::new(id, rank, suit)
}

/// A table of `mode` whose deck is fresh and in order.
fn ordered_table(mode: GameMode, dealer: usize) -> Game {
    let mut g = Game::new(mode, dealer);
    g.deck = Deck::new_for_mode(mode);
    g
}

fn with_hand(mut g: Game, seat: usize, hand: Vec<Card>) -> Game {
    g.players[seat].hand = hand;
    g
}

#[test]
fn new_game_sets_up_the_table() {
    let g = Game::new(GameMode::Hokm6, 8);
    assert_eq!(g.num_players, 6);
    assert_eq!(g.players.len(), 6);
    assert_eq!(g.dealer, 2);
    assert_eq!(g.deck.cards.len(), 54);
    assert_eq!(g.scores, [0, 0]);
    assert_eq!(g.trump, None);
    assert!(!g.red_played && !g.black_played && !g.black_becomes_highest_trump);
    for (i, p) in g.players.iter().enumerate() {
        assert_eq!(p.id, i);
        assert!(p.hand.is_empty());
    }
    let b = Game::new(GameMode::Baloot, 3);
    assert_eq!((b.num_players, b.dealer, b.deck.cards.len()), (4, 3, 36));
}

#[test]
fn teams_and_names() {
    let g = Game::new(GameMode::Hokm4, 0);
    assert_eq!(g.team_of(0), 0);
    assert_eq!(g.team_of(3), 1);
    assert_eq!(Game::team_name(0), "Team 0");
    assert_eq!(Game::team_name(1), "Team 1");
    assert_eq!(Game::team_name(2), "Unknown");
}

#[test]
fn deal_gives_packets_of_three_anticlockwise() {
    let mut g = ordered_table(GameMode::Hokm4, 1);
    let deck = g.deck.cards.clone();
    g.deal();
    assert!(g.deck.cards.is_empty());
    for p in &g.players {
        assert_eq!(p.hand.len(), HAND_SIZE);
    }
    // the seat right of the dealer (2) gets the top three cards first
    let top: Vec<Card> = deck.iter().rev().cloned().collect();
    assert_eq!(&g.players[2].hand[0..3], &top[0..3]);
    assert_eq!(&g.players[3].hand[0..3], &top[3..6]);
    assert_eq!(&g.players[0].hand[0..3], &top[6..9]);
    assert_eq!(&g.players[1].hand[0..3], &top[9..12]);
    assert_eq!(&g.players[2].hand[3..6], &top[12..15]);
    assert_eq!(&g.players[1].hand[6..9], &top[33..36]);
}

#[test]
fn deal_hands_out_every_card_once() {
    let mut g = Game::new(GameMode::Hokm6, 5);
    g.deal();
    assert!(g.deck.cards.is_empty());
    let mut ids: Vec<u32> = g.players.iter().flat_map(|p| p.hand.iter().map(|c| c.id)).collect();
    ids.sort();
    assert_eq!(ids, (1..=54).collect::<Vec<u32>>());
}

#[test]
fn reset_hand_state_clears_the_hand() {
    let mut g = Game::new(GameMode::Hokm4, 2);
    g.deal();
    g.set_trump(Suit::Spades);
    g.black_played = true;
    g.scores = [3, 4];
    g.reset_hand_state();
    assert_eq!(g.trump, None);
    assert!(!g.black_played && !g.red_played);
    assert_eq!(g.deck.cards.len(), 36);
    assert_eq!(g.scores, [3, 4]);
    assert_eq!(g.dealer, 2);
    assert!(g.players.iter().all(|p| p.hand.is_empty()));
}

#[test]
fn set_trump_marks_every_hand() {
    let mut g = ordered_table(GameMode::Baloot, 0);
    g.deal();
    g.set_trump(Suit::Diamonds);
    assert_eq!(g.trump, Some(Suit::Diamonds));
    for p in &g.players {
        for c in &p.hand {
            assert_eq!(c.trump, c.suit == Suit::Diamonds);
        }
    }
}

#[test]
fn players_know_their_jokers() {
    let p = Player { id: 0, hand: vec![card(54, Rank::RJoker, Suit::Hearts), card(1, Rank::Two, Suit::Clubs)] };
    assert!(p.has_joker());
    assert!(p.has_red_joker());
    assert!(!p.has_black_joker());
    let q = Player { id: 1, hand: vec![card(1, Rank::Two, Suit::Clubs)] };
    assert!(!q.has_joker());
}

#[test]
fn red_joker_before_black_is_refused() {
    let g = Game::new(GameMode::Hokm4, 0);
    let g = with_hand(g, 1, vec![card(54, Rank::RJoker, Suit::Hearts)]);
    let rj = card(54, Rank::RJoker, Suit::Hearts);
    let r = g.validate_play(1, &rj, None, 1, Bid::Six, 1);
    assert_eq!(
        r,
        Err("Red Joker cannot be played before Black Joker unless the bidder (≥7) holds both, within first 3 tricks.".to_string())
    );
    assert_eq!(g.check_play(1, &rj, None, 1, Bid::Six, 1), Some(PlayError::RedBeforeBlack));
}

#[test]
fn red_joker_exception_for_the_bidder() {
    let g = Game::new(GameMode::Hokm4, 0);
    let g = with_hand(g, 1, vec![card(54, Rank::RJoker, Suit::Hearts), card(53, Rank::BJoker, Suit::Spades)]);
    let rj = card(54, Rank::RJoker, Suit::Hearts);
    assert_eq!(g.validate_play(1, &rj, None, 1, Bid::Seven, 3), Ok(()));
    assert!(g.validate_play(1, &rj, None, 1, Bid::Seven, 4).is_err());
    assert!(g.validate_play(1, &rj, None, 1, Bid::Six, 2).is_err());
    let mut after = g;
    after.black_played = true;
    assert_eq!(after.validate_play(1, &rj, None, 1, Bid::Six, 8), Ok(()));
}

#[test]
fn must_follow_suit() {
    let g = Game::new(GameMode::Baloot, 0);
    let g = with_hand(g, 2, vec![card(30, Rank::Nine, Suit::Hearts), card(5, Rank::Ten, Suit::Clubs)]);
    let lead = card(31, Rank::Ace, Suit::Hearts);
    let off = card(5, Rank::Ten, Suit::Clubs);
    assert_eq!(
        g.validate_play(2, &off, Some(&lead), 0, Bid::Six, 1),
        Err("You must follow suit: Hearts".to_string())
    );
    let on = card(30, Rank::Nine, Suit::Hearts);
    assert_eq!(g.validate_play(2, &on, Some(&lead), 0, Bid::Six, 1), Ok(()));
    let lead_spade = card(40, Rank::Two, Suit::Spades);
    assert_eq!(g.validate_play(2, &off, Some(&lead_spade), 0, Bid::Six, 1), Ok(()));
    assert_eq!(g.validate_play(2, &off, None, 0, Bid::Six, 1), Ok(()));
    let bj = card(53, Rank::BJoker, Suit::Spades);
    assert_eq!(g.validate_play(2, &bj, Some(&lead), 0, Bid::Six, 1), Ok(()));
    assert_eq!(PlayError::MustFollow(Suit::Spades).message(), "You must follow suit: Spades");
}

#[test]
fn on_card_played_updates_flags_and_hand() {
    let g = Game::new(GameMode::Hokm4, 0);
    let mut g = with_hand(
        g,
        0,
        vec![card(53, Rank::BJoker, Suit::Spades), card(54, Rank::RJoker, Suit::Hearts), card(9, Rank::Ace, Suit::Clubs)],
    );
    let rj = card(54, Rank::RJoker, Suit::Hearts);
    g.on_card_played(0, &rj, 0, Bid::Eight, 1);
    assert!(g.red_played);
    assert!(g.black_becomes_highest_trump);
    assert!(!g.black_played);
    assert_eq!(g.players[0].hand.len(), 2);
    let bj = card(53, Rank::BJoker, Suit::Spades);
    g.on_card_played(0, &bj, 0, Bid::Eight, 2);
    assert!(g.black_played);
    assert_eq!(g.players[0].hand, vec![card(9, Rank::Ace, Suit::Clubs)]);
    // a card the hand does not hold leaves it as it is
    g.on_card_played(0, &card(77, Rank::Two, Suit::Hearts), 0, Bid::Eight, 3);
    assert_eq!(g.players[0].hand.len(), 1);
}

#[test]
fn pick_card_goes_by_the_shown_order() {
    let g = Game::new(GameMode::Hokm4, 0);
    let g = with_hand(g, 1, vec![card(40, Rank::Two, Suit::Spades), card(53, Rank::BJoker, Suit::Spades), card(2, Rank::Three, Suit::Clubs)]);
    assert_eq!(g.pick_card(1, 0, None, 0, Bid::Six, 1), Ok(card(53, Rank::BJoker, Suit::Spades)));
    assert_eq!(g.pick_card(1, 1, None, 0, Bid::Six, 1), Ok(card(2, Rank::Three, Suit::Clubs)));
    assert_eq!(g.pick_card(1, 3, None, 0, Bid::Six, 1), Err(PickError::OutOfRange));
    let lead = card(30, Rank::Nine, Suit::Clubs);
    assert_eq!(
        g.pick_card(1, 2, Some(&lead), 0, Bid::Six, 1),
        Err(PickError::Refused(PlayError::MustFollow(Suit::Clubs)))
    );
}

#[test]
fn judge_bid_rules() {
    let g = Game::new(GameMode::Hokm4, 0);
    let g = with_hand(g, 1, vec![card(1, Rank::Two, Suit::Clubs)]);
    let g = with_hand(g, 3, vec![card(53, Rank::BJoker, Suit::Spades)]);
    let g = with_hand(g, 2, vec![card(2, Rank::Three, Suit::Clubs)]);
    let g = with_hand(g, 0, vec![card(3, Rank::Four, Suit::Clubs)]);
    assert_eq!(g.judge_bid(1, false, false, None, "six"), (false, Ok(Bid::Six)));
    assert_eq!(g.judge_bid(1, false, false, None, "x"), (false, Err(BidRefusal::Unreadable)));
    assert_eq!(g.judge_bid(1, false, false, None, "5"), (false, Err(BidRefusal::FiveDealerOnly)));
    assert_eq!(g.judge_bid(0, true, false, None, "5"), (false, Ok(Bid::Five)));
    assert_eq!(g.judge_bid(0, true, false, None, "r"), (false, Err(BidRefusal::ReshuffleNotOpen)));
    assert_eq!(g.judge_bid(0, true, true, None, "r"), (false, Ok(Bid::Reshuffle)));
    assert_eq!(g.judge_bid(1, false, false, None, "8"), (false, Err(BidRefusal::NeedsJoker)));
    // seat 3 holds a joker, its partner (seat 1) none: no raise
    assert_eq!(g.judge_bid(3, false, false, None, "8"), (false, Ok(Bid::Eight)));
    assert_eq!(g.judge_bid(1, false, false, Some(Bid::Seven), "7"), (false, Err(BidRefusal::TooLow(Bid::Seven))));
    assert_eq!(g.judge_bid(1, false, false, Some(Bid::Seven), "pass"), (false, Ok(Bid::Pass)));
    assert_eq!(BidRefusal::TooLow(Bid::Seven).message(), "You must bid higher than 7 or pass.");
    assert_eq!(BidRefusal::Unreadable.message(), "Invalid input.");
}

#[test]
fn judge_bid_raises_eight_when_partner_has_a_joker() {
    let g = Game::new(GameMode::Hokm4, 0);
    let g = with_hand(g, 1, vec![card(53, Rank::BJoker, Suit::Spades)]);
    let g = with_hand(g, 3, vec![card(54, Rank::RJoker, Suit::Hearts)]);
    assert_eq!(g.judge_bid(1, false, false, None, "eight"), (true, Ok(Bid::Nine)));
    assert_eq!(g.judge_bid(1, false, false, Some(Bid::Nine), "8"), (true, Err(BidRefusal::TooLow(Bid::Nine))));
}

#[test]
fn bidding_round_steps() {
    let mut g = Game::new(GameMode::Hokm4, 3);
    assert_eq!(g.bidding_order(), vec![0, 1, 2, 3]);
    assert_eq!(g.bid_turn(3, 4, 3, None), (true, true));
    assert_eq!(g.bid_turn(3, 4, 3, Some((1, Bid::Six))), (true, false));
    assert_eq!(g.bid_turn(1, 4, 1, None), (false, false));
    match g.record_bid(0, Bid::Six, false, None) {
        BidStep::Continue(h) => assert_eq!(h, Some((0, Bid::Six))),
        _ => panic!("expected the round to go on"),
    }
    match g.record_bid(1, Bid::Pass, false, Some((0, Bid::Six))) {
        BidStep::Continue(h) => assert_eq!(h, Some((0, Bid::Six))),
        _ => panic!("expected the round to go on"),
    }
    assert!(matches!(g.record_bid(3, Bid::Pass, true, None), BidStep::AllPassed));
    match g.record_bid(3, Bid::Reshuffle, true, None) {
        BidStep::Reshuffled(team) => assert_eq!(team, 0),
        _ => panic!("expected a reshuffle"),
    }
    assert_eq!(g.scores, [1, 0]);
}

#[test]
fn rotation_wraps_round_the_table() {
    assert_eq!(rotation(4, 6), vec![4, 5, 0, 1, 2, 3]);
    assert_eq!(rotation(1, 4), vec![1, 2, 3, 0]);
}

#[test]
fn trick_winner_is_the_first_highest_card() {
    let mut g = Game::new(GameMode::Hokm4, 0);
    g.trump = Some(Suit::Spades);
    let plays = vec![
        (1, card(30, Rank::Nine, Suit::Hearts)),
        (2, card(31, Rank::Ten, Suit::Hearts)),
        (3, card(9, Rank::Ace, Suit::Clubs)),
        (0, card(27, Rank::Two, Suit::Hearts)),
    ];
    assert_eq!(g.trick_winner(&plays), 1);
    let plays = vec![
        (1, card(30, Rank::Nine, Suit::Hearts)),
        (2, card(40, Rank::Two, Suit::Spades)),
        (3, card(54, Rank::RJoker, Suit::Hearts)),
        (0, card(41, Rank::Three, Suit::Spades)),
    ];
    assert_eq!(g.trick_winner(&plays), 2);
    let tie = vec![(1, card(30, Rank::Nine, Suit::Hearts)), (2, card(99, Rank::Nine, Suit::Hearts))];
    assert_eq!(g.trick_winner(&tie), 0);
}

#[test]
fn hand_state_counts_tricks_and_ends_early() {
    let g = Game::new(GameMode::Hokm4, 0);
    let mut h = HandState::new(&g, 3, Bid::Seven);
    assert_eq!((h.leader, h.bidder_team, h.bid_target), (0, 1, 7));
    assert_eq!(h.trick_order(&g), vec![0, 1, 2, 3]);
    assert_eq!(h.finish_trick(1, 1), TrickEnd::Continue);
    assert_eq!(h.leader, 1);
    assert_eq!(h.finish_trick(0, 2), TrickEnd::Continue);
    assert_eq!(h.finish_trick(0, 3), TrickEnd::Continue);
    assert!(!h.early_end);
    assert_eq!(h.finish_trick(0, 4), TrickEnd::OutOfReach);
    assert!(h.early_end);
    assert_eq!(h.tricks_won, [3, 1]);
    assert_eq!(h.leader, 0);
    let mut m = HandState::new(&g, 0, Bid::Five);
    for t in 1..=4 {
        assert_eq!(m.finish_trick(2, t), TrickEnd::Continue);
    }
    assert_eq!(m.finish_trick(0, 5), TrickEnd::BidMet);
    m.note_play(true, 3);
    assert!(m.black_played_by_round3);
}

#[test]
fn note_play_only_counts_the_first_three_tricks() {
    let g = Game::new(GameMode::Hokm4, 0);
    let mut h = HandState::new(&g, 0, Bid::Six);
    h.note_play(true, 4);
    assert!(!h.black_played_by_round3);
    h.note_play(false, 2);
    assert!(!h.black_played_by_round3);
}

#[test]
fn scoring_met_bid_and_penalty() {
    let mut g = Game::new(GameMode::Hokm4, 0);
    let mut h = HandState::new(&g, 1, Bid::Six);
    h.tricks_won = [3, 6];
    h.black_played_by_round3 = true;
    g.score_hand(&h);
    assert_eq!(g.scores, [0, 6]);
    h.black_played_by_round3 = false;
    g.score_hand(&h);
    assert_eq!(g.scores, [0, 27]);
}

#[test]
fn scoring_failed_bid_and_cap() {
    let mut g = Game::new(GameMode::Hokm4, 0);
    let mut h = HandState::new(&g, 0, Bid::Nine);
    h.tricks_won = [4, 5];
    h.black_played_by_round3 = true;
    g.scores = [10, 40];
    g.score_hand(&h);
    assert_eq!(g.scores, [10, MAX_SCORE]);
    // a tie goes to team 1 for the penalty
    let mut t = HandState::new(&g, 1, Bid::Five);
    t.tricks_won = [2, 2];
    t.black_played_by_round3 = false;
    g.scores = [0, 0];
    g.score_hand(&t);
    assert_eq!(g.scores, [10, 15]);
}

#[test]
fn match_end_and_dealer_rotation() {
    let mut g = Game::new(GameMode::Hokm4, 1);
    assert_eq!(g.match_over(), None);
    g.scores = [MAX_SCORE, 3];
    assert_eq!(g.match_over(), Some(MatchEnd::MaxScore));
    g.scores = [0, MERCY_SCORE];
    assert_eq!(g.match_over(), Some(MatchEnd::Mercy));
    g.scores = [1, MERCY_SCORE];
    assert_eq!(g.match_over(), None);
    g.scores = [2, 5];
    assert_eq!(g.next_dealer(), 2);
    g.scores = [5, 5];
    assert_eq!(g.next_dealer(), 1);
    g.dealer = 3;
    g.scores = [0, 9];
    assert_eq!(g.next_dealer(), 0);
}

#[test]
fn first_dealer_is_a_random_seat() {
    let mut seen = [false; 6];
    for _ in 0..300 {
        let d = first_dealer(GameMode::Hokm6);
        assert!(d < 6);
        seen[d] = true;
    }
    assert!(seen.iter().filter(|s| **s).count() > 1);
    assert!(first_dealer(GameMode::Baloot) < 4);
}

#[test]
fn ground_text_lists_the_cards() {
    assert_eq!(ground_text(&[]), "cards on ground: (none)");
    let plays = vec![(0, card(9, Rank::Ace, Suit::Clubs)), (1, card(53, Rank::BJoker, Suit::Spades))];
    assert_eq!(ground_text(&plays), "cards on ground:\n#09 Ace of Clubs, #53 Black Joker");
}
