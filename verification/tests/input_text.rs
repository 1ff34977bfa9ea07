use hokm::bid::Bid;
use hokm::cards::GameMode;
use hokm::text::parse_usize;

#[test]
fn bid_from_input_reads_digits_and_words() {
    assert_eq!(Bid::from_input("5"), Some(Bid::Five));
    assert_eq!(Bid::from_input(" FIVE \n"), Some(Bid::Five));
    assert_eq!(Bid::from_input("Six"), Some(Bid::Six));
    assert_eq!(Bid::from_input("7\r\n"), Some(Bid::Seven));
    assert_eq!(Bid::from_input("eIgHt"), Some(Bid::Eight));
    assert_eq!(Bid::from_input("nine"), Some(Bid::Nine));
    assert_eq!(Bid::from_input("P"), Some(Bid::Pass));
    assert_eq!(Bid::from_input("pass"), Some(Bid::Pass));
    assert_eq!(Bid::from_input("r"), Some(Bid::Reshuffle));
    assert_eq!(Bid::from_input("Reshuffle"), Some(Bid::Reshuffle));
}

#[test]
fn bid_from_input_rejects_other_text() {
    assert_eq!(Bid::from_input("10"), None);
    assert_eq!(Bid::from_input(""), None);
    assert_eq!(Bid::from_input("fiv"), None);
    assert_eq!(Bid::from_input("pa ss"), None);
    assert_eq!(Bid::from_input("4"), None);
}

#[test]
fn bid_values_and_labels() {
    let all = [Bid::Pass, Bid::Five, Bid::Six, Bid::Seven, Bid::Eight, Bid::Nine, Bid::Reshuffle];
    let values: Vec<u8> = all.iter().map(|b| b.value()).collect();
    assert_eq!(values, vec![0, 5, 6, 7, 8, 9, 0]);
    let labels: Vec<&str> = all.iter().map(|b| b.label()).collect();
    assert_eq!(labels, vec!["pass", "5", "6", "7", "8", "9", "reshuffle"]);
    for b in all {
        assert_eq!(Bid::from_input(b.label()), Some(b));
    }
}

#[test]
fn mode_from_choice() {
    assert_eq!(GameMode::from_choice("1\n"), Some(GameMode::Hokm4));
    assert_eq!(GameMode::from_choice("  2 "), Some(GameMode::Hokm6));
    assert_eq!(GameMode::from_choice("3"), Some(GameMode::Baloot));
    assert_eq!(GameMode::from_choice("4"), None);
    assert_eq!(GameMode::from_choice("12"), None);
    assert_eq!(GameMode::from_choice(""), None);
    assert_eq!(GameMode::Hokm4.num_players(), 4);
    assert_eq!(GameMode::Hokm6.num_players(), 6);
    assert_eq!(GameMode::Baloot.num_players(), 4);
}

#[test]
fn parse_usize_reads_numbers() {
    assert_eq!(parse_usize("0"), Some(0));
    assert_eq!(parse_usize("  12\n"), Some(12));
    assert_eq!(parse_usize("+3"), Some(3));
    assert_eq!(parse_usize("007"), Some(7));
    assert_eq!(parse_usize("18446744073709551615"), Some(18446744073709551615usize));
}

#[test]
fn parse_usize_rejects_other_text() {
    assert_eq!(parse_usize(""), None);
    assert_eq!(parse_usize("+"), None);
    assert_eq!(parse_usize("-1"), None);
    assert_eq!(parse_usize("1 2"), None);
    assert_eq!(parse_usize("x"), None);
    assert_eq!(parse_usize("18446744073709551616"), None);
    assert_eq!(parse_usize("99999999999999999999999"), None);
    assert_eq!(parse_usize("1e3"), None);
}

#[test]
fn parse_usize_agrees_with_std() {
    for s in ["5", " 42 ", "+0", "abc", "", "-", "00", "12a", "\t9\n"] {
        assert_eq!(parse_usize(s), s.trim().parse::<usize>().ok(), "input {:?}", s);
    }
}
