use poker_aid::cards::Card;
use poker_aid::cards::parse_single_card;
use poker_aid::cards::parse_cards;
use poker_aid::cards::rank_name;
use poker_aid::cards::suit_name;
use poker_aid::evaluator::calculate_strength;
use poker_aid::evaluator::check_straight;
use poker_aid::evaluator::evaluate_hand;
use poker_aid::evaluator::is_straight;

#[test]
fn parse_valid_cards() {
    assert_eq!(parse_single_card("Ah"), Some(Card { rank: 12, suit: 0 }));
    assert_eq!(parse_single_card("2s"), Some(Card { rank: 0, suit: 3 }));
    assert_eq!(parse_single_card("Td"), Some(Card { rank: 8, suit: 1 }));
    assert_eq!(parse_single_card("9c"), Some(Card { rank: 7, suit: 2 }));
}

#[test]
fn parse_invalid_cards() {
    assert_eq!(parse_single_card(""), None);
    assert_eq!(parse_single_card("A"), None);
    assert_eq!(parse_single_card("Ahh"), None);
    assert_eq!(parse_single_card("ah"), None, "lowercase rank is not recognized");
    assert_eq!(parse_single_card("AH"), None, "uppercase suit is not recognized");
    assert_eq!(parse_single_card("1h"), None);
    assert_eq!(parse_single_card("Ax"), None);
}

#[test]
fn parse_cards_strips_commas_and_skips_garbage() {
    let cards = parse_cards("AhKh", "Qh,Jh,2h");
    assert_eq!(cards.len(), 5);
    assert_eq!(cards[0], Card { rank: 12, suit: 0 });
    assert_eq!(cards[4], Card { rank: 0, suit: 0 });
    // An unrecognized pair is skipped, the rest still parsed.
    let cards = parse_cards("Xx", "AhKd");
    assert_eq!(cards.len(), 2);
    // A trailing odd character is dropped.
    let cards = parse_cards("Ah", "K");
    assert_eq!(cards.len(), 1);
}

#[test]
fn straight_detection_exact() {
    assert_eq!(check_straight(&vec![12, 11, 10, 9, 8]), Some(12));
    assert_eq!(check_straight(&vec![12, 10, 9, 8, 7, 6]), Some(10));
    assert_eq!(check_straight(&vec![12, 11, 10, 9]), None, "four in a row is no straight");
    assert_eq!(check_straight(&vec![12, 3, 2, 1, 0]), Some(3), "the wheel is five high");
    assert_eq!(check_straight(&vec![12, 10, 8, 6, 4]), None);
    assert!(is_straight(&vec![6, 5, 4, 3, 2]));
    assert!(!is_straight(&vec![6, 5, 4, 3]));
}

#[test]
fn names_of_ranks_and_suits() {
    assert_eq!(suit_name(0), "Hearts");
    assert_eq!(suit_name(3), "Spades");
    assert_eq!(suit_name(9), "?");
    assert_eq!(rank_name(0), "Two");
    assert_eq!(rank_name(12), "Ace");
    assert_eq!(rank_name(42), "?");
}

#[test]
fn flush_of_hearts() {
    // Five hearts: a flush; the high card is the Ace, 75 + 12*5/13 = 79.
    let out = evaluate_hand("AhKh", "Qh,Jh,2h");
    assert_eq!(out, "Flush (Hearts) (Strength: 79/100)");
}

#[test]
fn three_of_a_kind_of_aces() {
    // Three aces: 60 + 12*10/13 = 69, within the 60..70 band.
    let out = evaluate_hand("AhAd", "Ac,Kd,2s");
    assert_eq!(out, "Three of a Kind (Strength: 69/100)");
}

#[test]
fn wheel_straight_is_five_high() {
    // Ranks Ace,5,4,3,2 present: the wheel; high is 3, 70 + 3*5/13 = 71.
    let out = evaluate_hand("5h4d", "3c,2s,Ah");
    assert_eq!(out, "Straight (Strength: 71/100)");
}

#[test]
fn garbage_input_is_unknown() {
    assert_eq!(evaluate_hand("", ""), "Unknown");
    assert_eq!(evaluate_hand("zz", "!!"), "Unknown");
    assert_eq!(evaluate_hand("A", ""), "Unknown");
}

#[test]
fn repeated_evaluation_is_identical() {
    let a = evaluate_hand("AhKh", "Qh,Jh,2h");
    let b = evaluate_hand("AhKh", "Qh,Jh,2h");
    assert_eq!(a, b);
    let c = evaluate_hand("zz", "");
    let d = evaluate_hand("zz", "");
    assert_eq!(c, d);
}

#[test]
fn straight_flush_tops_the_bands() {
    let out = evaluate_hand("AhKh", "Qh,Jh,Th");
    assert_eq!(out, "Straight Flush (Strength: 99/100)");
}

#[test]
fn four_of_a_kind() {
    let out = evaluate_hand("AhAd", "Ac,As,2s");
    assert_eq!(out, "Four of a Kind (Strength: 94/100)");
}

#[test]
fn full_house() {
    let out = evaluate_hand("AhAd", "Ac,Kd,Ks");
    assert_eq!(out, "Full House (Strength: 89/100)");
}

#[test]
fn two_pair() {
    let out = evaluate_hand("AhKd", "Ac,Kh,2s");
    assert_eq!(out, "Two Pair (Strength: 58/100)");
}

#[test]
fn pair_is_named_after_its_rank() {
    let out = evaluate_hand("AhKd", "Ac,Qs,2s");
    assert_eq!(out, "Pair of Aces (Strength: 38/100)");
}

#[test]
fn high_card_pre_flop() {
    // Two cards alone are a valid evaluation: high card Ace, 12*20/13 = 18.
    let out = evaluate_hand("AhKd", "");
    assert_eq!(out, "High Card (Ace) (Strength: 18/100)");
}

#[test]
fn high_card_on_a_dry_board() {
    let out = evaluate_hand("Ah9d", "Qc,Js,2s");
    assert_eq!(out, "High Card (Ace) (Strength: 18/100)");
}

#[test]
fn straight_on_the_board() {
    // Ranks K,Q,J,T,9 descending: straight, high King (rank 11), 70 + 11*5/13 = 74.
    let out = evaluate_hand("KhQd", "Jc,Ts,9s");
    assert_eq!(out, "Straight (Strength: 74/100)");
}

#[test]
fn seven_cards_full_board() {
    // Hero plus five board cards all count.
    let out = evaluate_hand("2h2d", "2c,7s,8s,9h,Th");
    assert_eq!(out, "Three of a Kind (Strength: 60/100)");
}

#[test]
fn repeated_card_can_still_make_a_straight_flush() {
    // The same card supplied twice: the duplicate ace delays but does not
    // break the descending run K,Q,J,T topped by an ace.
    let out = evaluate_hand("AhAh", "KhQhJhTh");
    assert_eq!(out, "Straight Flush (Strength: 99/100)");
}

#[test]
fn repeated_card_inside_the_run_breaks_it() {
    // A duplicated king interrupts the run in the suit's sorted ranks, so
    // only the flush is seen even though A,K,Q,J,T are all present.
    let out = evaluate_hand("AhKh", "KhQhJhTh");
    assert_eq!(out, "Flush (Hearts) (Strength: 79/100)");
}

#[test]
fn calculate_strength_directly() {
    let cards = parse_cards("AhKd", "Ac,Qs,2s");
    let (desc, score) = calculate_strength(&cards);
    assert_eq!(desc, "Pair of Aces");
    assert_eq!(score, 38);
}
