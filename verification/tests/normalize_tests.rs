use poker_aid::normalize::normalize_board_fragment;
use poker_aid::normalize::normalize_card;
use poker_aid::range::get_generic_hand;

#[test]
fn normalize_card_cases() {
    assert_eq!(normalize_card("ah"), "Ah");
    assert_eq!(normalize_card("AH"), "Ah");
    assert_eq!(normalize_card("Ah"), "Ah");
    assert_eq!(normalize_card("kD"), "Kd");
    // Extra characters are dropped, missing ones take placeholders.
    assert_eq!(normalize_card("ah9"), "Ah");
    assert_eq!(normalize_card("a"), "Ax");
    assert_eq!(normalize_card(""), "Xx");
}

#[test]
fn normalize_board_continuous_run() {
    assert_eq!(normalize_board_fragment("qsjh2h"), "Qs,Jh,2h");
    assert_eq!(normalize_board_fragment("QsJh2h"), "Qs,Jh,2h");
    assert_eq!(normalize_board_fragment("  qs jh 2h  "), "Qs,Jh,2h");
}

#[test]
fn normalize_board_with_commas() {
    assert_eq!(normalize_board_fragment("qs, jh ,2h"), "Qs,Jh,2h");
    assert_eq!(normalize_board_fragment("qs,,2h"), "Qs,2h", "empty tokens are dropped");
    assert_eq!(normalize_board_fragment(" 9d "), "9d");
}

#[test]
fn normalize_board_odd_run_is_kept() {
    // An odd-length run cannot be cut into two-character tokens and is
    // handed back with only whitespace removed.
    assert_eq!(normalize_board_fragment("qsj"), "qsj");
}

#[test]
fn normalize_board_empty() {
    assert_eq!(normalize_board_fragment(""), "");
    assert_eq!(normalize_board_fragment("   "), "");
}

#[test]
fn generic_hand_pairs_suited_offsuit() {
    assert_eq!(get_generic_hand("AhAd"), "AA");
    assert_eq!(get_generic_hand("AhKh"), "AKs");
    assert_eq!(get_generic_hand("AhKd"), "AKo");
    // Ranks are ordered strongest first.
    assert_eq!(get_generic_hand("KdAh"), "AKo");
    assert_eq!(get_generic_hand("2h7d"), "72o");
}

#[test]
fn generic_hand_short_input_falls_back() {
    assert_eq!(get_generic_hand(""), "AA");
    assert_eq!(get_generic_hand("Ah"), "AA");
}
