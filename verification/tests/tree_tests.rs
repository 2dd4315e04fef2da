use poker_aid::tree::HeroStrategy;
use poker_aid::tree::TreeNode;
use poker_aid::tree::extract_strategy_vector;
use poker_aid::tree::extract_street_strategies;
use poker_aid::tree::find_hero_strategy;
use poker_aid::tree::find_hero_strategy_vector;
use poker_aid::tree::find_node_with_hero_strategy;
use poker_aid::tree::hero_strategy_flop;
use poker_aid::tree::hero_strategy_flop_both;
use poker_aid::tree::hero_strategy_from_node;
use poker_aid::tree::hero_strategy_river_both;
use poker_aid::tree::hero_strategy_river_check;
use poker_aid::tree::hero_strategy_turn_both;
use poker_aid::tree::hero_strategy_turn_check;

fn leaf() -> TreeNode {
    TreeNode { strategy: vec![], actions: vec![], childrens: vec![], dealcards: vec![] }
}

fn node_with_strategy(hand: &str, probs: Vec<f64>, actions: Vec<&str>) -> TreeNode {
    TreeNode {
        strategy: vec![(
            hand.to_string(),
            probs.iter().map(|p| Some(p.to_bits())).collect(),
        )],
        actions: actions.iter().map(|a| a.to_string()).collect(),
        childrens: vec![],
        dealcards: vec![],
    }
}

fn bits(xs: &[f64]) -> Vec<u64> {
    xs.iter().map(|x| x.to_bits()).collect()
}

fn probs_of(h: &HeroStrategy) -> Vec<f64> {
    h.probs.iter().map(|b| f64::from_bits(*b)).collect()
}

#[test]
fn exact_key_returns_vector_unchanged() {
    let node = node_with_strategy("AhKd", vec![0.25, 0.75], vec![]);
    let v = extract_strategy_vector(&node, "AhKd").expect("exact key must be found");
    assert_eq!(v, bits(&[0.25, 0.75]));
}

#[test]
fn swapped_key_fallback() {
    // The table holds the two hole cards in the opposite order.
    let node = node_with_strategy("KdAh", vec![0.4, 0.6], vec![]);
    let v = extract_strategy_vector(&node, "AhKd").expect("swapped key must be found");
    assert_eq!(v, bits(&[0.4, 0.6]));
}

#[test]
fn swap_fallback_only_for_four_character_keys() {
    let node = node_with_strategy("KdAh9c", vec![0.4, 0.6], vec![]);
    assert!(extract_strategy_vector(&node, "AhKd9c").is_none());
}

#[test]
fn non_numeric_entries_are_dropped() {
    let mut node = leaf();
    node.strategy.push((
        "AhKd".to_string(),
        vec![Some(0.5f64.to_bits()), None, Some(0.5f64.to_bits())],
    ));
    let v = extract_strategy_vector(&node, "AhKd").expect("key present");
    assert_eq!(v, bits(&[0.5, 0.5]));
}

#[test]
fn probabilities_truncate_to_action_count() {
    // More probabilities than actions: the pair truncates to two entries.
    let node = node_with_strategy("AhKd", vec![0.3, 0.7, 0.0], vec!["CHECK", "BET"]);
    let h = hero_strategy_from_node(&node, "AhKd").expect("strategy expected");
    assert_eq!(h.actions, vec!["CHECK".to_string(), "BET".to_string()]);
    assert_eq!(probs_of(&h), vec![0.3, 0.7]);
}

#[test]
fn actions_truncate_to_probability_count() {
    let node = node_with_strategy("AhKd", vec![1.0], vec!["CHECK", "BET"]);
    let h = hero_strategy_from_node(&node, "AhKd").expect("strategy expected");
    assert_eq!(h.actions, vec!["CHECK".to_string()]);
    assert_eq!(probs_of(&h), vec![1.0]);
}

#[test]
fn labels_synthesize_when_no_actions() {
    let node = node_with_strategy("AhKd", vec![0.4, 0.6], vec![]);
    let h = hero_strategy_from_node(&node, "AhKd").expect("strategy expected");
    assert_eq!(h.actions, vec!["action #0".to_string(), "action #1".to_string()]);
    assert_eq!(probs_of(&h), vec![0.4, 0.6]);
}

#[test]
fn synthesized_labels_count_past_ten() {
    let probs: Vec<f64> = (0..11).map(|i| i as f64 / 11.0).collect();
    let node = node_with_strategy("AhKd", probs, vec![]);
    let h = hero_strategy_from_node(&node, "AhKd").expect("strategy expected");
    assert_eq!(h.actions.len(), 11);
    assert_eq!(h.actions[9], "action #9");
    assert_eq!(h.actions[10], "action #10");
}

#[test]
fn absent_hand_yields_nothing() {
    let node = node_with_strategy("AhKd", vec![1.0], vec!["CHECK"]);
    assert!(hero_strategy_from_node(&node, "QsQc").is_none());
}

fn street_node(hand: &str) -> TreeNode {
    // A street: the hand at the root, at the CHECK child, and at the
    // CHECK child's "BET 50" child.
    let mut root = node_with_strategy(hand, vec![0.9, 0.1], vec!["CHECK", "BET 50"]);
    let mut check = node_with_strategy(hand, vec![0.8, 0.2], vec!["CHECK", "BET 50"]);
    let vs_bet = node_with_strategy(hand, vec![0.5, 0.3, 0.2], vec!["FOLD", "CALL", "RAISE"]);
    check.childrens.push(("BET 50".to_string(), vs_bet));
    root.childrens.push(("CHECK".to_string(), check));
    root
}

#[test]
fn flop_extracts_all_three_parts() {
    let root = street_node("AhKd");
    let (oop, ip, vs_bet) = hero_strategy_flop_both(&root, "AhKd");
    assert_eq!(probs_of(&oop.expect("oop")), vec![0.9, 0.1]);
    assert_eq!(probs_of(&ip.expect("ip")), vec![0.8, 0.2]);
    let vs_bet = vs_bet.expect("vs bet");
    assert_eq!(vs_bet.actions, vec!["FOLD".to_string(), "CALL".to_string(), "RAISE".to_string()]);
    assert_eq!(probs_of(&vs_bet), vec![0.5, 0.3, 0.2]);
}

#[test]
fn each_street_part_may_be_absent() {
    let root = node_with_strategy("AhKd", vec![1.0], vec!["CHECK"]);
    let (oop, ip, vs_bet) = extract_street_strategies(&root, "AhKd");
    assert!(oop.is_some());
    assert!(ip.is_none(), "no CHECK child");
    assert!(vs_bet.is_none());
}

#[test]
fn flop_single_prefers_in_position() {
    let root = street_node("AhKd");
    let h = hero_strategy_flop(&root, "AhKd").expect("strategy");
    assert_eq!(probs_of(&h), vec![0.8, 0.2], "the CHECK child's strategy wins");
}

#[test]
fn flop_single_falls_back_to_out_of_position() {
    let root = node_with_strategy("AhKd", vec![1.0], vec!["CHECK"]);
    let h = hero_strategy_flop(&root, "AhKd").expect("strategy");
    assert_eq!(probs_of(&h), vec![1.0]);
}

fn tree_with_turn(hand: &str, turn_card: &str) -> TreeNode {
    let mut root = leaf();
    let mut c1 = leaf();
    let mut chance = leaf();
    chance.dealcards.push((turn_card.to_string(), street_node(hand)));
    c1.childrens.push(("CHECK".to_string(), chance));
    root.childrens.push(("CHECK".to_string(), c1));
    root
}

#[test]
fn turn_query_walks_check_check_deal() {
    let root = tree_with_turn("AhKd", "2c");
    let (oop, ip, vs_bet) = hero_strategy_turn_both(&root, "AhKd", "2c").expect("turn node");
    assert_eq!(probs_of(&oop.expect("oop")), vec![0.9, 0.1]);
    assert_eq!(probs_of(&ip.expect("ip")), vec![0.8, 0.2]);
    assert!(vs_bet.is_some());
    let h = hero_strategy_turn_check(&root, "AhKd", "2c").expect("strategy");
    assert_eq!(probs_of(&h), vec![0.8, 0.2]);
}

#[test]
fn turn_query_missing_first_check_yields_nothing() {
    let mut root = leaf();
    root.childrens.push(("BET 50".to_string(), leaf()));
    assert!(hero_strategy_turn_both(&root, "AhKd", "2c").is_none());
    assert!(hero_strategy_turn_check(&root, "AhKd", "2c").is_none());
}

#[test]
fn turn_query_missing_second_check_yields_nothing() {
    let mut root = leaf();
    root.childrens.push(("CHECK".to_string(), leaf()));
    assert!(hero_strategy_turn_both(&root, "AhKd", "2c").is_none());
}

#[test]
fn turn_query_missing_card_yields_nothing() {
    let root = tree_with_turn("AhKd", "2c");
    assert!(hero_strategy_turn_both(&root, "AhKd", "9d").is_none());
}

fn tree_with_river(hand: &str, turn_card: &str, river_card: &str) -> TreeNode {
    let mut turn_node = leaf();
    let mut t1 = leaf();
    let mut t2 = leaf();
    t2.dealcards.push((river_card.to_string(), street_node(hand)));
    t1.childrens.push(("CHECK".to_string(), t2));
    turn_node.childrens.push(("CHECK".to_string(), t1));
    let mut root = leaf();
    let mut c1 = leaf();
    let mut chance = leaf();
    chance.dealcards.push((turn_card.to_string(), turn_node));
    c1.childrens.push(("CHECK".to_string(), chance));
    root.childrens.push(("CHECK".to_string(), c1));
    root
}

#[test]
fn river_query_walks_both_streets() {
    let root = tree_with_river("AhKd", "2c", "9d");
    let (oop, ip, _) = hero_strategy_river_both(&root, "AhKd", "2c", "9d").expect("river node");
    assert_eq!(probs_of(&oop.expect("oop")), vec![0.9, 0.1]);
    assert_eq!(probs_of(&ip.expect("ip")), vec![0.8, 0.2]);
    let h = hero_strategy_river_check(&root, "AhKd", "2c", "9d").expect("strategy");
    assert_eq!(probs_of(&h), vec![0.8, 0.2]);
}

#[test]
fn river_query_missing_turn_check_yields_nothing() {
    // The turn node exists but has no CHECK child of its own.
    let root = tree_with_turn("AhKd", "2c");
    assert!(hero_strategy_river_both(&root, "AhKd", "2c", "9d").is_none());
}

#[test]
fn river_query_missing_first_check_yields_nothing() {
    let root = leaf();
    assert!(hero_strategy_river_both(&root, "AhKd", "2c", "9d").is_none());
}

#[test]
fn find_node_prefers_the_node_itself() {
    let node = node_with_strategy("AhKd", vec![1.0], vec![]);
    let found = find_node_with_hero_strategy(&node, "AhKd").expect("found");
    assert_eq!(found.strategy.len(), 1);
}

#[test]
fn find_node_searches_depth_first() {
    let mut root = leaf();
    let mut first_child = leaf();
    first_child.childrens.push(("CHECK".to_string(), node_with_strategy("QsQc", vec![0.2, 0.8], vec![])));
    root.childrens.push(("CHECK".to_string(), first_child));
    root.childrens.push(("BET 50".to_string(), node_with_strategy("QsQc", vec![0.5, 0.5], vec![])));
    // Depth first: the deep node under the first child wins over the
    // shallower node under the second.
    let found = find_node_with_hero_strategy(&root, "QsQc").expect("found");
    let v = extract_strategy_vector(found, "QsQc").expect("vector");
    assert_eq!(v, bits(&[0.2, 0.8]));
}

#[test]
fn find_node_misses_without_exact_key() {
    // The descendant search uses the exact key only, no swap fallback.
    let node = node_with_strategy("KdAh", vec![1.0], vec![]);
    assert!(find_node_with_hero_strategy(&node, "AhKd").is_none());
}

#[test]
fn find_hero_strategy_in_a_subtree() {
    let mut root = leaf();
    root.childrens.push(("CHECK".to_string(), node_with_strategy("AhKd", vec![0.1, 0.9], vec!["CHECK", "BET 50"])));
    let h = find_hero_strategy(&root, "AhKd").expect("strategy");
    assert_eq!(h.actions, vec!["CHECK".to_string(), "BET 50".to_string()]);
    assert_eq!(probs_of(&h), vec![0.1, 0.9]);
    let v = find_hero_strategy_vector(&root, "AhKd").expect("vector");
    assert_eq!(v, bits(&[0.1, 0.9]));
    assert!(find_hero_strategy(&root, "2c2d").is_none());
}
