//! Game-tree strategy resolver: walks a solved decision-tree document along
//! the fixed check-check-deal path of each street and reads the strategy a
//! node holds for a two-card hand, with an order-swap fallback for four
//! character hand keys.
//!
//! The document is held as [`TreeNode`]: the string-keyed maps of the source
//! document become association lists in document order, and each probability
//! is carried opaquely as the bit pattern of its 64-bit float — the resolver
//! never interprets probabilities, it only selects and pairs them. An entry
//! of a strategy vector that was not numeric in the document is `None` and
//! is dropped on extraction.

use vstd::prelude::*;

use crate::evaluator::dec_str;
use crate::evaluator::usize_dec;

verus! {

/// One node of the solved tree document.
///
/// `strategy` maps hand keys to probability vectors; `actions` lists the
/// action labels those vectors are aligned with; `childrens` (named as in
/// the document) maps action names to the nodes after that action;
/// `dealcards` maps card tokens to the nodes after that card is dealt.
/// A map the document lacks is simply empty.
pub struct TreeNode {
    pub strategy: Vec<(String, Vec<Option<u64>>)>,
    pub actions: Vec<String>,
    pub childrens: Vec<(String, TreeNode)>,
    pub dealcards: Vec<(String, TreeNode)>,
}

/// An ordered pairing of action labels with probabilities, equal in length.
/// Probabilities are bit patterns of 64-bit floats, carried unread.
pub struct HeroStrategy {
    pub actions: Vec<String>,
    pub probs: Vec<u64>,
}

// ---------------------------------------------------------------------------
// String helpers
// ---------------------------------------------------------------------------
/// Compares two strings character by character.
fn str_eq(a: &str, b: &str) -> (r: bool)
    ensures
        r == (a@ == b@),
{
    let n = a.unicode_len();
    if n != b.unicode_len() {
        return false;
    }
    let mut i: usize = 0;
    while i < n
        invariant
            i <= n,
            n == a@.len(),
            n == b@.len(),
            forall|j: int| 0 <= j < i ==> a@[j] == b@[j],
        decreases n - i,
    {
        if a.get_char(i) != b.get_char(i) {
            return false;
        }
        i += 1;
    }
    proof {
        assert(a@ =~= b@);
    }
    true
}

/// `p` occurs somewhere in `s` as a contiguous substring.
pub open spec fn has_substr(s: Seq<char>, p: Seq<char>) -> bool {
    exists|i: int|
        0 <= i && i + p.len() <= s.len() && #[trigger] s.subrange(i, i + p.len() as int) == p
}

/// Whether `pat` occurs in `s` as a contiguous substring.
fn contains_sub(s: &str, pat: &str) -> (r: bool)
    ensures
        r == has_substr(s@, pat@),
{
    let n = s.unicode_len();
    let m = pat.unicode_len();
    if m > n {
        return false;
    }
    if m == 0 {
        proof {
            assert(s@.subrange(0, 0 + pat@.len() as int) =~= pat@);
        }
        return true;
    }
    let mut i: usize = 0;
    while i <= n - m
        invariant
            0 < m <= n,
            n == s@.len(),
            m == pat@.len(),
            i <= n - m + 1,
            forall|j: int|
                0 <= j < i ==> #[trigger] s@.subrange(j, j + pat@.len() as int) != pat@,
        decreases n - m + 1 - i,
    {
        if str_eq(s.substring_char(i, i + m), pat) {
            return true;
        }
        i += 1;
    }
    false
}

// ---------------------------------------------------------------------------
// Association-list lookup
// ---------------------------------------------------------------------------
/// The value of the first entry carrying `key`, if any.
pub open spec fn lookup<T>(entries: Seq<(String, T)>, key: Seq<char>) -> Option<T>
    decreases entries.len(),
{
    if entries.len() == 0 {
        None
    } else if entries[0].0@ == key {
        Some(entries[0].1)
    } else {
        lookup(entries.drop_first(), key)
    }
}

/// Finds the first entry carrying `key`.
fn lookup_entry<'a, T>(entries: &'a Vec<(String, T)>, key: &str) -> (r: Option<&'a T>)
    ensures
        match r {
            Some(v) => lookup(entries@, key@) == Some(*v),
            None => lookup(entries@, key@) is None,
        },
{
    let mut i: usize = 0;
    proof {
        assert(entries@.skip(0) =~= entries@);
    }
    while i < entries.len()
        invariant
            i <= entries@.len(),
            lookup(entries@, key@) == lookup(entries@.skip(i as int), key@),
        decreases entries@.len() - i,
    {
        proof {
            assert(entries@.skip(i as int)[0] == entries@[i as int]);
            assert(entries@.skip(i as int).drop_first() =~= entries@.skip(i + 1));
        }
        if str_eq(entries[i].0.as_str(), key) {
            return Some(&entries[i].1);
        }
        i += 1;
    }
    None
}

// ---------------------------------------------------------------------------
// Strategy extraction at a single node
// ---------------------------------------------------------------------------
/// The same hand key with its two card tokens in swapped order.
pub open spec fn swapped_key(hand: Seq<char>) -> Seq<char> {
    hand.subrange(2, 4) + hand.subrange(0, 2)
}

/// The raw probability vector a node's strategy table holds for a hand:
/// under the exact key first, and else, for a four-character key, under the
/// key with the two card tokens swapped.
pub open spec fn strategy_probs_spec(node: TreeNode, hand: Seq<char>) -> Option<
    Seq<Option<u64>>,
> {
    match lookup(node.strategy@, hand) {
        Some(v) => Some(v@),
        None => if hand.len() == 4 {
            match lookup(node.strategy@, swapped_key(hand)) {
                Some(v) => Some(v@),
                None => None,
            }
        } else {
            None
        },
    }
}

/// For a strategy table holding exactly one entry, under exactly the hand
/// key asked for, resolution returns the associated vector unchanged, in
/// order.
pub proof fn lemma_exact_key_returns_vector(
    node: TreeNode,
    hand: Seq<char>,
    entry: (String, Vec<Option<u64>>),
)
    requires
        node.strategy@ == seq![entry],
        entry.0@ == hand,
    ensures
        strategy_probs_spec(node, hand) == Some(entry.1@),
{
}

/// A probability vector whose entries are all numeric passes through the
/// extraction unchanged, element for element and in order.
pub proof fn lemma_numeric_probs_all_numeric(s: Seq<Option<u64>>)
    requires
        forall|i: int| 0 <= i < s.len() ==> (#[trigger] s[i]) is Some,
    ensures
        numeric_probs(s).len() == s.len(),
        forall|i: int| 0 <= i < s.len() ==> #[trigger] numeric_probs(s)[i] == s[i]->0,
    decreases s.len(),
{
    if s.len() > 0 {
        lemma_numeric_probs_all_numeric(s.drop_last());
    }
}

/// For a four-character hand key absent from the table while the key with
/// the same two card tokens in swapped order is present, resolution returns
/// the swapped key's vector.
pub proof fn lemma_swapped_key_fallback(node: TreeNode, hand: Seq<char>, v: Vec<Option<u64>>)
    requires
        hand.len() == 4,
        lookup(node.strategy@, hand) is None,
        lookup(node.strategy@, swapped_key(hand)) == Some(v),
    ensures
        strategy_probs_spec(node, hand) == Some(v@),
{
}

/// The numeric entries of a probability vector, in order; entries that were
/// not numeric in the document are dropped.
pub open spec fn numeric_probs(s: Seq<Option<u64>>) -> Seq<u64>
    decreases s.len(),
{
    if s.len() == 0 {
        Seq::empty()
    } else {
        numeric_probs(s.drop_last()) + (match s.last() {
            Some(x) => seq![x],
            None => Seq::empty(),
        })
    }
}

/// The probability vector extracted for a hand at a node: resolved under the
/// exact or swapped key, then reduced to its numeric entries.
pub open spec fn extract_vector_spec(node: TreeNode, hand: Seq<char>) -> Option<Seq<u64>> {
    match strategy_probs_spec(node, hand) {
        Some(v) => Some(numeric_probs(v)),
        None => None,
    }
}

/// Reads the probability vector a node's strategy table holds for the hero
/// hand: exact key first, then — for a four-character key — the key with the
/// two card tokens swapped. Non-numeric entries are dropped, the rest kept
/// in order.
pub fn extract_strategy_vector(node: &TreeNode, hero_hand: &str) -> (r: Option<Vec<u64>>)
    ensures
        match r {
            Some(v) => extract_vector_spec(*node, hero_hand@) == Some(v@),
            None => extract_vector_spec(*node, hero_hand@) is None,
        },
{
    let mut found: Option<&Vec<Option<u64>>> = lookup_entry(&node.strategy, hero_hand);
    let swapped: String;
    if found.is_none() && hero_hand.unicode_len() == 4 {
        let h2 = hero_hand.substring_char(2, 4);
        let h1 = hero_hand.substring_char(0, 2);
        swapped = String::from_str(h2).concat(h1);
        proof {
            assert(swapped@ == swapped_key(hero_hand@));
        }
        found = lookup_entry(&node.strategy, swapped.as_str());
    }
    match found {
        None => None,
        Some(v) => {
            let mut out: Vec<u64> = Vec::new();
            let mut i: usize = 0;
            proof {
                assert(v@.take(0) =~= Seq::<Option<u64>>::empty());
            }
            while i < v.len()
                invariant
                    i <= v@.len(),
                    out@ == numeric_probs(v@.take(i as int)),
                decreases v@.len() - i,
            {
                proof {
                    assert(v@.take(i + 1).drop_last() =~= v@.take(i as int));
                    assert(v@.take(i + 1).last() == v@[i as int]);
                }
                match v[i] {
                    Some(x) => {
                        out.push(x);
                    },
                    None => {},
                }
                i += 1;
            }
            proof {
                assert(v@.take(v@.len() as int) =~= v@);
            }
            Some(out)
        },
    }
}

/// Copies a node's action label list.
fn extract_actions(node: &TreeNode) -> (r: Vec<String>)
    ensures
        r@ == node.actions@,
{
    let mut out: Vec<String> = Vec::new();
    let mut i: usize = 0;
    while i < node.actions.len()
        invariant
            i <= node.actions@.len(),
            out@.len() == i,
            forall|j: int| 0 <= j < i ==> out@[j] == node.actions@[j],
        decreases node.actions@.len() - i,
    {
        out.push(node.actions[i].clone());
        i += 1;
    }
    proof {
        assert(out@ =~= node.actions@);
    }
    out
}

/// The label synthesized for position `i` when a node lists no actions.
pub open spec fn label_spec(i: nat) -> Seq<char> {
    "action #"@ + dec_str(i)
}

/// The labels synthesized for `n` probabilities.
pub open spec fn synth_labels(n: nat) -> Seq<Seq<char>> {
    Seq::new(n, |i: int| label_spec(i as nat))
}

/// The strategy a node yields for a hand: its probability vector paired with
/// the node's action labels, both truncated to the shorter length; with no
/// labels at all, positional labels are synthesized instead.
pub open spec fn hero_strategy_spec(node: TreeNode, hand: Seq<char>) -> Option<
    (Seq<Seq<char>>, Seq<u64>),
> {
    match extract_vector_spec(node, hand) {
        None => None,
        Some(probs) => {
            let acts = node.actions.deep_view();
            if acts.len() > 0 {
                let n = if acts.len() <= probs.len() {
                    acts.len() as int
                } else {
                    probs.len() as int
                };
                Some((acts.take(n), probs.take(n)))
            } else {
                Some((synth_labels(probs.len()), probs))
            }
        },
    }
}

/// The mathematical content of a strategy: action labels and probability
/// bit patterns, by position.
pub open spec fn hs_view(h: HeroStrategy) -> (Seq<Seq<char>>, Seq<u64>) {
    (h.actions.deep_view(), h.probs@)
}

/// The content of an optional strategy.
pub open spec fn opt_hs_view(o: Option<HeroStrategy>) -> Option<(Seq<Seq<char>>, Seq<u64>)> {
    match o {
        Some(h) => Some(hs_view(h)),
        None => None,
    }
}

/// Builds the strategy a node holds for the hero hand: the extracted
/// probability vector paired with the node's action labels, truncated to the
/// shorter of the two; when the node lists no labels, labels `action #0`,
/// `action #1`, ... are synthesized.
pub fn hero_strategy_from_node(node: &TreeNode, hero_hand: &str) -> (r: Option<HeroStrategy>)
    ensures
        opt_hs_view(r) == hero_strategy_spec(*node, hero_hand@),
        r matches Some(h) ==> h.actions@.len() == h.probs@.len(),
{
    match extract_strategy_vector(node, hero_hand) {
        None => None,
        Some(probs) => {
            let mut probs = probs;
            let mut actions = extract_actions(node);
            if actions.len() > 0 {
                let n = if actions.len() <= probs.len() {
                    actions.len()
                } else {
                    probs.len()
                };
                actions.truncate(n);
                probs.truncate(n);
                proof {
                    assert(actions.deep_view() =~= node.actions.deep_view().take(n as int)) by {
                        assert forall|j: int| 0 <= j < n implies actions.deep_view()[j]
                            == node.actions.deep_view().take(n as int)[j] by {
                            assert(actions@[j] == node.actions@[j]);
                        }
                    }
                }
                Some(HeroStrategy { actions, probs })
            } else {
                let mut labels: Vec<String> = Vec::new();
                let mut i: usize = 0;
                let total = probs.len();
                while i < total
                    invariant
                        i <= total,
                        labels@.len() == i,
                        forall|j: int| 0 <= j < i ==> #[trigger] labels@[j]@ == label_spec(
                            j as nat,
                        ),
                    decreases total - i,
                {
                    labels.push(String::from_str("action #").concat(usize_dec(i).as_str()));
                    i += 1;
                }
                proof {
                    assert(labels.deep_view() =~= synth_labels(probs@.len())) by {
                        assert forall|j: int| 0 <= j < labels@.len() implies labels.deep_view()[j]
                            == synth_labels(probs@.len())[j] by {
                            assert(labels@[j]@ == label_spec(j as nat));
                        }
                    }
                }
                Some(HeroStrategy { actions: labels, probs })
            }
        },
    }
}

// ---------------------------------------------------------------------------
// Searching a subtree for a hand's strategy
// ---------------------------------------------------------------------------
/// The node's strategy table holds the hand under its exact key.
pub open spec fn node_has_hand(node: TreeNode, hand: Seq<char>) -> bool {
    lookup(node.strategy@, hand) is Some
}

/// The first node in depth-first document order, starting at `node` and
/// descending through `childrens`, whose strategy table holds the hand.
pub open spec fn find_node_spec(node: TreeNode, hand: Seq<char>) -> Option<TreeNode>
    decreases node, 0int,
{
    if node_has_hand(node, hand) {
        Some(node)
    } else {
        find_in_children(node.childrens@, hand, 0)
    }
}

/// The first hit of the depth-first search among the subtrees of
/// `entries[i..]`.
pub open spec fn find_in_children(
    entries: Seq<(String, TreeNode)>,
    hand: Seq<char>,
    i: int,
) -> Option<TreeNode>
    decreases entries, entries.len() - i,
{
    if i < 0 || i >= entries.len() {
        None
    } else {
        match find_node_spec(entries[i].1, hand) {
            Some(n) => Some(n),
            None => find_in_children(entries, hand, i + 1),
        }
    }
}

/// Depth-first search for the first descendant (or the node itself, checked
/// first) whose strategy table holds the hero hand under its exact key.
pub fn find_node_with_hero_strategy<'a>(node: &'a TreeNode, hero_hand: &str) -> (r: Option<
    &'a TreeNode,
>)
    ensures
        match r {
            Some(n) => find_node_spec(*node, hero_hand@) == Some(*n),
            None => find_node_spec(*node, hero_hand@) is None,
        },
    decreases *node, 1int,
{
    if lookup_entry(&node.strategy, hero_hand).is_some() {
        return Some(node);
    }
    let mut i: usize = 0;
    while i < node.childrens.len()
        invariant
            i <= node.childrens@.len(),
            !node_has_hand(*node, hero_hand@),
            find_in_children(node.childrens@, hero_hand@, 0) == find_in_children(
                node.childrens@,
                hero_hand@,
                i as int,
            ),
        decreases *node, 0int, node.childrens@.len() - i,
    {
        match find_node_with_hero_strategy(&node.childrens[i].1, hero_hand) {
            Some(found) => {
                return Some(found);
            },
            None => {},
        }
        i += 1;
    }
    None
}

/// The node the depth-first search selects for a hand, and the strategy it
/// yields there.
pub open spec fn find_hero_strategy_spec(root: TreeNode, hand: Seq<char>) -> Option<
    (Seq<Seq<char>>, Seq<u64>),
> {
    match find_node_spec(root, hand) {
        Some(n) => hero_strategy_spec(n, hand),
        None => None,
    }
}

/// Searches the whole tree depth-first for the first node holding the hero
/// hand and builds the strategy found there.
pub fn find_hero_strategy(root: &TreeNode, hero_hand: &str) -> (r: Option<HeroStrategy>)
    ensures
        opt_hs_view(r) == find_hero_strategy_spec(*root, hero_hand@),
        r matches Some(h) ==> h.actions@.len() == h.probs@.len(),
{
    match find_node_with_hero_strategy(root, hero_hand) {
        Some(node) => hero_strategy_from_node(node, hero_hand),
        None => None,
    }
}

// ---------------------------------------------------------------------------
// Street queries
// ---------------------------------------------------------------------------
/// The first child whose action name contains `BET`, in document order.
pub open spec fn first_bet_child(entries: Seq<(String, TreeNode)>) -> Option<TreeNode>
    decreases entries.len(),
{
    if entries.len() == 0 {
        None
    } else if has_substr(entries[0].0@, "BET"@) {
        Some(entries[0].1)
    } else {
        first_bet_child(entries.drop_first())
    }
}

/// Finds the first child whose action name contains `BET`.
fn find_bet_child<'a>(entries: &'a Vec<(String, TreeNode)>) -> (r: Option<&'a TreeNode>)
    ensures
        match r {
            Some(n) => first_bet_child(entries@) == Some(*n),
            None => first_bet_child(entries@) is None,
        },
{
    let mut i: usize = 0;
    proof {
        assert(entries@.skip(0) =~= entries@);
    }
    while i < entries.len()
        invariant
            i <= entries@.len(),
            first_bet_child(entries@) == first_bet_child(entries@.skip(i as int)),
        decreases entries@.len() - i,
    {
        proof {
            assert(entries@.skip(i as int)[0] == entries@[i as int]);
            assert(entries@.skip(i as int).drop_first() =~= entries@.skip(i + 1));
        }
        if contains_sub(entries[i].0.as_str(), "BET") {
            return Some(&entries[i].1);
        }
        i += 1;
    }
    None
}

/// The three strategies a street yields for a hand, each independently
/// optional: at the street's root (the out-of-position player's opening
/// decision), at the root's `CHECK` child (the in-position response), and at
/// the first `BET`-named child of that child (the out-of-position response
/// after checking into a bet).
pub open spec fn street_spec(node: TreeNode, hand: Seq<char>) -> (
    Option<(Seq<Seq<char>>, Seq<u64>)>,
    Option<(Seq<Seq<char>>, Seq<u64>)>,
    Option<(Seq<Seq<char>>, Seq<u64>)>,
) {
    let oop = hero_strategy_spec(node, hand);
    let ip = match lookup(node.childrens@, "CHECK"@) {
        Some(c) => hero_strategy_spec(c, hand),
        None => None,
    };
    let oop_vs_bet = match lookup(node.childrens@, "CHECK"@) {
        Some(c) => match first_bet_child(c.childrens@) {
            Some(b) => hero_strategy_spec(b, hand),
            None => None,
        },
        None => None,
    };
    (oop, ip, oop_vs_bet)
}

/// The content of a triple of optional strategies.
pub open spec fn triple_view(t: (Option<HeroStrategy>, Option<HeroStrategy>, Option<HeroStrategy>))
    -> (
    Option<(Seq<Seq<char>>, Seq<u64>)>,
    Option<(Seq<Seq<char>>, Seq<u64>)>,
    Option<(Seq<Seq<char>>, Seq<u64>)>,
) {
    (opt_hs_view(t.0), opt_hs_view(t.1), opt_hs_view(t.2))
}

/// Extracts a street's three strategies at its first-to-act node: at the
/// node itself, at its `CHECK` child, and at the first `BET`-named child of
/// the `CHECK` child. Each part may independently be absent.
pub fn extract_street_strategies(start_node: &TreeNode, hero_hand: &str) -> (r: (
    Option<HeroStrategy>,
    Option<HeroStrategy>,
    Option<HeroStrategy>,
))
    ensures
        triple_view(r) == street_spec(*start_node, hero_hand@),
{
    let oop_open = hero_strategy_from_node(start_node, hero_hand);
    let check_node = lookup_entry(&start_node.childrens, "CHECK");
    let ip_vs_check = match check_node {
        Some(c) => hero_strategy_from_node(c, hero_hand),
        None => None,
    };
    let oop_vs_bet = match check_node {
        Some(c) => match find_bet_child(&c.childrens) {
            Some(b) => hero_strategy_from_node(b, hero_hand),
            None => None,
        },
        None => None,
    };
    (oop_open, ip_vs_check, oop_vs_bet)
}

/// The in-position strategy, with the out-of-position one as fallback.
pub open spec fn ip_or_oop(street: (
    Option<(Seq<Seq<char>>, Seq<u64>)>,
    Option<(Seq<Seq<char>>, Seq<u64>)>,
    Option<(Seq<Seq<char>>, Seq<u64>)>,
)) -> Option<(Seq<Seq<char>>, Seq<u64>)> {
    match street.1 {
        Some(ip) => Some(ip),
        None => street.0,
    }
}

/// The flop's three strategies, read at the document root.
pub fn hero_strategy_flop_both(root: &TreeNode, hero_hand: &str) -> (r: (
    Option<HeroStrategy>,
    Option<HeroStrategy>,
    Option<HeroStrategy>,
))
    ensures
        triple_view(r) == street_spec(*root, hero_hand@),
{
    extract_street_strategies(root, hero_hand)
}

/// The flop's single representative strategy: in position if present, else
/// out of position.
pub fn hero_strategy_flop(root: &TreeNode, hero_hand: &str) -> (r: Option<HeroStrategy>)
    ensures
        opt_hs_view(r) == ip_or_oop(street_spec(*root, hero_hand@)),
{
    let (oop, ip, _) = hero_strategy_flop_both(root, hero_hand);
    match ip {
        Some(h) => Some(h),
        None => oop,
    }
}

/// The node of the turn street: from the root through the out-of-position
/// `CHECK`, the in-position `CHECK`, and the dealt turn card. Any missing
/// hop yields nothing.
pub open spec fn turn_node_spec(root: TreeNode, turn: Seq<char>) -> Option<TreeNode> {
    match lookup(root.childrens@, "CHECK"@) {
        Some(c1) => match lookup(c1.childrens@, "CHECK"@) {
            Some(c2) => lookup(c2.dealcards@, turn),
            None => None,
        },
        None => None,
    }
}

/// A turn query on a tree whose root lacks a `CHECK` child finds no turn
/// node: it yields nothing, not an error.
pub proof fn lemma_turn_missing_first_check(root: TreeNode, turn: Seq<char>)
    requires
        lookup(root.childrens@, "CHECK"@) is None,
    ensures
        turn_node_spec(root, turn) is None,
{
}

/// A turn query whose first `CHECK` child itself lacks a `CHECK` child
/// finds no turn node: it yields nothing, not an error.
pub proof fn lemma_turn_missing_second_check(root: TreeNode, c1: TreeNode, turn: Seq<char>)
    requires
        lookup(root.childrens@, "CHECK"@) == Some(c1),
        lookup(c1.childrens@, "CHECK"@) is None,
    ensures
        turn_node_spec(root, turn) is None,
{
}

/// A river query yields nothing wherever the path to the turn already
/// breaks, or the turn node reached lacks its own `CHECK` child.
pub proof fn lemma_river_missing_check(root: TreeNode, turn: Seq<char>, river: Seq<char>)
    requires
        turn_node_spec(root, turn) is None || (turn_node_spec(root, turn) matches Some(t)
            && lookup(t.childrens@, "CHECK"@) is None),
    ensures
        river_node_spec(root, turn, river) is None,
{
}

/// The turn's three strategies, reached through the check-check prelude and
/// the dealt turn card; nothing — not an error — if the path breaks at any
/// hop.
pub fn hero_strategy_turn_both(root: &TreeNode, hero_hand: &str, turn_card: &str) -> (r: Option<
    (Option<HeroStrategy>, Option<HeroStrategy>, Option<HeroStrategy>),
>)
    ensures
        match turn_node_spec(*root, turn_card@) {
            Some(t) => r matches Some(x) && triple_view(x) == street_spec(t, hero_hand@),
            None => r is None,
        },
{
    let c1 = match lookup_entry(&root.childrens, "CHECK") {
        Some(n) => n,
        None => {
            return None;
        },
    };
    let chance = match lookup_entry(&c1.childrens, "CHECK") {
        Some(n) => n,
        None => {
            return None;
        },
    };
    let turn_node = match lookup_entry(&chance.dealcards, turn_card) {
        Some(n) => n,
        None => {
            return None;
        },
    };
    Some(extract_street_strategies(turn_node, hero_hand))
}

/// The turn's single representative strategy: in position if present, else
/// out of position; nothing if the path to the turn breaks.
pub fn hero_strategy_turn_check(root: &TreeNode, hero_hand: &str, turn_card: &str) -> (r: Option<
    HeroStrategy,
>)
    ensures
        match turn_node_spec(*root, turn_card@) {
            Some(t) => opt_hs_view(r) == ip_or_oop(street_spec(t, hero_hand@)),
            None => r is None,
        },
{
    let (oop, ip, _) = match hero_strategy_turn_both(root, hero_hand, turn_card) {
        Some(x) => x,
        None => {
            return None;
        },
    };
    match ip {
        Some(h) => Some(h),
        None => oop,
    }
}

/// The node of the river street: the turn node extended by one more
/// check-check-deal hop with the river card.
pub open spec fn river_node_spec(root: TreeNode, turn: Seq<char>, river: Seq<char>) -> Option<
    TreeNode,
> {
    match turn_node_spec(root, turn) {
        Some(t) => match lookup(t.childrens@, "CHECK"@) {
            Some(c1) => match lookup(c1.childrens@, "CHECK"@) {
                Some(c2) => lookup(c2.dealcards@, river),
                None => None,
            },
            None => None,
        },
        None => None,
    }
}

/// The river's three strategies, reached through the turn node and one more
/// check-check prelude and the dealt river card; nothing if the path breaks
/// at any hop.
pub fn hero_strategy_river_both(
    root: &TreeNode,
    hero_hand: &str,
    turn_card: &str,
    river_card: &str,
) -> (r: Option<(Option<HeroStrategy>, Option<HeroStrategy>, Option<HeroStrategy>)>)
    ensures
        match river_node_spec(*root, turn_card@, river_card@) {
            Some(t) => r matches Some(x) && triple_view(x) == street_spec(t, hero_hand@),
            None => r is None,
        },
{
    let c1 = match lookup_entry(&root.childrens, "CHECK") {
        Some(n) => n,
        None => {
            return None;
        },
    };
    let chance_turn = match lookup_entry(&c1.childrens, "CHECK") {
        Some(n) => n,
        None => {
            return None;
        },
    };
    let turn_node = match lookup_entry(&chance_turn.dealcards, turn_card) {
        Some(n) => n,
        None => {
            return None;
        },
    };
    let c_t1 = match lookup_entry(&turn_node.childrens, "CHECK") {
        Some(n) => n,
        None => {
            return None;
        },
    };
    let c_t2 = match lookup_entry(&c_t1.childrens, "CHECK") {
        Some(n) => n,
        None => {
            return None;
        },
    };
    let river_node = match lookup_entry(&c_t2.dealcards, river_card) {
        Some(n) => n,
        None => {
            return None;
        },
    };
    Some(extract_street_strategies(river_node, hero_hand))
}

/// The river's single representative strategy: in position if present, else
/// out of position; nothing if the path to the river breaks.
pub fn hero_strategy_river_check(
    root: &TreeNode,
    hero_hand: &str,
    turn_card: &str,
    river_card: &str,
) -> (r: Option<HeroStrategy>)
    ensures
        match river_node_spec(*root, turn_card@, river_card@) {
            Some(t) => opt_hs_view(r) == ip_or_oop(street_spec(t, hero_hand@)),
            None => r is None,
        },
{
    let (oop, ip, _) = match hero_strategy_river_both(root, hero_hand, turn_card, river_card) {
        Some(x) => x,
        None => {
            return None;
        },
    };
    match ip {
        Some(h) => Some(h),
        None => oop,
    }
}

/// As [`find_hero_strategy`], reduced to the probability vector alone.
pub fn find_hero_strategy_vector(root: &TreeNode, hero_hand: &str) -> (r: Option<Vec<u64>>)
    ensures
        match r {
            Some(v) => find_hero_strategy_spec(*root, hero_hand@) matches Some(s) && s.1 == v@,
            None => find_hero_strategy_spec(*root, hero_hand@) is None,
        },
{
    match find_hero_strategy(root, hero_hand) {
        Some(h) => Some(h.probs),
        None => None,
    }
}

} // verus!
