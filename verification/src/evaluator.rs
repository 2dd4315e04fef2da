//! Hand strength evaluator: classifies an unordered collection of cards into
//! a poker hand category (flush, straight, pair family, high card) with a
//! heuristic 0..100 strength score, and renders the result as a display
//! string. Evaluation uses every supplied card, not a best-five selection.

use vstd::prelude::*;

use crate::cards::Card;
use crate::cards::parse_cards;
use crate::cards::parsed_cards;
use crate::cards::rank_name;
use crate::cards::rank_name_spec;
use crate::cards::suit_name;
use crate::cards::suit_name_spec;

verus! {

// ---------------------------------------------------------------------------
// Sorting ranks in descending order
// ---------------------------------------------------------------------------
/// `x` inserted into `s` before the first element it is at least as large as.
/// On a descending-sorted `s` this keeps the order descending.
pub open spec fn insert_desc(s: Seq<u8>, x: u8) -> Seq<u8>
    decreases s.len(),
{
    if s.len() == 0 {
        seq![x]
    } else if x >= s[0] {
        seq![x] + s
    } else {
        seq![s[0]] + insert_desc(s.drop_first(), x)
    }
}

/// `s` sorted in descending order, by repeated insertion.
pub open spec fn sort_desc(s: Seq<u8>) -> Seq<u8>
    decreases s.len(),
{
    if s.len() == 0 {
        Seq::empty()
    } else {
        insert_desc(sort_desc(s.drop_last()), s.last())
    }
}

/// The largest element of a non-empty sequence.
pub open spec fn seq_max(s: Seq<u8>) -> u8
    decreases s.len(),
{
    if s.len() <= 1 {
        s[0]
    } else if s.last() >= seq_max(s.drop_last()) {
        s.last()
    } else {
        seq_max(s.drop_last())
    }
}

proof fn lemma_insert_desc_len(s: Seq<u8>, x: u8)
    ensures
        insert_desc(s, x).len() == s.len() + 1,
    decreases s.len(),
{
    if s.len() > 0 && x < s[0] {
        lemma_insert_desc_len(s.drop_first(), x);
    }
}

proof fn lemma_insert_desc_first(s: Seq<u8>, x: u8)
    ensures
        insert_desc(s, x).len() == s.len() + 1,
        s.len() == 0 ==> insert_desc(s, x)[0] == x,
        s.len() > 0 ==> insert_desc(s, x)[0] == (if x >= s[0] {
            x
        } else {
            s[0]
        }),
{
    lemma_insert_desc_len(s, x);
}

/// Sorting keeps the length, and the first element of the result is the
/// largest element of the input.
proof fn lemma_sort_desc_max(s: Seq<u8>)
    ensures
        sort_desc(s).len() == s.len(),
        s.len() > 0 ==> sort_desc(s)[0] == seq_max(s),
    decreases s.len(),
{
    if s.len() > 0 {
        lemma_sort_desc_max(s.drop_last());
        lemma_insert_desc_first(sort_desc(s.drop_last()), s.last());
    }
}

/// Inserting at the first position whose element does not exceed `x` is what
/// `insert_desc` yields.
proof fn lemma_insert_desc_at(s: Seq<u8>, x: u8, k: int)
    requires
        0 <= k <= s.len(),
        forall|j: int| 0 <= j < k ==> x < s[j],
        k == s.len() || x >= s[k],
    ensures
        insert_desc(s, x) == s.take(k) + seq![x] + s.skip(k),
    decreases k,
{
    if k == 0 {
        assert(insert_desc(s, x) =~= s.take(0) + seq![x] + s.skip(0));
    } else {
        lemma_insert_desc_at(s.drop_first(), x, k - 1);
        assert(s.drop_first().take(k - 1) =~= s.take(k).drop_first());
        assert(s.drop_first().skip(k - 1) =~= s.skip(k));
        assert(insert_desc(s, x) =~= s.take(k) + seq![x] + s.skip(k));
    }
}

/// Sorts a vector of ranks in descending order by insertion.
fn sort_ranks_desc(v: &Vec<u8>) -> (out: Vec<u8>)
    ensures
        out@ == sort_desc(v@),
{
    let mut out: Vec<u8> = Vec::new();
    let mut i: usize = 0;
    proof {
        assert(v@.take(0) =~= Seq::<u8>::empty());
    }
    while i < v.len()
        invariant
            i <= v@.len(),
            out@ == sort_desc(v@.take(i as int)),
        decreases v@.len() - i,
    {
        let x = v[i];
        let mut k: usize = 0;
        while k < out.len() && x < out[k as usize]
            invariant
                k <= out@.len(),
                forall|j: int| 0 <= j < k ==> x < out@[j],
            decreases out@.len() - k,
        {
            k += 1;
        }
        proof {
            lemma_insert_desc_at(out@, x, k as int);
        }
        out.insert(k, x);
        proof {
            assert(v@.take(i + 1).drop_last() =~= v@.take(i as int));
            assert(v@.take(i + 1).last() == v@[i as int]);
            assert(out@ =~= sort_desc(v@.take(i as int)).take(k as int) + seq![x] + sort_desc(
                v@.take(i as int),
            ).skip(k as int));
        }
        i += 1;
    }
    proof {
        assert(v@.take(v@.len() as int) =~= v@);
    }
    out
}

// ---------------------------------------------------------------------------
// Removing adjacent duplicates
// ---------------------------------------------------------------------------
/// `s` with consecutive repeated elements reduced to one occurrence.
pub open spec fn dedup_adj(s: Seq<u8>) -> Seq<u8>
    decreases s.len(),
{
    if s.len() <= 1 {
        s
    } else if s.last() == s[s.len() - 2] {
        dedup_adj(s.drop_last())
    } else {
        dedup_adj(s.drop_last()).push(s.last())
    }
}

/// Deduplication keeps the first element of a non-empty sequence.
proof fn lemma_dedup_adj_first(s: Seq<u8>)
    ensures
        s.len() > 0 ==> dedup_adj(s).len() > 0 && dedup_adj(s)[0] == s[0],
    decreases s.len(),
{
    if s.len() > 1 {
        lemma_dedup_adj_first(s.drop_last());
    }
}

/// Removes consecutive repeated elements.
fn dedup_ranks(v: &Vec<u8>) -> (out: Vec<u8>)
    ensures
        out@ == dedup_adj(v@),
{
    let mut out: Vec<u8> = Vec::new();
    let mut i: usize = 0;
    while i < v.len()
        invariant
            i <= v@.len(),
            out@ == dedup_adj(v@.take(i as int)),
        decreases v@.len() - i,
    {
        proof {
            assert(v@.take(i + 1).drop_last() =~= v@.take(i as int));
            assert(v@.take(i + 1).last() == v@[i as int]);
        }
        if i == 0 || v[i] != v[i - 1] {
            out.push(v[i]);
        }
        i += 1;
    }
    proof {
        assert(v@.take(v@.len() as int) =~= v@);
    }
    out
}

// ---------------------------------------------------------------------------
// Straight detection
// ---------------------------------------------------------------------------
/// Five consecutive descending ranks stand at positions `j ..= j + 4` of `s`.
pub open spec fn run_at(s: Seq<u8>, j: int) -> bool {
    forall|k: int| j <= k < j + 4 ==> #[trigger] s[k] == s[k + 1] + 1
}

/// The first position at or after `j` where a run of five consecutive
/// descending ranks starts, if any.
pub open spec fn first_run_from(s: Seq<u8>, j: int) -> Option<int>
    decreases s.len() - j,
{
    if j + 4 >= s.len() {
        None
    } else if run_at(s, j) {
        Some(j)
    } else {
        first_run_from(s, j + 1)
    }
}

/// Ranks Ace, 5, 4, 3, 2 are all present: the wheel, the straight in which
/// the Ace plays low.
pub open spec fn wheel_present(s: Seq<u8>) -> bool {
    s.contains(12) && s.contains(0) && s.contains(1) && s.contains(2) && s.contains(3)
}

/// The straight found in a descending rank sequence: the top rank of the
/// first run of five consecutive ranks, or 3 (five high) for the wheel, or
/// nothing. On a strictly descending sequence the first run is the highest.
pub open spec fn check_straight_spec(s: Seq<u8>) -> Option<u8> {
    if s.len() < 5 {
        None
    } else {
        match first_run_from(s, 0) {
            Some(j) => Some(s[j]),
            None => if wheel_present(s) {
                Some(3)
            } else {
                None
            },
        }
    }
}

proof fn lemma_first_run_found(s: Seq<u8>, a: int, j0: int)
    requires
        0 <= a <= j0,
        j0 + 4 < s.len(),
        forall|j: int| a <= j < j0 ==> !run_at(s, j),
        run_at(s, j0),
    ensures
        first_run_from(s, a) == Some(j0),
    decreases j0 - a,
{
    if a < j0 {
        lemma_first_run_found(s, a + 1, j0);
    }
}

proof fn lemma_first_run_none(s: Seq<u8>, a: int)
    requires
        0 <= a,
        forall|j: int| a <= j && j + 4 < s.len() ==> !run_at(s, j),
    ensures
        first_run_from(s, a) is None,
    decreases s.len() - a,
{
    if a + 4 < s.len() {
        lemma_first_run_none(s, a + 1);
    }
}

/// Whether a vector contains a given rank.
fn contains_rank(v: &Vec<u8>, x: u8) -> (r: bool)
    ensures
        r == v@.contains(x),
{
    let mut i: usize = 0;
    while i < v.len()
        invariant
            i <= v@.len(),
            forall|j: int| 0 <= j < i ==> v@[j] != x,
        decreases v@.len() - i,
    {
        if v[i] == x {
            return true;
        }
        i += 1;
    }
    false
}

/// Finds the straight in a descending rank sequence: scans for the first run
/// of five consecutive ranks and reports its top rank, and otherwise checks
/// for the wheel (Ace through five), reported as five high.
pub fn check_straight(ranks: &Vec<u8>) -> (res: Option<u8>)
    ensures
        res == check_straight_spec(ranks@),
{
    let n = ranks.len();
    if n < 5 {
        return None;
    }
    let mut consecutive: usize = 1;
    let mut i: usize = 0;
    while i < n - 1
        invariant
            5 <= n,
            n == ranks@.len(),
            i <= n - 1,
            1 <= consecutive <= 4,
            consecutive <= i + 1,
            forall|k: int|
                i - consecutive + 1 <= k < i ==> #[trigger] ranks@[k] == ranks@[k + 1] + 1,
            i - consecutive >= 0 ==> !(ranks@[i - consecutive] == ranks@[i - consecutive + 1]
                + 1),
            forall|j: int| 0 <= j <= i - 4 ==> !run_at(ranks@, j),
        decreases n - 1 - i,
    {
        if (ranks[i] as u16) == (ranks[i + 1] as u16) + 1 {
            consecutive += 1;
            if consecutive >= 5 {
                let top = i - (consecutive - 2);
                proof {
                    assert(run_at(ranks@, i - 3));
                    lemma_first_run_found(ranks@, 0, i - 3);
                }
                return Some(ranks[top]);
            }
        } else {
            consecutive = 1;
        }
        i += 1;
    }
    proof {
        lemma_first_run_none(ranks@, 0);
    }
    if contains_rank(ranks, 12) && contains_rank(ranks, 0) && contains_rank(ranks, 1)
        && contains_rank(ranks, 2) && contains_rank(ranks, 3) {
        return Some(3);
    }
    None
}

/// Whether a descending rank sequence holds a straight.
pub fn is_straight(ranks: &Vec<u8>) -> (r: bool)
    ensures
        r == (check_straight_spec(ranks@) is Some),
{
    check_straight(ranks).is_some()
}

// ---------------------------------------------------------------------------
// Bounds on the values the straight and sort machinery hands back
// ---------------------------------------------------------------------------
proof fn lemma_insert_desc_contains(s: Seq<u8>, x: u8, y: u8)
    ensures
        insert_desc(s, x).contains(y) <==> (y == x || s.contains(y)),
    decreases s.len(),
{
    if s.len() > 0 && x < s[0] {
        lemma_insert_desc_contains(s.drop_first(), x, y);
        assert(s.contains(y) <==> (y == s[0] || s.drop_first().contains(y))) by {
            if s.contains(y) {
                let i = choose|i: int| 0 <= i < s.len() && s[i] == y;
                if i > 0 {
                    assert(s.drop_first()[i - 1] == y);
                }
            }
            if s.drop_first().contains(y) {
                let i = choose|i: int| 0 <= i < s.drop_first().len() && s.drop_first()[i] == y;
                assert(s[i + 1] == y);
            }
        }
        let t = insert_desc(s, x);
        assert(t == seq![s[0]] + insert_desc(s.drop_first(), x));
        assert(t.contains(y) <==> (y == s[0] || insert_desc(s.drop_first(), x).contains(y))) by {
            if t.contains(y) {
                let i = choose|i: int| 0 <= i < t.len() && t[i] == y;
                if i > 0 {
                    assert(insert_desc(s.drop_first(), x)[i - 1] == y);
                }
            }
            if insert_desc(s.drop_first(), x).contains(y) {
                let i = choose|i: int|
                    0 <= i < insert_desc(s.drop_first(), x).len() && insert_desc(
                        s.drop_first(),
                        x,
                    )[i] == y;
                assert(t[i + 1] == y);
            }
        }
    } else {
        let t = insert_desc(s, x);
        if t.contains(y) {
            let i = choose|i: int| 0 <= i < t.len() && t[i] == y;
            if i > 0 {
                assert(s[i - 1] == y);
            }
        }
        if y == x {
            assert(t[0] == y);
        }
        if s.contains(y) {
            let i = choose|i: int| 0 <= i < s.len() && s[i] == y;
            assert(t[i + 1] == y);
        }
    }
}

/// Sorting introduces no new element.
proof fn lemma_sort_desc_contains(s: Seq<u8>, y: u8)
    ensures
        sort_desc(s).contains(y) ==> s.contains(y),
    decreases s.len(),
{
    if s.len() > 0 {
        lemma_sort_desc_contains(s.drop_last(), y);
        lemma_insert_desc_contains(sort_desc(s.drop_last()), s.last(), y);
        if sort_desc(s).contains(y) {
            if y == s.last() {
                assert(s[s.len() - 1] == y);
            } else {
                let i = choose|i: int| 0 <= i < s.drop_last().len() && s.drop_last()[i] == y;
                assert(s[i] == y);
            }
        }
    }
}

/// Deduplication introduces no new element.
proof fn lemma_dedup_adj_contains(s: Seq<u8>, y: u8)
    ensures
        dedup_adj(s).contains(y) ==> s.contains(y),
    decreases s.len(),
{
    if s.len() > 1 {
        lemma_dedup_adj_contains(s.drop_last(), y);
        if dedup_adj(s).contains(y) {
            if s.last() != s[s.len() - 2] && dedup_adj(s).last() == y && y == s.last() {
                assert(s[s.len() - 1] == y);
            } else {
                let d = dedup_adj(s.drop_last());
                if d.contains(y) {
                    let i = choose|i: int| 0 <= i < s.drop_last().len() && s.drop_last()[i] == y;
                    assert(s[i] == y);
                } else {
                    let t = dedup_adj(s);
                    let i = choose|i: int| 0 <= i < t.len() && t[i] == y;
                    assert(t == d.push(s.last()));
                    if i < d.len() {
                        assert(d[i] == y);
                    } else {
                        assert(s[s.len() - 1] == y);
                    }
                }
            }
        }
    }
}

/// The largest element of a sequence is one of its elements.
proof fn lemma_seq_max_contains(s: Seq<u8>)
    requires
        s.len() > 0,
    ensures
        s.contains(seq_max(s)),
    decreases s.len(),
{
    if s.len() <= 1 {
        assert(s[0] == seq_max(s));
    } else if s.last() >= seq_max(s.drop_last()) {
        assert(s[s.len() - 1] == seq_max(s));
    } else {
        lemma_seq_max_contains(s.drop_last());
        let i = choose|i: int| 0 <= i < s.drop_last().len() && s.drop_last()[i] == seq_max(s);
        assert(s[i] == seq_max(s));
    }
}

proof fn lemma_first_run_some_bounds(s: Seq<u8>, a: int, j: int)
    requires
        first_run_from(s, a) == Some(j),
    ensures
        a <= j && j + 4 < s.len(),
    decreases s.len() - a,
{
    if a + 4 < s.len() && !run_at(s, a) {
        lemma_first_run_some_bounds(s, a + 1, j);
    }
}

/// A straight's reported high rank is an element of the sequence, or 3 for
/// the wheel.
proof fn lemma_check_straight_elem(s: Seq<u8>, h: u8)
    requires
        check_straight_spec(s) == Some(h),
    ensures
        s.contains(h) || h == 3,
{
    if s.len() >= 5 {
        match first_run_from(s, 0) {
            Some(j) => {
                lemma_first_run_some_bounds(s, 0, j);
                assert(s[j] == h);
            },
            None => {},
        }
    }
}

// ---------------------------------------------------------------------------
// Counting cards by suit and rank
// ---------------------------------------------------------------------------
/// How many cards of suit `s` the collection holds.
pub open spec fn suit_count(cs: Seq<Card>, s: int) -> nat
    decreases cs.len(),
{
    if cs.len() == 0 {
        0
    } else {
        suit_count(cs.drop_last(), s) + (if cs.last().suit == s {
            1nat
        } else {
            0nat
        })
    }
}

/// The ranks of the cards of suit `s`, in collection order.
pub open spec fn ranks_in_suit(cs: Seq<Card>, s: int) -> Seq<u8>
    decreases cs.len(),
{
    if cs.len() == 0 {
        Seq::empty()
    } else {
        ranks_in_suit(cs.drop_last(), s) + (if cs.last().suit == s {
            seq![cs.last().rank]
        } else {
            Seq::empty()
        })
    }
}

/// The ranks of all cards, in collection order.
pub open spec fn all_ranks(cs: Seq<Card>) -> Seq<u8>
    decreases cs.len(),
{
    if cs.len() == 0 {
        Seq::empty()
    } else {
        all_ranks(cs.drop_last()).push(cs.last().rank)
    }
}

/// How many cards of rank `r` the collection holds.
pub open spec fn rank_count(cs: Seq<Card>, r: int) -> nat
    decreases cs.len(),
{
    if cs.len() == 0 {
        0
    } else {
        rank_count(cs.drop_last(), r) + (if cs.last().rank == r {
            1nat
        } else {
            0nat
        })
    }
}

/// How many ranks below `ub` occur exactly `n` times.
pub open spec fn num_rank_with(cs: Seq<Card>, n: nat, ub: int) -> nat
    decreases ub,
{
    if ub <= 0 {
        0
    } else {
        num_rank_with(cs, n, ub - 1) + (if rank_count(cs, ub - 1) == n {
            1nat
        } else {
            0nat
        })
    }
}

/// The largest rank below `ub` that occurs exactly `n` times, or -1.
pub open spec fn max_rank_with(cs: Seq<Card>, n: nat, ub: int) -> int
    decreases ub,
{
    if ub <= 0 {
        -1
    } else if rank_count(cs, ub - 1) == n {
        ub - 1
    } else {
        max_rank_with(cs, n, ub - 1)
    }
}

proof fn lemma_num_max_with(cs: Seq<Card>, n: nat, ub: int)
    ensures
        (num_rank_with(cs, n, ub) > 0) <==> (max_rank_with(cs, n, ub) >= 0),
    decreases ub,
{
    if ub > 0 {
        lemma_num_max_with(cs, n, ub - 1);
    }
}

proof fn lemma_suit_count_le(cs: Seq<Card>, s: int)
    ensures
        suit_count(cs, s) <= cs.len(),
    decreases cs.len(),
{
    if cs.len() > 0 {
        lemma_suit_count_le(cs.drop_last(), s);
    }
}

proof fn lemma_rank_count_le(cs: Seq<Card>, r: int)
    ensures
        rank_count(cs, r) <= cs.len(),
    decreases cs.len(),
{
    if cs.len() > 0 {
        lemma_rank_count_le(cs.drop_last(), r);
    }
}

proof fn lemma_ranks_in_suit_len(cs: Seq<Card>, s: int)
    ensures
        ranks_in_suit(cs, s).len() == suit_count(cs, s),
        all_ranks(cs).len() == cs.len(),
    decreases cs.len(),
{
    if cs.len() > 0 {
        lemma_ranks_in_suit_len(cs.drop_last(), s);
    }
}

// ---------------------------------------------------------------------------
// Classification
// ---------------------------------------------------------------------------
/// The first suit holding at least five cards, if any.
pub open spec fn flush_suit_spec(cs: Seq<Card>) -> Option<u8> {
    if suit_count(cs, 0) >= 5 {
        Some(0u8)
    } else if suit_count(cs, 1) >= 5 {
        Some(1u8)
    } else if suit_count(cs, 2) >= 5 {
        Some(2u8)
    } else if suit_count(cs, 3) >= 5 {
        Some(3u8)
    } else {
        None
    }
}

/// A category's score: its base plus the deciding rank scaled into the band.
pub open spec fn band(base: int, r: int, mult: int) -> u8 {
    (base + r * mult / 13) as u8
}

/// The category description and heuristic 0..100 score of a card collection,
/// in strict priority order: flush family first, then straights over the
/// deduplicated rank set, then the pair family by exact multiplicity, then
/// high card. The deciding rank is the flush's top rank, the straight's high,
/// or the largest rank with the category's multiplicity.
pub open spec fn strength_spec(cs: Seq<Card>) -> (Seq<char>, u8) {
    match flush_suit_spec(cs) {
        Some(s) => {
            let fr = sort_desc(ranks_in_suit(cs, s as int));
            let high = fr[0] as int;
            if check_straight_spec(fr) is Some {
                ("Straight Flush"@, band(95, high, 5))
            } else {
                ("Flush ("@ + suit_name_spec(s as int) + ")"@, band(75, high, 5))
            }
        },
        None => {
            let uniq = dedup_adj(sort_desc(all_ranks(cs)));
            match check_straight_spec(uniq) {
                Some(h) => ("Straight"@, band(70, h as int, 5)),
                None => {
                    let q = max_rank_with(cs, 4, 13);
                    let t = max_rank_with(cs, 3, 13);
                    let p = max_rank_with(cs, 2, 13);
                    let n3 = num_rank_with(cs, 3, 13);
                    let n2 = num_rank_with(cs, 2, 13);
                    if q >= 0 {
                        ("Four of a Kind"@, band(90, q, 5))
                    } else if n3 > 0 && (n2 > 0 || n3 > 1) {
                        ("Full House"@, band(80, t, 10))
                    } else if n3 > 0 {
                        ("Three of a Kind"@, band(60, t, 10))
                    } else if n2 >= 2 {
                        ("Two Pair"@, band(40, p, 20))
                    } else if n2 > 0 {
                        ("Pair of "@ + rank_name_spec(p) + "s"@, band(20, p, 20))
                    } else {
                        let m = if cs.len() == 0 {
                            0int
                        } else {
                            seq_max(all_ranks(cs)) as int
                        };
                        ("High Card ("@ + rank_name_spec(m) + ")"@, band(0, m, 20))
                    }
                },
            }
        },
    }
}

/// Classifies a card collection and scores it. Every supplied card counts;
/// with fewer than five cards the pair family and high card still apply.
pub fn calculate_strength(cards: &Vec<Card>) -> (r: (String, u8))
    requires
        forall|i: int| 0 <= i < cards@.len() ==> (#[trigger] cards@[i]).wf(),
    ensures
        r.0@ == strength_spec(cards@).0,
        r.1 == strength_spec(cards@).1,
{
    let n = cards.len();
    // Count the cards of each suit.
    let mut suit_counts: Vec<usize> = Vec::new();
    suit_counts.push(0);
    suit_counts.push(0);
    suit_counts.push(0);
    suit_counts.push(0);
    let mut i: usize = 0;
    proof {
        assert(cards@.take(0) =~= Seq::<Card>::empty());
    }
    while i < n
        invariant
            n == cards@.len(),
            i <= n,
            forall|k: int| 0 <= k < cards@.len() ==> (#[trigger] cards@[k]).wf(),
            suit_counts@.len() == 4,
            forall|t: int|
                0 <= t < 4 ==> #[trigger] suit_counts@[t] == suit_count(
                    cards@.take(i as int),
                    t,
                ),
        decreases n - i,
    {
        let ghost pre = cards@.take(i as int);
        proof {
            assert(cards@.take(i + 1).drop_last() =~= pre);
            assert(cards@.take(i + 1).last() == cards@[i as int]);
            lemma_suit_count_le(pre, cards@[i as int].suit as int);
        }
        let s = cards[i].suit as usize;
        let c = suit_counts[s];
        suit_counts[s] = c + 1;
        i += 1;
    }
    proof {
        assert(cards@.take(n as int) =~= cards@);
    }
    let flush_suit: Option<u8> = if suit_counts[0] >= 5 {
        Some(0)
    } else if suit_counts[1] >= 5 {
        Some(1)
    } else if suit_counts[2] >= 5 {
        Some(2)
    } else if suit_counts[3] >= 5 {
        Some(3)
    } else {
        None
    };
    if let Some(fs) = flush_suit {
        // Collect the ranks of the flush suit and sort them high to low.
        let mut flush_ranks: Vec<u8> = Vec::new();
        let mut i: usize = 0;
        proof {
            assert(cards@.take(0) =~= Seq::<Card>::empty());
        }
        while i < n
            invariant
                n == cards@.len(),
                i <= n,
                forall|k: int| 0 <= k < cards@.len() ==> (#[trigger] cards@[k]).wf(),
                flush_ranks@ == ranks_in_suit(cards@.take(i as int), fs as int),
                forall|k: int| 0 <= k < flush_ranks@.len() ==> #[trigger] flush_ranks@[k] < 13,
            decreases n - i,
        {
            proof {
                assert(cards@.take(i + 1).drop_last() =~= cards@.take(i as int));
                assert(cards@.take(i + 1).last() == cards@[i as int]);
            }
            if cards[i].suit == fs {
                flush_ranks.push(cards[i].rank);
            }
            i += 1;
        }
        proof {
            assert(cards@.take(n as int) =~= cards@);
        }
        let sorted = sort_ranks_desc(&flush_ranks);
        proof {
            lemma_ranks_in_suit_len(cards@, fs as int);
            lemma_sort_desc_max(flush_ranks@);
            lemma_seq_max_contains(flush_ranks@);
        }
        let high = sorted[0];
        if is_straight(&sorted) {
            return (String::from_str("Straight Flush"), 95 + high * 5 / 13);
        }
        let name = String::from_str("Flush (").concat(suit_name(fs)).concat(")");
        return (name, 75 + high * 5 / 13);
    }
    // Collect every rank, sort high to low, drop repeats.
    let mut all: Vec<u8> = Vec::new();
    let mut i: usize = 0;
    proof {
        assert(cards@.take(0) =~= Seq::<Card>::empty());
    }
    while i < n
        invariant
            n == cards@.len(),
            i <= n,
            forall|k: int| 0 <= k < cards@.len() ==> (#[trigger] cards@[k]).wf(),
            all@ == all_ranks(cards@.take(i as int)),
            forall|k: int| 0 <= k < all@.len() ==> #[trigger] all@[k] < 13,
        decreases n - i,
    {
        proof {
            assert(cards@.take(i + 1).drop_last() =~= cards@.take(i as int));
            assert(cards@.take(i + 1).last() == cards@[i as int]);
        }
        all.push(cards[i].rank);
        i += 1;
    }
    proof {
        assert(cards@.take(n as int) =~= cards@);
    }
    let sorted = sort_ranks_desc(&all);
    let uniq = dedup_ranks(&sorted);
    match check_straight(&uniq) {
        Some(h) => {
            proof {
                lemma_check_straight_elem(uniq@, h);
                if uniq@.contains(h) {
                    lemma_dedup_adj_contains(sorted@, h);
                    lemma_sort_desc_contains(all@, h);
                }
            }
            return (String::from_str("Straight"), 70 + h * 5 / 13);
        },
        None => {},
    }
    // Count the cards of each rank and classify by exact multiplicity.
    let mut counts: Vec<usize> = Vec::new();
    let mut r: usize = 0;
    while r < 13
        invariant
            r <= 13,
            counts@.len() == r,
            forall|t: int| 0 <= t < r ==> #[trigger] counts@[t] == 0,
        decreases 13 - r,
    {
        counts.push(0);
        r += 1;
    }
    let mut i: usize = 0;
    proof {
        assert(cards@.take(0) =~= Seq::<Card>::empty());
        assert forall|t: int| 0 <= t < 13 implies #[trigger] counts@[t] == rank_count(
            cards@.take(0),
            t,
        ) by {}
    }
    while i < n
        invariant
            n == cards@.len(),
            i <= n,
            forall|k: int| 0 <= k < cards@.len() ==> (#[trigger] cards@[k]).wf(),
            counts@.len() == 13,
            forall|t: int|
                0 <= t < 13 ==> #[trigger] counts@[t] == rank_count(cards@.take(i as int), t),
        decreases n - i,
    {
        let ghost pre = cards@.take(i as int);
        proof {
            assert(cards@.take(i + 1).drop_last() =~= pre);
            assert(cards@.take(i + 1).last() == cards@[i as int]);
            lemma_rank_count_le(pre, cards@[i as int].rank as int);
        }
        let rk = cards[i].rank as usize;
        let c = counts[rk];
        counts[rk] = c + 1;
        i += 1;
    }
    proof {
        assert(cards@.take(n as int) =~= cards@);
    }
    let mut n2: usize = 0;
    let mut n3: usize = 0;
    let mut has2 = false;
    let mut has3 = false;
    let mut has4 = false;
    let mut max2: u8 = 0;
    let mut max3: u8 = 0;
    let mut max4: u8 = 0;
    let mut r: usize = 0;
    while r < 13
        invariant
            r <= 13,
            counts@.len() == 13,
            forall|t: int| 0 <= t < 13 ==> #[trigger] counts@[t] == rank_count(cards@, t),
            n2 <= r,
            n3 <= r,
            n2 == num_rank_with(cards@, 2, r as int),
            n3 == num_rank_with(cards@, 3, r as int),
            has2 ==> max2 as int == max_rank_with(cards@, 2, r as int) && max2 < 13,
            !has2 ==> max_rank_with(cards@, 2, r as int) == -1,
            has3 ==> max3 as int == max_rank_with(cards@, 3, r as int) && max3 < 13,
            !has3 ==> max_rank_with(cards@, 3, r as int) == -1,
            has4 ==> max4 as int == max_rank_with(cards@, 4, r as int) && max4 < 13,
            !has4 ==> max_rank_with(cards@, 4, r as int) == -1,
        decreases 13 - r,
    {
        let c = counts[r];
        if c == 2 {
            n2 += 1;
            has2 = true;
            max2 = r as u8;
        }
        if c == 3 {
            n3 += 1;
            has3 = true;
            max3 = r as u8;
        }
        if c == 4 {
            has4 = true;
            max4 = r as u8;
        }
        r += 1;
    }
    proof {
        lemma_num_max_with(cards@, 2, 13);
        lemma_num_max_with(cards@, 3, 13);
    }
    if has4 {
        return (String::from_str("Four of a Kind"), 90 + max4 * 5 / 13);
    }
    if has3 && (has2 || n3 > 1) {
        return (String::from_str("Full House"), 80 + max3 * 10 / 13);
    }
    if has3 {
        return (String::from_str("Three of a Kind"), 60 + max3 * 10 / 13);
    }
    if n2 >= 2 {
        return (String::from_str("Two Pair"), 40 + max2 * 20 / 13);
    }
    if has2 {
        let name = String::from_str("Pair of ").concat(rank_name(max2)).concat("s");
        return (name, 20 + max2 * 20 / 13);
    }
    let m: u8 = if uniq.len() > 0 {
        uniq[0]
    } else {
        0
    };
    proof {
        lemma_ranks_in_suit_len(cards@, 0);
        lemma_sort_desc_max(all@);
        if all@.len() > 0 {
            lemma_dedup_adj_first(sorted@);
            lemma_seq_max_contains(all@);
        }
    }
    let name = String::from_str("High Card (").concat(rank_name(m)).concat(")");
    (name, m * 20 / 13)
}

// ---------------------------------------------------------------------------
// Rendering the result
// ---------------------------------------------------------------------------
/// The decimal digit character for `n` in 0..10.
pub open spec fn digit_char(n: nat) -> char {
    if n == 0 {
        '0'
    } else if n == 1 {
        '1'
    } else if n == 2 {
        '2'
    } else if n == 3 {
        '3'
    } else if n == 4 {
        '4'
    } else if n == 5 {
        '5'
    } else if n == 6 {
        '6'
    } else if n == 7 {
        '7'
    } else if n == 8 {
        '8'
    } else {
        '9'
    }
}

/// The decimal rendering of `n`, without leading zeros.
pub open spec fn dec_str(n: nat) -> Seq<char>
    decreases n,
{
    if n < 10 {
        seq![digit_char(n)]
    } else {
        dec_str(n / 10) + seq![digit_char(n % 10)]
    }
}

fn digit_str(d: u8) -> (r: &'static str)
    requires
        d < 10,
    ensures
        r@ == seq![digit_char(d as nat)],
{
    proof {
        reveal_strlit("0");
        reveal_strlit("1");
        reveal_strlit("2");
        reveal_strlit("3");
        reveal_strlit("4");
        reveal_strlit("5");
        reveal_strlit("6");
        reveal_strlit("7");
        reveal_strlit("8");
        reveal_strlit("9");
    }
    let r = match d {
        0 => "0",
        1 => "1",
        2 => "2",
        3 => "3",
        4 => "4",
        5 => "5",
        6 => "6",
        7 => "7",
        8 => "8",
        _ => "9",
    };
    proof {
        assert(r@ =~= seq![digit_char(d as nat)]);
    }
    r
}

/// Renders a number in decimal.
pub(crate) fn usize_dec(n: usize) -> (s: String)
    ensures
        s@ == dec_str(n as nat),
    decreases n,
{
    if n < 10 {
        String::from_str(digit_str(n as u8))
    } else {
        usize_dec(n / 10).concat(digit_str((n % 10) as u8))
    }
}

/// The display string the evaluator owes for a hero hand and a board: the
/// fixed sentinel when no card at all can be parsed from them, and otherwise
/// the category description with the score out of 100.
pub open spec fn evaluate_hand_spec(hero_hand: Seq<char>, board: Seq<char>) -> Seq<char> {
    let cs = parsed_cards(hero_hand, board);
    if cs.len() == 0 {
        "Unknown"@
    } else {
        strength_spec(cs).0 + " (Strength: "@ + dec_str(strength_spec(cs).1 as nat) + "/100)"@
    }
}

/// Evaluation is a pure function of its input: on equal hand and board
/// strings, repeated evaluation always yields the identical output string.
pub proof fn lemma_evaluate_hand_idempotent(
    h1: Seq<char>,
    b1: Seq<char>,
    h2: Seq<char>,
    b2: Seq<char>,
)
    requires
        h1 == h2,
        b1 == b2,
    ensures
        evaluate_hand_spec(h1, b1) == evaluate_hand_spec(h2, b2),
{
}

/// Evaluates the hero's hand together with the board and renders the
/// category and 0..100 strength score; returns `"Unknown"` when not a single
/// card can be parsed from the input. Never fails.
pub fn evaluate_hand(hero_hand: &str, board: &str) -> (r: String)
    ensures
        r@ == evaluate_hand_spec(hero_hand@, board@),
{
    let cards = parse_cards(hero_hand, board);
    if cards.len() == 0 {
        return String::from_str("Unknown");
    }
    let (desc, score) = calculate_strength(&cards);
    desc.concat(" (Strength: ").concat(usize_dec(score as usize).as_str()).concat("/100)")
}

} // verus!
