//! Canonical hand names: a four-character hole-card string reduced to the
//! generic range notation the solver's range presets use (`AA`, `AKs`,
//! `AKo`), with the stronger rank first.

use vstd::prelude::*;

verus! {

/// Relies on String::push: appends the given character to the end of the
/// string.
#[verifier::external_body]
pub(crate) fn push_char(s: &mut String, c: char)
    ensures
        final(s)@ == old(s)@.push(c),
{
    s.push(c);
}

/// The position of a rank character in the descending order
/// `A K Q J T 9 8 7 6 5 4 3 2`; an unknown character counts as the
/// strongest, position 0.
pub open spec fn rank_strength(c: char) -> int {
    match c {
        'A' => 0,
        'K' => 1,
        'Q' => 2,
        'J' => 3,
        'T' => 4,
        '9' => 5,
        '8' => 6,
        '7' => 7,
        '6' => 8,
        '5' => 9,
        '4' => 10,
        '3' => 11,
        '2' => 12,
        _ => 0,
    }
}

fn rank_strength_exec(c: char) -> (r: usize)
    ensures
        r as int == rank_strength(c),
{
    match c {
        'A' => 0,
        'K' => 1,
        'Q' => 2,
        'J' => 3,
        'T' => 4,
        '9' => 5,
        '8' => 6,
        '7' => 7,
        '6' => 8,
        '5' => 9,
        '4' => 10,
        '3' => 11,
        '2' => 12,
        _ => 0,
    }
}

/// The generic range notation for a four-character hole-card string: the two
/// rank characters ordered strongest first, suffixed `s` when the suits
/// match and `o` when they differ, with no suffix for a pair. A string of
/// fewer than four characters falls back to `AA`; characters past the
/// fourth are ignored.
pub open spec fn generic_hand_spec(h: Seq<char>) -> Seq<char> {
    if h.len() < 4 {
        "AA"@
    } else {
        let r1 = h[0];
        let s1 = h[1];
        let r2 = h[2];
        let s2 = h[3];
        let ordered = if rank_strength(r1) <= rank_strength(r2) {
            seq![r1, r2]
        } else {
            seq![r2, r1]
        };
        if r1 == r2 {
            ordered
        } else if s1 == s2 {
            ordered.push('s')
        } else {
            ordered.push('o')
        }
    }
}

/// Reduces a hole-card string such as `AhKd` to the generic range notation
/// (`AKo`): ranks ordered strongest first, `s` for suited, `o` for offsuit,
/// bare for a pair.
pub fn get_generic_hand(hand: &str) -> (r: String)
    ensures
        r@ == generic_hand_spec(hand@),
{
    if hand.unicode_len() < 4 {
        return String::from_str("AA");
    }
    let r1 = hand.get_char(0);
    let s1 = hand.get_char(1);
    let r2 = hand.get_char(2);
    let s2 = hand.get_char(3);
    let mut out = String::new();
    if rank_strength_exec(r1) <= rank_strength_exec(r2) {
        push_char(&mut out, r1);
        push_char(&mut out, r2);
        proof {
            assert(out@ =~= seq![r1, r2]);
        }
    } else {
        push_char(&mut out, r2);
        push_char(&mut out, r1);
        proof {
            assert(out@ =~= seq![r2, r1]);
        }
    }
    if r1 == r2 {
        out
    } else if s1 == s2 {
        push_char(&mut out, 's');
        out
    } else {
        push_char(&mut out, 'o');
        out
    }
}

} // verus!
