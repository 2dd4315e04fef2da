//! Card codec: compact two-character card tokens (`rank` then `suit`) parsed
//! into semantic (rank, suit) pairs, plus the display names of ranks and suits.

use vstd::prelude::*;

verus! {

/// A playing card. Rank is an ordinal 0..13 (2 through Ace); suit is an
/// ordinal 0..4 (hearts, diamonds, clubs, spades).
#[derive(Clone, Copy, PartialEq, Eq, Structural, Debug)]
pub struct Card {
    pub rank: u8,
    pub suit: u8,
}

impl Card {
    pub open spec fn wf(self) -> bool {
        self.rank < 13 && self.suit < 4
    }
}

/// The rank ordinal a rank character stands for, if it is recognized.
/// Only digits and uppercase `T J Q K A` are recognized.
pub open spec fn rank_of_char(c: char) -> Option<u8> {
    match c {
        '2' => Some(0u8),
        '3' => Some(1u8),
        '4' => Some(2u8),
        '5' => Some(3u8),
        '6' => Some(4u8),
        '7' => Some(5u8),
        '8' => Some(6u8),
        '9' => Some(7u8),
        'T' => Some(8u8),
        'J' => Some(9u8),
        'Q' => Some(10u8),
        'K' => Some(11u8),
        'A' => Some(12u8),
        _ => None,
    }
}

/// The suit ordinal a suit character stands for, if it is recognized.
/// Only lowercase `h d c s` are recognized.
pub open spec fn suit_of_char(c: char) -> Option<u8> {
    match c {
        'h' => Some(0u8),
        'd' => Some(1u8),
        'c' => Some(2u8),
        's' => Some(3u8),
        _ => None,
    }
}

/// What parsing a card token yields: a card for a two-character token whose
/// rank and suit characters are both recognized, nothing otherwise.
pub open spec fn parse_card_spec(s: Seq<char>) -> Option<Card> {
    if s.len() == 2 {
        match (rank_of_char(s[0]), suit_of_char(s[1])) {
            (Some(r), Some(t)) => Some(Card { rank: r, suit: t }),
            _ => None,
        }
    } else {
        None
    }
}

/// Parses one two-character card token. A token of the wrong length or with
/// an unrecognized rank or suit character yields no card, never an error.
pub fn parse_single_card(c: &str) -> (r: Option<Card>)
    ensures
        r == parse_card_spec(c@),
        r matches Some(card) ==> card.wf(),
{
    if c.unicode_len() != 2 {
        return None;
    }
    let rc = c.get_char(0);
    let sc = c.get_char(1);
    let rank: u8 = match rc {
        '2' => 0,
        '3' => 1,
        '4' => 2,
        '5' => 3,
        '6' => 4,
        '7' => 5,
        '8' => 6,
        '9' => 7,
        'T' => 8,
        'J' => 9,
        'Q' => 10,
        'K' => 11,
        'A' => 12,
        _ => {
            return None;
        },
    };
    let suit: u8 = match sc {
        'h' => 0,
        'd' => 1,
        'c' => 2,
        's' => 3,
        _ => {
            return None;
        },
    };
    Some(Card { rank, suit })
}

/// Parses one card token given as its two characters.
fn parse_card_chars(rc: char, sc: char) -> (r: Option<Card>)
    ensures
        r == parse_card_spec(seq![rc, sc]),
        r matches Some(card) ==> card.wf(),
{
    let rank: u8 = match rc {
        '2' => 0,
        '3' => 1,
        '4' => 2,
        '5' => 3,
        '6' => 4,
        '7' => 5,
        '8' => 6,
        '9' => 7,
        'T' => 8,
        'J' => 9,
        'Q' => 10,
        'K' => 11,
        'A' => 12,
        _ => {
            return None;
        },
    };
    let suit: u8 = match sc {
        'h' => 0,
        'd' => 1,
        'c' => 2,
        's' => 3,
        _ => {
            return None;
        },
    };
    Some(Card { rank, suit })
}

/// A character stream with every comma removed.
pub open spec fn strip_commas(s: Seq<char>) -> Seq<char>
    decreases s.len(),
{
    if s.len() == 0 {
        Seq::empty()
    } else if s.last() == ',' {
        strip_commas(s.drop_last())
    } else {
        strip_commas(s.drop_last()).push(s.last())
    }
}

/// The cards read from a character stream taken two characters at a time;
/// a pair that is no recognized token is skipped, and a trailing odd
/// character is dropped.
pub open spec fn cards_of_spec(s: Seq<char>) -> Seq<Card>
    decreases s.len(),
{
    if s.len() < 2 {
        Seq::empty()
    } else {
        let rest = cards_of_spec(s.skip(2));
        match parse_card_spec(s.take(2)) {
            Some(c) => seq![c] + rest,
            None => rest,
        }
    }
}

/// The cards a hero hand and a board supply together: their concatenation,
/// commas removed, read as consecutive two-character tokens.
pub open spec fn parsed_cards(hero_hand: Seq<char>, board: Seq<char>) -> Seq<Card> {
    cards_of_spec(strip_commas(hero_hand + board))
}

/// Parses every card token found in the hero hand followed by the board.
/// Commas are stripped first; unrecognized tokens are silently skipped.
pub fn parse_cards(hero_hand: &str, board: &str) -> (cards: Vec<Card>)
    ensures
        cards@ == parsed_cards(hero_hand@, board@),
        forall|i: int| 0 <= i < cards@.len() ==> (#[trigger] cards@[i]).wf(),
{
    let mut full = String::from_str(hero_hand);
    full.append(board);
    let fs = full.as_str();
    let n = fs.unicode_len();
    let mut cs: Vec<char> = Vec::new();
    let mut i: usize = 0;
    while i < n
        invariant
            i <= n,
            n == fs@.len(),
            fs@ == hero_hand@ + board@,
            cs@ == strip_commas(fs@.take(i as int)),
        decreases n - i,
    {
        let c = fs.get_char(i);
        proof {
            assert(fs@.take(i + 1).drop_last() =~= fs@.take(i as int));
            assert(fs@.take(i + 1).last() == fs@[i as int]);
        }
        if c != ',' {
            cs.push(c);
        }
        i += 1;
    }
    proof {
        assert(fs@.take(n as int) =~= fs@);
    }
    let mut cards: Vec<Card> = Vec::new();
    let m = cs.len();
    let mut j: usize = 0;
    proof {
        assert(cs@.skip(0) =~= cs@);
        assert(cards@ + cards_of_spec(cs@) =~= cards_of_spec(cs@));
    }
    while j < m && j + 1 < m
        invariant
            j <= m,
            m == cs@.len(),
            cards@ + cards_of_spec(cs@.skip(j as int)) == cards_of_spec(cs@),
            forall|k: int| 0 <= k < cards@.len() ==> (#[trigger] cards@[k]).wf(),
        decreases m - j,
    {
        proof {
            assert(cs@.skip(j as int).take(2) =~= seq![cs@[j as int], cs@[j as int + 1]]);
            assert(cs@.skip(j as int).skip(2) =~= cs@.skip(j as int + 2));
        }
        let ghost before = cards@;
        match parse_card_chars(cs[j], cs[j + 1]) {
            Some(card) => {
                cards.push(card);
                proof {
                    assert(before + cards_of_spec(cs@.skip(j as int)) =~= cards@ + cards_of_spec(
                        cs@.skip(j as int + 2),
                    ));
                }
            },
            None => {},
        }
        j += 2;
    }
    cards
}

/// The display name of a suit ordinal.
pub open spec fn suit_name_spec(s: int) -> Seq<char> {
    if s == 0 {
        "Hearts"@
    } else if s == 1 {
        "Diamonds"@
    } else if s == 2 {
        "Clubs"@
    } else if s == 3 {
        "Spades"@
    } else {
        "?"@
    }
}

/// The display name of a suit ordinal (hearts, diamonds, clubs, spades).
pub fn suit_name(s: u8) -> (r: &'static str)
    ensures
        r@ == suit_name_spec(s as int),
{
    match s {
        0 => "Hearts",
        1 => "Diamonds",
        2 => "Clubs",
        3 => "Spades",
        _ => "?",
    }
}

/// The display name of a rank ordinal.
pub open spec fn rank_name_spec(r: int) -> Seq<char> {
    if r == 0 {
        "Two"@
    } else if r == 1 {
        "Three"@
    } else if r == 2 {
        "Four"@
    } else if r == 3 {
        "Five"@
    } else if r == 4 {
        "Six"@
    } else if r == 5 {
        "Seven"@
    } else if r == 6 {
        "Eight"@
    } else if r == 7 {
        "Nine"@
    } else if r == 8 {
        "Ten"@
    } else if r == 9 {
        "Jack"@
    } else if r == 10 {
        "Queen"@
    } else if r == 11 {
        "King"@
    } else if r == 12 {
        "Ace"@
    } else {
        "?"@
    }
}

/// The display name of a rank ordinal (Two through Ace).
pub fn rank_name(r: u8) -> (s: &'static str)
    ensures
        s@ == rank_name_spec(r as int),
{
    match r {
        0 => "Two",
        1 => "Three",
        2 => "Four",
        3 => "Five",
        4 => "Six",
        5 => "Seven",
        6 => "Eight",
        7 => "Nine",
        8 => "Ten",
        9 => "Jack",
        10 => "Queen",
        11 => "King",
        12 => "Ace",
        _ => "?",
    }
}

} // verus!
