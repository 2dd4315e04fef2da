//! Input normalization for card tokens and board fragments: ranks uppercased,
//! suits lowercased, whitespace dropped, and a board written either with
//! commas or as one continuous run of tokens brought to the comma-separated
//! form the tree document uses.

use vstd::prelude::*;

use crate::range::push_char;

verus! {

/// The Unicode whitespace property of a character, a function of the
/// character alone.
pub uninterp spec fn is_unicode_space(c: char) -> bool;

/// Relies on char::is_whitespace: whether the character has the Unicode
/// whitespace property.
#[verifier::external_body]
fn is_space_char(c: char) -> (r: bool)
    ensures
        r == is_unicode_space(c),
{
    c.is_whitespace()
}

/// An ASCII lowercase letter raised to uppercase; any other character is
/// kept as it is.
pub open spec fn ascii_upper(c: char) -> char {
    match c {
        'a' => 'A',
        'b' => 'B',
        'c' => 'C',
        'd' => 'D',
        'e' => 'E',
        'f' => 'F',
        'g' => 'G',
        'h' => 'H',
        'i' => 'I',
        'j' => 'J',
        'k' => 'K',
        'l' => 'L',
        'm' => 'M',
        'n' => 'N',
        'o' => 'O',
        'p' => 'P',
        'q' => 'Q',
        'r' => 'R',
        's' => 'S',
        't' => 'T',
        'u' => 'U',
        'v' => 'V',
        'w' => 'W',
        'x' => 'X',
        'y' => 'Y',
        'z' => 'Z',
        _ => c,
    }
}

/// An ASCII uppercase letter brought to lowercase; any other character is
/// kept as it is.
pub open spec fn ascii_lower(c: char) -> char {
    match c {
        'A' => 'a',
        'B' => 'b',
        'C' => 'c',
        'D' => 'd',
        'E' => 'e',
        'F' => 'f',
        'G' => 'g',
        'H' => 'h',
        'I' => 'i',
        'J' => 'j',
        'K' => 'k',
        'L' => 'l',
        'M' => 'm',
        'N' => 'n',
        'O' => 'o',
        'P' => 'p',
        'Q' => 'q',
        'R' => 'r',
        'S' => 's',
        'T' => 't',
        'U' => 'u',
        'V' => 'v',
        'W' => 'w',
        'X' => 'x',
        'Y' => 'y',
        'Z' => 'z',
        _ => c,
    }
}

fn to_upper(c: char) -> (r: char)
    ensures
        r == ascii_upper(c),
{
    match c {
        'a' => 'A',
        'b' => 'B',
        'c' => 'C',
        'd' => 'D',
        'e' => 'E',
        'f' => 'F',
        'g' => 'G',
        'h' => 'H',
        'i' => 'I',
        'j' => 'J',
        'k' => 'K',
        'l' => 'L',
        'm' => 'M',
        'n' => 'N',
        'o' => 'O',
        'p' => 'P',
        'q' => 'Q',
        'r' => 'R',
        's' => 'S',
        't' => 'T',
        'u' => 'U',
        'v' => 'V',
        'w' => 'W',
        'x' => 'X',
        'y' => 'Y',
        'z' => 'Z',
        _ => c,
    }
}

fn to_lower(c: char) -> (r: char)
    ensures
        r == ascii_lower(c),
{
    match c {
        'A' => 'a',
        'B' => 'b',
        'C' => 'c',
        'D' => 'd',
        'E' => 'e',
        'F' => 'f',
        'G' => 'g',
        'H' => 'h',
        'I' => 'i',
        'J' => 'j',
        'K' => 'k',
        'L' => 'l',
        'M' => 'm',
        'N' => 'n',
        'O' => 'o',
        'P' => 'p',
        'Q' => 'q',
        'R' => 'r',
        'S' => 's',
        'T' => 't',
        'U' => 'u',
        'V' => 'v',
        'W' => 'w',
        'X' => 'x',
        'Y' => 'y',
        'Z' => 'z',
        _ => c,
    }
}

// ---------------------------------------------------------------------------
// Trimming
// ---------------------------------------------------------------------------
/// `s` with its leading whitespace removed.
pub open spec fn trim_start_spec(s: Seq<char>) -> Seq<char>
    decreases s.len(),
{
    if s.len() > 0 && is_unicode_space(s[0]) {
        trim_start_spec(s.drop_first())
    } else {
        s
    }
}

/// `s` with its trailing whitespace removed.
pub open spec fn trim_end_spec(s: Seq<char>) -> Seq<char>
    decreases s.len(),
{
    if s.len() > 0 && is_unicode_space(s.last()) {
        trim_end_spec(s.drop_last())
    } else {
        s
    }
}

/// `s` with leading and trailing whitespace removed.
pub open spec fn trim_spec(s: Seq<char>) -> Seq<char> {
    trim_end_spec(trim_start_spec(s))
}

proof fn lemma_trim_start_at(s: Seq<char>, i: int)
    requires
        0 <= i <= s.len(),
        forall|j: int| 0 <= j < i ==> is_unicode_space(#[trigger] s[j]),
        i == s.len() || !is_unicode_space(s[i]),
    ensures
        trim_start_spec(s) == s.skip(i),
    decreases i,
{
    if i == 0 {
        assert(s.skip(0) =~= s);
    } else {
        lemma_trim_start_at(s.drop_first(), i - 1);
        assert(s.drop_first().skip(i - 1) =~= s.skip(i));
    }
}

proof fn lemma_trim_end_at(s: Seq<char>, j: int)
    requires
        0 <= j <= s.len(),
        forall|k: int| j <= k < s.len() ==> is_unicode_space(#[trigger] s[k]),
        j == 0 || !is_unicode_space(s[j - 1]),
    ensures
        trim_end_spec(s) == s.take(j),
    decreases s.len(),
{
    if j == s.len() {
        assert(s.take(j) =~= s);
    } else {
        lemma_trim_end_at(s.drop_last(), j);
        assert(s.drop_last().take(j) =~= s.take(j));
    }
}

/// Removes leading and trailing whitespace.
fn trim_str<'a>(s: &'a str) -> (r: &'a str)
    ensures
        r@ == trim_spec(s@),
{
    let n = s.unicode_len();
    let mut i: usize = 0;
    while i < n && is_space_char(s.get_char(i))
        invariant
            i <= n,
            n == s@.len(),
            forall|j: int| 0 <= j < i ==> is_unicode_space(#[trigger] s@[j]),
        decreases n - i,
    {
        i += 1;
    }
    let mut j: usize = n;
    while j > i && is_space_char(s.get_char(j - 1))
        invariant
            i <= j <= n,
            n == s@.len(),
            forall|k: int| j <= k < n ==> is_unicode_space(#[trigger] s@[k]),
        decreases j,
    {
        j -= 1;
    }
    proof {
        lemma_trim_start_at(s@, i as int);
        lemma_trim_end_at(s@.skip(i as int), j - i);
        assert(s@.skip(i as int).take(j - i) =~= s@.subrange(i as int, j as int));
    }
    s.substring_char(i, j)
}

// ---------------------------------------------------------------------------
// Single card tokens
// ---------------------------------------------------------------------------
/// A card token brought to canonical case: its first character uppercased
/// as the rank, its second lowercased as the suit, placeholders `X` and `x`
/// standing in for missing characters; anything past the second character
/// is dropped.
pub open spec fn normalize_card_spec(c: Seq<char>) -> Seq<char> {
    let r = if c.len() >= 1 {
        c[0]
    } else {
        'X'
    };
    let s = if c.len() >= 2 {
        c[1]
    } else {
        'x'
    };
    seq![ascii_upper(r), ascii_lower(s)]
}

fn normalize_card_chars(rc: char, sc: char) -> (r: String)
    ensures
        r@ == seq![ascii_upper(rc), ascii_lower(sc)],
{
    let mut out = String::new();
    push_char(&mut out, to_upper(rc));
    push_char(&mut out, to_lower(sc));
    proof {
        assert(out@ =~= seq![ascii_upper(rc), ascii_lower(sc)]);
    }
    out
}

/// Brings one card token to canonical case: rank uppercased, suit
/// lowercased, with placeholders for missing characters.
pub fn normalize_card(card: &str) -> (r: String)
    ensures
        r@ == normalize_card_spec(card@),
{
    let n = card.unicode_len();
    let rc = if n >= 1 {
        card.get_char(0)
    } else {
        'X'
    };
    let sc = if n >= 2 {
        card.get_char(1)
    } else {
        'x'
    };
    normalize_card_chars(rc, sc)
}

// ---------------------------------------------------------------------------
// Board fragments
// ---------------------------------------------------------------------------
/// `s` cut at every comma; a sequence without commas is one token, and each
/// comma opens a new (possibly empty) token.
pub open spec fn split_commas(s: Seq<char>) -> Seq<Seq<char>>
    decreases s.len(),
{
    if s.len() == 0 {
        seq![s]
    } else if s.last() == ',' {
        split_commas(s.drop_last()).push(Seq::empty())
    } else {
        let r = split_commas(s.drop_last());
        r.update(r.len() - 1, r.last().push(s.last()))
    }
}

proof fn lemma_split_commas_len(s: Seq<char>)
    ensures
        split_commas(s).len() >= 1,
    decreases s.len(),
{
    if s.len() > 0 {
        lemma_split_commas_len(s.drop_last());
    }
}

/// Tokens trimmed, empty ones dropped, the rest brought to canonical card
/// case.
pub open spec fn clean_tokens(ts: Seq<Seq<char>>) -> Seq<Seq<char>>
    decreases ts.len(),
{
    if ts.len() == 0 {
        Seq::empty()
    } else {
        let pre = clean_tokens(ts.drop_last());
        let t = trim_spec(ts.last());
        if t.len() == 0 {
            pre
        } else {
            pre.push(normalize_card_spec(t))
        }
    }
}

/// The tokens joined with single commas.
pub open spec fn join_commas(ts: Seq<Seq<char>>) -> Seq<char>
    decreases ts.len(),
{
    if ts.len() == 0 {
        Seq::empty()
    } else if ts.len() == 1 {
        ts[0]
    } else {
        join_commas(ts.drop_last()) + seq![','] + ts.last()
    }
}

/// `s` with every whitespace character removed.
pub open spec fn remove_spaces(s: Seq<char>) -> Seq<char>
    decreases s.len(),
{
    if s.len() == 0 {
        Seq::empty()
    } else if is_unicode_space(s.last()) {
        remove_spaces(s.drop_last())
    } else {
        remove_spaces(s.drop_last()).push(s.last())
    }
}

/// Consecutive two-character tokens, each brought to canonical card case.
pub open spec fn norm_pairs(s: Seq<char>) -> Seq<Seq<char>>
    decreases s.len(),
{
    if s.len() < 2 {
        Seq::empty()
    } else {
        seq![normalize_card_spec(s.take(2))] + norm_pairs(s.skip(2))
    }
}

/// What normalizing a board fragment yields. The input is trimmed; an empty
/// result stays empty. With commas present, each comma-separated token is
/// trimmed, empty tokens are dropped, and the rest are normalized and
/// rejoined with commas. Without commas, whitespace is removed and the run
/// is cut into two-character tokens, normalized and joined with commas — or
/// handed back as it stands when its length is odd.
pub open spec fn normalize_board_spec(raw: Seq<char>) -> Seq<char> {
    let t = trim_spec(raw);
    if t.len() == 0 {
        Seq::empty()
    } else if t.contains(',') {
        join_commas(clean_tokens(split_commas(t)))
    } else {
        let cleaned = remove_spaces(t);
        if cleaned.len() % 2 != 0 {
            cleaned
        } else {
            join_commas(norm_pairs(cleaned))
        }
    }
}

fn contains_comma(s: &str) -> (r: bool)
    ensures
        r == s@.contains(','),
{
    let n = s.unicode_len();
    let mut i: usize = 0;
    while i < n
        invariant
            i <= n,
            n == s@.len(),
            forall|j: int| 0 <= j < i ==> s@[j] != ',',
        decreases n - i,
    {
        if s.get_char(i) == ',' {
            return true;
        }
        i += 1;
    }
    false
}

fn split_commas_exec(t: &str) -> (tokens: Vec<String>)
    ensures
        tokens.deep_view() == split_commas(t@),
        tokens@.len() >= 1,
{
    let n = t.unicode_len();
    let mut tokens: Vec<String> = Vec::new();
    tokens.push(String::new());
    proof {
        assert(t@.take(0) =~= Seq::<char>::empty());
        assert(tokens.deep_view() =~~= split_commas(t@.take(0)));
    }
    let mut i: usize = 0;
    while i < n
        invariant
            i <= n,
            n == t@.len(),
            tokens@.len() >= 1,
            tokens.deep_view() == split_commas(t@.take(i as int)),
        decreases n - i,
    {
        let ghost pre = t@.take(i as int);
        proof {
            assert(t@.take(i + 1).drop_last() =~= pre);
            assert(t@.take(i + 1).last() == t@[i as int]);
        }
        let c = t.get_char(i);
        if c == ',' {
            tokens.push(String::new());
            proof {
                assert(tokens.deep_view() =~~= split_commas(pre).push(Seq::empty()));
            }
        } else {
            let mut last = tokens.pop().unwrap();
            push_char(&mut last, c);
            tokens.push(last);
            proof {
                let sp = split_commas(pre);
                assert(tokens.deep_view() =~~= sp.update(
                    sp.len() - 1,
                    sp.last().push(t@[i as int]),
                ));
            }
        }
        i += 1;
    }
    proof {
        assert(t@.take(n as int) =~= t@);
    }
    tokens
}

fn clean_card_tokens(tokens: &Vec<String>) -> (out: Vec<String>)
    ensures
        out.deep_view() == clean_tokens(tokens.deep_view()),
{
    let mut out: Vec<String> = Vec::new();
    let mut k: usize = 0;
    proof {
        assert(out.deep_view() =~~= clean_tokens(tokens.deep_view().take(0)));
    }
    while k < tokens.len()
        invariant
            k <= tokens@.len(),
            out.deep_view() == clean_tokens(tokens.deep_view().take(k as int)),
        decreases tokens@.len() - k,
    {
        proof {
            assert(tokens.deep_view().take(k + 1).drop_last() =~~= tokens.deep_view().take(
                k as int,
            ));
            assert(tokens.deep_view().take(k + 1).last() == tokens@[k as int]@);
        }
        let c = trim_str(tokens[k].as_str());
        if c.unicode_len() > 0 {
            out.push(normalize_card(c));
            proof {
                assert(out.deep_view() =~~= clean_tokens(tokens.deep_view().take(k + 1)));
            }
        }
        k += 1;
    }
    proof {
        assert(tokens.deep_view().take(tokens@.len() as int) =~~= tokens.deep_view());
    }
    out
}

fn join_with_commas(items: &Vec<String>) -> (out: String)
    ensures
        out@ == join_commas(items.deep_view()),
{
    let mut out = String::new();
    let mut k: usize = 0;
    proof {
        assert(items.deep_view().take(0) =~~= Seq::<Seq<char>>::empty());
    }
    while k < items.len()
        invariant
            k <= items@.len(),
            out@ == join_commas(items.deep_view().take(k as int)),
        decreases items@.len() - k,
    {
        proof {
            assert(items.deep_view().take(k + 1).drop_last() =~~= items.deep_view().take(
                k as int,
            ));
            assert(items.deep_view().take(k + 1).last() == items@[k as int]@);
        }
        if k > 0 {
            push_char(&mut out, ',');
        }
        out.append(items[k].as_str());
        proof {
            if k == 0 {
                assert(out@ =~= join_commas(items.deep_view().take(1)));
            } else {
                assert(out@ =~= join_commas(items.deep_view().take(k as int)) + seq![',']
                    + items@[k as int]@);
            }
        }
        k += 1;
    }
    proof {
        assert(items.deep_view().take(items@.len() as int) =~~= items.deep_view());
    }
    out
}

fn remove_spaces_exec(t: &str) -> (cs: Vec<char>)
    ensures
        cs@ == remove_spaces(t@),
{
    let n = t.unicode_len();
    let mut cs: Vec<char> = Vec::new();
    let mut i: usize = 0;
    proof {
        assert(t@.take(0) =~= Seq::<char>::empty());
    }
    while i < n
        invariant
            i <= n,
            n == t@.len(),
            cs@ == remove_spaces(t@.take(i as int)),
        decreases n - i,
    {
        proof {
            assert(t@.take(i + 1).drop_last() =~= t@.take(i as int));
            assert(t@.take(i + 1).last() == t@[i as int]);
        }
        let c = t.get_char(i);
        if !is_space_char(c) {
            cs.push(c);
        }
        i += 1;
    }
    proof {
        assert(t@.take(n as int) =~= t@);
    }
    cs
}

fn string_of_chars(cs: &Vec<char>) -> (out: String)
    ensures
        out@ == cs@,
{
    let mut out = String::new();
    let mut i: usize = 0;
    while i < cs.len()
        invariant
            i <= cs@.len(),
            out@ == cs@.take(i as int),
        decreases cs@.len() - i,
    {
        push_char(&mut out, cs[i]);
        proof {
            assert(cs@.take(i as int).push(cs@[i as int]) =~= cs@.take(i + 1));
        }
        i += 1;
    }
    proof {
        assert(cs@.take(cs@.len() as int) =~= cs@);
    }
    out
}

fn pair_tokens(cs: &Vec<char>) -> (out: Vec<String>)
    ensures
        out.deep_view() == norm_pairs(cs@),
{
    let mut out: Vec<String> = Vec::new();
    let m = cs.len();
    let mut i: usize = 0;
    proof {
        assert(cs@.skip(0) =~= cs@);
        assert(out.deep_view() + norm_pairs(cs@) =~~= norm_pairs(cs@));
    }
    while i < m && i + 1 < m
        invariant
            i <= m,
            m == cs@.len(),
            out.deep_view() + norm_pairs(cs@.skip(i as int)) == norm_pairs(cs@),
        decreases m - i,
    {
        proof {
            assert(cs@.skip(i as int).take(2) =~= seq![cs@[i as int], cs@[i as int + 1]]);
            assert(cs@.skip(i as int).skip(2) =~= cs@.skip(i as int + 2));
        }
        let ghost before = out.deep_view();
        out.push(normalize_card_chars(cs[i], cs[i + 1]));
        proof {
            assert(normalize_card_spec(seq![cs@[i as int], cs@[i as int + 1]])
                =~= normalize_card_spec(cs@.skip(i as int).take(2)));
            assert(before + norm_pairs(cs@.skip(i as int)) =~~= out.deep_view() + norm_pairs(
                cs@.skip(i as int + 2),
            ));
        }
        i += 2;
    }
    proof {
        assert(out.deep_view() + norm_pairs(cs@.skip(i as int)) =~~= out.deep_view());
    }
    out
}

/// Brings a board fragment to comma-separated canonical card tokens: a
/// comma-written board is normalized token by token, and a continuous run
/// such as `QsJh2h` is cut into two-character tokens — or handed back
/// unchanged (beyond whitespace removal) when its length is odd.
pub fn normalize_board_fragment(raw: &str) -> (r: String)
    ensures
        r@ == normalize_board_spec(raw@),
{
    let t = trim_str(raw);
    if t.unicode_len() == 0 {
        return String::new();
    }
    if contains_comma(t) {
        let tokens = split_commas_exec(t);
        let cleaned = clean_card_tokens(&tokens);
        join_with_commas(&cleaned)
    } else {
        let cs = remove_spaces_exec(t);
        if cs.len() % 2 != 0 {
            string_of_chars(&cs)
        } else {
            let pairs = pair_tokens(&cs);
            join_with_commas(&pairs)
        }
    }
}

} // verus!
