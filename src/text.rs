//! Characters and strings: conversions, ASCII case folding, splitting and
//! decimal numerals, with their specifications.

use vstd::prelude::*;

verus! {

/// The characters of a string slice, in order.
pub fn chars_of(s: &str) -> (r: Vec<char>)
    ensures
        r@ == s@,
{
    let mut r: Vec<char> = Vec::new();
    for c in it: s.chars()
        invariant
            it.seq() == s@,
            r@ == it.seq().take(it.index() as int),
    {
        r.push(c);
    }
    r
}

/// Relies on `FromIterator<&char>` for `String`: collecting characters
/// yields a string of exactly those characters, in order.
#[verifier::external_body]
pub(crate) fn string_of(chars: &[char]) -> (r: String)
    ensures
        r@ == chars@,
{
    chars.iter().collect()
}

/// Whether `c` reads as the lower-case character `lc` once ASCII upper-case
/// letters are folded to lower case.
pub open spec fn folds_to(c: char, lc: char) -> bool {
    c == lc || (65 <= (c as u32) <= 90 && (c as u32) + 32 == (lc as u32))
}

/// Whether `s` spells the lower-case `name`, ignoring ASCII case.
pub open spec fn matches_name(s: Seq<char>, name: Seq<char>) -> bool {
    s.len() == name.len() && forall|i: int| 0 <= i < s.len() ==> folds_to(s[i], name[i])
}

/// Whether `s` begins with the lower-case `key`, ignoring ASCII case.
pub open spec fn has_prefix(s: Seq<char>, key: Seq<char>) -> bool {
    key.len() <= s.len() && matches_name(s.take(key.len() as int), key)
}

fn char_folds_to(c: char, lc: char) -> (r: bool)
    ensures
        r == folds_to(c, lc),
{
    let u = c as u32;
    c == lc || (65 <= u && u <= 90 && u + 32 == lc as u32)
}

/// Whether `s` begins with `key`, ignoring ASCII case.
fn folds_prefix(s: &[char], key: &[char]) -> (r: bool)
    requires
        key@.len() <= s@.len(),
    ensures
        r == matches_name(s@.take(key@.len() as int), key@),
{
    let mut i: usize = 0;
    while i < key.len()
        invariant
            i <= key@.len() <= s@.len(),
            forall|j: int| 0 <= j < i ==> folds_to(s@[j], key@[j]),
        decreases key@.len() - i,
    {
        if !char_folds_to(s[i], key[i]) {
            return false;
        }
        i += 1;
    }
    true
}

/// Whether `s` spells `name`, ignoring ASCII case.
pub fn is_name(s: &[char], name: &str) -> (r: bool)
    ensures
        r == matches_name(s@, name@),
{
    let key = chars_of(name);
    if key.len() != s.len() {
        return false;
    }
    let r = folds_prefix(s, key.as_slice());
    assert(s@.take(key@.len() as int) == s@);
    r
}

/// Whether `s` begins with `key`, ignoring ASCII case.
pub fn starts_with_name(s: &[char], key: &str) -> (r: bool)
    ensures
        r == has_prefix(s@, key@),
{
    let k = chars_of(key);
    if k.len() > s.len() {
        return false;
    }
    folds_prefix(s, k.as_slice())
}

/// The characters of `s` from index `start` on.
pub fn tail_from(s: &[char], start: usize) -> (r: Vec<char>)
    requires
        start <= s@.len(),
    ensures
        r@ == s@.skip(start as int),
{
    let mut r: Vec<char> = Vec::new();
    let mut i: usize = start;
    while i < s.len()
        invariant
            start <= i <= s@.len(),
            r@ == s@.subrange(start as int, i as int),
        decreases s@.len() - i,
    {
        r.push(s[i]);
        i += 1;
    }
    r
}

/// The decimal digit `d`.
pub open spec fn digit_char(d: int) -> char {
    if d == 0 {
        '0'
    } else if d == 1 {
        '1'
    } else if d == 2 {
        '2'
    } else if d == 3 {
        '3'
    } else if d == 4 {
        '4'
    } else if d == 5 {
        '5'
    } else if d == 6 {
        '6'
    } else if d == 7 {
        '7'
    } else if d == 8 {
        '8'
    } else {
        '9'
    }
}

/// The decimal numeral of `n`, without leading zeros.
pub open spec fn decimal(n: nat) -> Seq<char>
    decreases n,
{
    if n < 10 {
        seq![digit_char(n as int)]
    } else {
        decimal(n / 10).push(digit_char((n % 10) as int))
    }
}

fn digit(d: u8) -> (r: char)
    requires
        d < 10,
    ensures
        r == digit_char(d as int),
{
    if d == 0 {
        '0'
    } else if d == 1 {
        '1'
    } else if d == 2 {
        '2'
    } else if d == 3 {
        '3'
    } else if d == 4 {
        '4'
    } else if d == 5 {
        '5'
    } else if d == 6 {
        '6'
    } else if d == 7 {
        '7'
    } else if d == 8 {
        '8'
    } else {
        '9'
    }
}

/// Appends the decimal numeral of `n`.
pub fn push_decimal(out: &mut Vec<char>, n: u8)
    ensures
        final(out)@ == old(out)@ + decimal(n as nat),
{
    if n >= 100 {
        assert(decimal(n as nat) == decimal((n / 10) as nat).push(digit_char((n % 10) as int)));
        assert(decimal((n / 10) as nat) == decimal((n / 100) as nat).push(
            digit_char(((n / 10) % 10) as int),
        ));
        out.push(digit(n / 100));
        out.push(digit((n / 10) % 10));
        out.push(digit(n % 10));
    } else if n >= 10 {
        assert(decimal(n as nat) == decimal((n / 10) as nat).push(digit_char((n % 10) as int)));
        out.push(digit(n / 10));
        out.push(digit(n % 10));
    } else {
        out.push(digit(n));
    }
}

/// Appends `s` to `out`.
pub fn push_all(out: &mut Vec<char>, s: &[char])
    ensures
        final(out)@ == old(out)@ + s@,
{
    let mut i: usize = 0;
    while i < s.len()
        invariant
            i <= s@.len(),
            out@ == old(out)@ + s@.take(i as int),
        decreases s@.len() - i,
    {
        out.push(s[i]);
        i += 1;
    }
    assert(s@.take(s@.len() as int) == s@);
}

/// Where a text is cut into pieces.
#[derive(Debug, Clone, Copy, PartialEq, Eq, Structural)]
pub enum Separator {
    /// At each line feed.
    LineFeed,
    /// At each comma.
    Comma,
    /// At each ASCII white-space character.
    Blank,
}

impl Separator {
    pub open spec fn cuts_at(self, c: char) -> bool {
        match self {
            Separator::LineFeed => c == '\n',
            Separator::Comma => c == ',',
            Separator::Blank => c == ' ' || c == '\t' || c == '\n' || c == '\x0C' || c == '\r',
        }
    }

    pub fn cuts(&self, c: char) -> (r: bool)
        ensures
            r == self.cuts_at(c),
    {
        match self {
            Separator::LineFeed => c == '\n',
            Separator::Comma => c == ',',
            Separator::Blank => c == ' ' || c == '\t' || c == '\n' || c == '\x0C' || c == '\r',
        }
    }
}

/// The pieces that the first `n` characters of `s` are cut into: those
/// already closed by a separator, and the one still open.
pub open spec fn split_prefix(s: Seq<char>, n: int, sep: Separator) -> (Seq<Seq<char>>, Seq<char>)
    decreases n,
{
    if n <= 0 {
        (seq![], seq![])
    } else {
        let (closed, open) = split_prefix(s, n - 1, sep);
        if sep.cuts_at(s[n - 1]) {
            (closed.push(open), seq![])
        } else {
            (closed, open.push(s[n - 1]))
        }
    }
}

/// The pieces between separators, empty ones included: a text with `k`
/// separators has `k + 1` pieces.
pub open spec fn split_by(s: Seq<char>, sep: Separator) -> Seq<Seq<char>> {
    let (closed, open) = split_prefix(s, s.len() as int, sep);
    closed.push(open)
}

/// The characters of each piece.
pub open spec fn pieces_view(v: Seq<Vec<char>>) -> Seq<Seq<char>> {
    v.map_values(|p: Vec<char>| p@)
}

/// Cuts `s` into the pieces between separators.
pub fn split_where(s: &[char], sep: Separator) -> (r: Vec<Vec<char>>)
    ensures
        pieces_view(r@) == split_by(s@, sep),
{
    let mut closed: Vec<Vec<char>> = Vec::new();
    let mut open: Vec<char> = Vec::new();
    let mut i: usize = 0;
    while i < s.len()
        invariant
            i <= s@.len(),
            (pieces_view(closed@), open@) == split_prefix(s@, i as int, sep),
        decreases s@.len() - i,
    {
        if sep.cuts(s[i]) {
            let ghost before = pieces_view(closed@);
            closed.push(open);
            assert(pieces_view(closed@) =~= before.push(split_prefix(s@, i as int, sep).1));
            open = Vec::new();
        } else {
            open.push(s[i]);
        }
        i += 1;
    }
    let ghost before = pieces_view(closed@);
    closed.push(open);
    assert(pieces_view(closed@) =~= before.push(split_prefix(s@, s@.len() as int, sep).1));
    closed
}

} // verus!
