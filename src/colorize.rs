//! Colouring one line: which colour wins at each character, and the escape
//! sequences that reproduce that choice.

use vstd::prelude::*;

use crate::codec::{has_attr, CgrcAttrib};
use crate::parser::{rules_view, CGRCParser, CgrcConfItem, CgrcCountMode, RuleView};
use crate::pattern::regex_captures;
use crate::text::{chars_of, push_all, string_of};
use vstd::utf8::{char_is_scalar, encode_scalar, encode_utf8};

verus! {

/// The number of bytes that UTF-8 takes for the character.
pub open spec fn utf8_width(c: char) -> nat {
    encode_scalar(c as u32).len()
}

/// The length in bytes of the UTF-8 encoding of `s`.
pub open spec fn utf8_len(s: Seq<char>) -> nat {
    encode_utf8(s).len()
}

/// The byte offset at which the character at index `k` starts; for `k` the
/// length of the line, the line's length in bytes.
pub open spec fn byte_offset(line: Seq<char>, k: int) -> nat {
    utf8_len(line.take(k))
}

/// The index of the character that starts at byte `b`, or the line's length
/// when `b` is its length in bytes; `None` for a byte inside a character or
/// past the end.
pub open spec fn char_at_byte(line: Seq<char>, b: int) -> Option<int> {
    if exists|k: int| 0 <= k <= line.len() && byte_offset(line, k) == b {
        Some(choose|k: int| 0 <= k <= line.len() && byte_offset(line, k) == b)
    } else {
        None
    }
}

/// What colours one character: nothing, or the colour at index `.1` of the
/// rule at index `.0`.
pub type Cell = Option<(usize, usize)>;

/// The character span of capture group `g`: `None` where the group took no
/// part in the match, or its byte span does not fall on character
/// boundaries of the line.
pub open spec fn group_span(line: Seq<char>, m: Seq<Option<(usize, usize)>>, g: int) -> Option<
    (int, int),
> {
    match m[g] {
        None => None,
        Some((bs, be)) => match (char_at_byte(line, bs as int), char_at_byte(line, be as int)) {
            (Some(cs), Some(ce)) => Some((cs, ce)),
            _ => None,
        },
    }
}

/// The cells with those in `[from, to)` set to `cell`.
pub open spec fn paint(cells: Seq<Cell>, from: int, to: int, cell: Cell) -> Seq<Cell> {
    Seq::new(cells.len(), |p: int| if from <= p < to { cell } else { cells[p] })
}

/// Groups `0..g` of one match of rule `ri` painted in order; a group whose
/// colour carries `none` paints nothing.
pub open spec fn paint_groups(
    cells: Seq<Cell>,
    line: Seq<char>,
    ri: usize,
    rule: RuleView,
    m: Seq<Option<(usize, usize)>>,
    g: int,
) -> Seq<Cell>
    decreases g,
{
    if g <= 0 {
        cells
    } else {
        let before = paint_groups(cells, line, ri, rule, m, g - 1);
        let span = group_span(line, m, g - 1);
        if span is Some && !rule.colors[g - 1].keeps_underlying() {
            paint(before, span->Some_0.0, span->Some_0.1, Some((ri, (g - 1) as usize)))
        } else {
            before
        }
    }
}

/// The number of groups of a match that have a colour.
pub open spec fn coloured_groups(rule: RuleView, m: Seq<Option<(usize, usize)>>) -> int {
    if m.len() < rule.colors.len() {
        m.len() as int
    } else {
        rule.colors.len() as int
    }
}

/// One match of rule `ri` painted.
pub open spec fn paint_match(
    cells: Seq<Cell>,
    line: Seq<char>,
    ri: usize,
    rule: RuleView,
    m: Seq<Option<(usize, usize)>>,
) -> Seq<Cell> {
    paint_groups(cells, line, ri, rule, m, coloured_groups(rule, m))
}

/// The matches painted one after the other.
pub open spec fn paint_matches(
    cells: Seq<Cell>,
    line: Seq<char>,
    ri: usize,
    rule: RuleView,
    ms: Seq<Seq<Option<(usize, usize)>>>,
) -> Seq<Cell>
    decreases ms.len(),
{
    if ms.len() == 0 {
        cells
    } else {
        paint_match(paint_matches(cells, line, ri, rule, ms.drop_last()), line, ri, rule, ms.last())
    }
}

/// The matches that were found, the failed searches left out.
pub open spec fn found_matches(caps: Seq<Option<Seq<Option<(usize, usize)>>>>) -> Seq<
    Seq<Option<(usize, usize)>>,
>
    decreases caps.len(),
{
    if caps.len() == 0 {
        seq![]
    } else {
        let before = found_matches(caps.drop_last());
        match caps.last() {
            Some(m) => before.push(m),
            None => before,
        }
    }
}

/// What one search of a pattern through a line gives: per match, `None`
/// for a failed search, else the byte span of each group.
pub type Captures = Seq<Option<Seq<Option<(usize, usize)>>>>;

/// What each rule's pattern gives in the line.
pub open spec fn captures_of(rules: Seq<RuleView>, line: Seq<char>) -> Seq<Captures> {
    Seq::new(rules.len(), |i: int| regex_captures(rules[i].pattern->Some_0, line))
}

pub open spec fn is_once(rule: RuleView) -> bool {
    rule.count_mode == Some(CgrcCountMode::CgrcCountOnce)
}

pub open spec fn is_stop(rule: RuleView) -> bool {
    rule.count_mode == Some(CgrcCountMode::CgrcCountStop)
}

pub open spec fn is_skip(rule: RuleView) -> bool {
    rule.skip == Some(true)
}

/// The matches of the rule that colour the line: the first one alone under
/// `count=once`, else all of them.
pub open spec fn counted_matches(rule: RuleView, caps: Captures) -> Seq<
    Seq<Option<(usize, usize)>>,
> {
    let ms = found_matches(caps);
    if is_once(rule) && ms.len() > 0 {
        ms.take(1)
    } else {
        ms
    }
}

/// The rules from index `i` on applied to the cells, `caps[i]` being what
/// the pattern of rule `i` gives. A rule that does not match changes nothing. A matching `skip` rule suppresses the line
/// (`None`); any other matching rule paints its counted matches, and under
/// `count=stop` no later rule is tried.
pub open spec fn color_from(
    rules: Seq<RuleView>,
    caps: Seq<Captures>,
    line: Seq<char>,
    i: int,
    cells: Seq<Cell>,
) -> Option<Seq<Cell>>
    decreases rules.len() - i,
{
    if i < 0 || i >= rules.len() {
        Some(cells)
    } else if found_matches(caps[i]).len() == 0 {
        color_from(rules, caps, line, i + 1, cells)
    } else if is_skip(rules[i]) {
        None
    } else {
        let painted = paint_matches(cells, line, i as usize, rules[i], counted_matches(rules[i], caps[i]));
        if is_stop(rules[i]) {
            Some(painted)
        } else {
            color_from(rules, caps, line, i + 1, painted)
        }
    }
}

/// A line's worth of uncoloured cells.
pub open spec fn no_color(n: nat) -> Seq<Cell> {
    Seq::new(n, |p: int| None)
}

/// The colour of each character of the line, or `None` for a suppressed line.
pub open spec fn line_colors(rules: Seq<RuleView>, caps: Seq<Captures>, line: Seq<char>) -> Option<
    Seq<Cell>,
> {
    color_from(rules, caps, line, 0, no_color(line.len()))
}

/// `ESC [ 0 m`: starts an uncoloured run.
pub open spec fn reset_seq() -> Seq<char> {
    seq!['\x1b', '[', '0', 'm']
}

/// `ESC [ 0 ; 0 m`: ends every rendered line.
pub open spec fn end_seq() -> Seq<char> {
    seq!['\x1b', '[', '0', ';', '0', 'm']
}

/// The end of the run of equal cells that starts at `s`, looking from `e` on.
pub open spec fn run_end(cells: Seq<Cell>, s: int, e: int) -> int
    decreases cells.len() - e,
{
    if 0 <= s < e < cells.len() && cells[e] == cells[s] {
        run_end(cells, s, e + 1)
    } else {
        e
    }
}

/// The text of the run `[s, e)`: plain after a reset, or between the
/// colour's escape sequence and its clearing sequence.
pub open spec fn segment(rules: Seq<RuleView>, line: Seq<char>, cells: Seq<Cell>, s: int, e: int) -> Seq<
    char,
> {
    match cells[s] {
        None => reset_seq() + line.subrange(s, e),
        Some((r, c)) => rules[r as int].colors[c as int].escape_seq + line.subrange(s, e)
            + rules[r as int].colors[c as int].clear_seq,
    }
}

/// The runs from index `s` on, each as its segment.
pub open spec fn render_from(rules: Seq<RuleView>, line: Seq<char>, cells: Seq<Cell>, s: int) -> Seq<
    char,
>
    decreases cells.len() - s,
{
    if s < 0 || s >= cells.len() {
        seq![]
    } else {
        let e = run_end(cells, s, s + 1);
        if s < e <= cells.len() {
            segment(rules, line, cells, s, e) + render_from(rules, line, cells, e)
        } else {
            seq![]
        }
    }
}

/// The rendered line: the runs of equal colour in order, then the final reset.
pub open spec fn render(rules: Seq<RuleView>, line: Seq<char>, cells: Seq<Cell>) -> Seq<char> {
    render_from(rules, line, cells, 0) + end_seq()
}

/// The colourised line, or `None` where a `skip` rule suppresses it, given
/// what each rule's pattern gives in the line.
pub open spec fn colorize(rules: Seq<RuleView>, caps: Seq<Captures>, line: Seq<char>) -> Option<Seq<char>> {
    match line_colors(rules, caps, line) {
        Some(cells) => Some(render(rules, line, cells)),
        None => None,
    }
}

/// Every coloured cell names a rule and one of its colours.
pub open spec fn cells_valid(cells: Seq<Cell>, rules: Seq<RuleView>) -> bool {
    forall|p: int|
        0 <= p < cells.len() ==> (#[trigger] cells[p] matches Some((r, c)) ==> r < rules.len() && c
            < rules[r as int].colors.len())
}

/// Encoding one more character appends its encoding.
proof fn lemma_encode_push(s: Seq<char>, c: char)
    ensures
        encode_utf8(s.push(c)) == encode_utf8(s) + encode_scalar(c as u32),
    decreases s.len(),
{
    if s.len() == 0 {
        assert(s.push(c).drop_first() == Seq::<char>::empty());
        assert(encode_utf8(s.push(c)) == encode_scalar(c as u32) + encode_utf8(Seq::<char>::empty()));
        assert(encode_utf8(s.push(c)) =~= encode_utf8(s) + encode_scalar(c as u32));
    } else {
        assert(s.push(c).drop_first() == s.drop_first().push(c));
        lemma_encode_push(s.drop_first(), c);
        assert(encode_utf8(s.push(c)) =~= encode_utf8(s) + encode_scalar(c as u32));
    }
}

proof fn lemma_utf8_len_prefix(line: Seq<char>, k: int)
    requires
        0 <= k < line.len(),
    ensures
        utf8_len(line.take(k + 1)) == utf8_len(line.take(k)) + utf8_width(line[k]),
{
    assert(line.take(k + 1) == line.take(k).push(line[k]));
    lemma_encode_push(line.take(k), line[k]);
}

/// Byte offsets grow strictly with the character index.
proof fn lemma_offsets_increase(line: Seq<char>, j: int, k: int)
    requires
        0 <= j < k <= line.len(),
    ensures
        byte_offset(line, j) < byte_offset(line, k),
    decreases k - j,
{
    lemma_utf8_len_prefix(line, k - 1);
    if j < k - 1 {
        lemma_offsets_increase(line, j, k - 1);
    }
}

/// The character index at a byte offset where one starts.
proof fn lemma_char_at_offset(line: Seq<char>, k: int)
    requires
        0 <= k <= line.len(),
    ensures
        char_at_byte(line, byte_offset(line, k) as int) == Some(k),
{
    let b = byte_offset(line, k) as int;
    assert(0 <= k <= line.len() && byte_offset(line, k) == b);
    let j = choose|j: int| 0 <= j <= line.len() && byte_offset(line, j) == b;
    if j < k {
        lemma_offsets_increase(line, j, k);
    } else if k < j {
        lemma_offsets_increase(line, k, j);
    }
}

proof fn lemma_char_at_bounds(line: Seq<char>, b: int)
    ensures
        char_at_byte(line, b) matches Some(k) ==> 0 <= k <= line.len() && byte_offset(line, k) == b,
{
}

pub open spec fn widen(o: Option<usize>) -> Option<int> {
    match o {
        Some(j) => Some(j as int),
        None => None,
    }
}

fn utf8_width_of(c: char) -> (r: usize)
    ensures
        r == utf8_width(c),
{
    let u = c as u32;
    proof {
        char_is_scalar(c);
    }
    if u < 0x80 {
        1
    } else if u < 0x800 {
        2
    } else if u < 0x10000 {
        3
    } else {
        4
    }
}

/// For each byte of the line's UTF-8 encoding, the index of the character
/// that starts there, or `None` inside a character.
fn char_starts(line: &Vec<char>) -> (r: Vec<Option<usize>>)
    ensures
        r@.len() == utf8_len(line@),
        forall|b: int| 0 <= b < r@.len() ==> widen(r@[b]) == char_at_byte(line@, b),
{
    let mut r: Vec<Option<usize>> = Vec::new();
    let mut k: usize = 0;
    while k < line.len()
        invariant
            k <= line@.len(),
            r@.len() == byte_offset(line@, k as int),
            forall|j: int| 0 <= j < k ==> r@[byte_offset(line@, j) as int] == Some(j as usize),
            forall|b: int|
                0 <= b < r@.len() ==> (#[trigger] r@[b] matches Some(j) ==> j < k && byte_offset(line@, j as int)
                    == b),
        decreases line@.len() - k,
    {
        proof {
            lemma_utf8_len_prefix(line@, k as int);
        }
        let ghost start = r@.len();
        let ghost prev = r@;
        r.push(Some(k));
        let w = utf8_width_of(line[k]);
        let mut t: usize = 1;
        while t < w
            invariant
                1 <= t <= w,
                k < line@.len(),
                start == prev.len(),
                w == utf8_width(line@[k as int]),
                r@.len() == start + t,
                r@[start as int] == Some(k),
                forall|b: int| 0 <= b < start ==> r@[b] == prev[b],
                forall|b: int| start < b < r@.len() ==> r@[b] is None,
            decreases w - t,
        {
            r.push(None);
            t += 1;
        }
        proof {
            assert forall|b: int| 0 <= b < r@.len() && #[trigger] r@[b] is Some implies r@[b]->Some_0 < k
                + 1 && byte_offset(line@, r@[b]->Some_0 as int) == b by {
                if b < start {
                    assert(r@[b] == prev[b]);
                }
            }
            assert forall|j: int| 0 <= j < k + 1 implies r@[byte_offset(line@, j) as int] == Some(
                j as usize,
            ) by {
                if j < k {
                    lemma_offsets_increase(line@, j, k as int);
                }
            }
        }
        k += 1;
    }
    proof {
        assert(line@.take(line@.len() as int) == line@);
        assert forall|b: int| 0 <= b < r@.len() implies widen(r@[b]) == char_at_byte(line@, b) by {
            match r@[b] {
                Some(j) => {
                    lemma_char_at_offset(line@, j as int);
                },
                None => {
                    assert forall|k: int| 0 <= k <= line@.len() implies byte_offset(line@, k)
                        != b by {
                        if k < line@.len() {
                            assert(r@[byte_offset(line@, k) as int] == Some(k as usize));
                        }
                    }
                },
            }
        }
    }
    r
}

/// The character index at byte `b`, given the table of character starts.
fn char_index(starts: &Vec<Option<usize>>, n: usize, b: usize, line: Ghost<Seq<char>>) -> (r: Option<usize>)
    requires
        n == line@.len(),
        starts@.len() == utf8_len(line@),
        forall|x: int| 0 <= x < starts@.len() ==> widen(starts@[x]) == char_at_byte(line@, x),
    ensures
        widen(r) == char_at_byte(line@, b as int),
        r matches Some(k) ==> k <= n,
{
    if b < starts.len() {
        proof {
            lemma_char_at_bounds(line@, b as int);
        }
        starts[b]
    } else if b == starts.len() {
        proof {
            assert(line@.take(n as int) =~= line@);
            lemma_char_at_offset(line@, n as int);
        }
        Some(n)
    } else {
        proof {
            assert forall|k: int| 0 <= k <= line@.len() implies byte_offset(line@, k) != b by {
                if k < n {
                    lemma_offsets_increase(line@, k, n as int);
                }
                assert(line@.take(n as int) =~= line@);
            }
        }
        None
    }
}

proof fn lemma_spans_view(m: Vec<Option<(usize, usize)>>)
    ensures
        m.deep_view() == m@,
{
    assert(m.deep_view() =~= m@);
}

/// Paints one match of rule `ri` into the cells.
fn paint_one_match(
    cells: &mut Vec<Cell>,
    starts: &Vec<Option<usize>>,
    n: usize,
    line: Ghost<Seq<char>>,
    ri: usize,
    rule: &CgrcConfItem,
    m: &Vec<Option<(usize, usize)>>,
)
    requires
        n == line@.len(),
        old(cells)@.len() == n,
        starts@.len() == utf8_len(line@),
        forall|x: int| 0 <= x < starts@.len() ==> widen(starts@[x]) == char_at_byte(line@, x),
    ensures
        final(cells)@.len() == n,
        final(cells)@ == paint_match(old(cells)@, line@, ri, rule@, m@),
        forall|p: int|
            0 <= p < n ==> (#[trigger] final(cells)@[p] == old(cells)@[p] || names_colour_of(
                final(cells)@[p],
                ri,
                rule.colors@.len(),
            )),
{
    let limit = if m.len() < rule.colors.len() {
        m.len()
    } else {
        rule.colors.len()
    };
    let mut g: usize = 0;
    while g < limit
        invariant
            g <= limit,
            limit == coloured_groups(rule@, m@),
            limit <= m@.len(),
            limit <= rule.colors@.len(),
            n == line@.len(),
            cells@.len() == n,
            starts@.len() == utf8_len(line@),
            forall|x: int| 0 <= x < starts@.len() ==> widen(starts@[x]) == char_at_byte(line@, x),
            cells@ == paint_groups(old(cells)@, line@, ri, rule@, m@, g as int),
            forall|p: int|
                0 <= p < n ==> (#[trigger] cells@[p] == old(cells)@[p] || names_colour_of(
                    cells@[p],
                    ri,
                    rule.colors@.len(),
                )),
        decreases limit - g,
    {
        let ghost before = cells@;
        if !has_attr(&rule.colors[g].attrs, CgrcAttrib::CgrcNone) {
            if let Some((bs, be)) = m[g] {
                let from = char_index(starts, n, bs, line);
                let to = char_index(starts, n, be, line);
                if let (Some(cs), Some(ce)) = (from, to) {
                    let mut p: usize = cs;
                    while p < ce
                        invariant
                            cs <= p,
                            p <= ce || p == cs,
                            ce <= n,
                            cells@.len() == n,
                            g < rule.colors@.len(),
                            cells@ == Seq::new(
                                n as nat,
                                |q: int|
                                    if cs <= q < p {
                                        Some((ri, g))
                                    } else {
                                        before[q]
                                    },
                            ),
                            forall|q: int|
                                0 <= q < n ==> (#[trigger] before[q] == old(cells)@[q] || names_colour_of(
                                    before[q],
                                    ri,
                                    rule.colors@.len(),
                                )),
                        decreases ce - p,
                    {
                        cells.set(p, Some((ri, g)));
                        p += 1;
                        assert(cells@ =~= Seq::new(
                            n as nat,
                            |q: int|
                                if cs <= q < p {
                                    Some((ri, g))
                                } else {
                                    before[q]
                                },
                        ));
                    }
                    assert(cells@ =~= paint(before, cs as int, ce as int, Some((ri, g))));
                }
            }
        }
        g += 1;
    }
}

/// Whether the cell names a colour of rule `ri`, which has `n` colours.
pub open spec fn names_colour_of(cell: Cell, ri: usize, n: nat) -> bool {
    cell matches Some((r, c)) && r == ri && c < n
}

/// Whether two cells are equal.
fn same_cell(a: &Cell, b: &Cell) -> (r: bool)
    ensures
        r == (*a == *b),
{
    match (a, b) {
        (None, None) => true,
        (Some((r1, c1)), Some((r2, c2))) => *r1 == *r2 && *c1 == *c2,
        _ => false,
    }
}

/// The matches found among the first `k` searches come first among all
/// matches found.
proof fn lemma_found_prefix(caps: Seq<Option<Seq<Option<(usize, usize)>>>>, k: int)
    requires
        0 <= k <= caps.len(),
    ensures
        found_matches(caps.take(k)).len() <= found_matches(caps).len(),
        found_matches(caps).take(found_matches(caps.take(k)).len() as int) == found_matches(
            caps.take(k),
        ),
    decreases caps.len(),
{
    if k == caps.len() {
        assert(caps.take(k) == caps);
        assert(found_matches(caps).take(found_matches(caps).len() as int) == found_matches(caps));
    } else {
        let shorter = caps.drop_last();
        assert(shorter.take(k) == caps.take(k));
        lemma_found_prefix(shorter, k);
        let a = found_matches(caps.take(k));
        let b = found_matches(shorter);
        let c = found_matches(caps);
        assert(c.take(a.len() as int) =~= b.take(a.len() as int));
    }
}

proof fn lemma_found_step(caps: Seq<Option<Seq<Option<(usize, usize)>>>>, j: int)
    requires
        0 <= j < caps.len(),
    ensures
        found_matches(caps.take(j + 1)) == match caps[j] {
            Some(m) => found_matches(caps.take(j)).push(m),
            None => found_matches(caps.take(j)),
        },
{
    assert(caps.take(j + 1).drop_last() == caps.take(j));
}

proof fn lemma_paint_matches_push(
    cells: Seq<Cell>,
    line: Seq<char>,
    ri: usize,
    rule: RuleView,
    ms: Seq<Seq<Option<(usize, usize)>>>,
    m: Seq<Option<(usize, usize)>>,
)
    ensures
        paint_matches(cells, line, ri, rule, ms.push(m)) == paint_match(
            paint_matches(cells, line, ri, rule, ms),
            line,
            ri,
            rule,
            m,
        ),
{
    assert(ms.push(m).drop_last() == ms);
}

/// A run that starts inside the cells ends after its start and at most at
/// their end.
proof fn lemma_run_end_bounds(cells: Seq<Cell>, s: int, e: int)
    requires
        0 <= s < e <= cells.len(),
    ensures
        e <= run_end(cells, s, e) <= cells.len(),
        forall|q: int| s <= q < run_end(cells, s, e) && e <= q ==> cells[q] == cells[s],
        run_end(cells, s, e) < cells.len() ==> cells[run_end(cells, s, e)] != cells[s],
    decreases cells.len() - e,
{
    if e < cells.len() && cells[e] == cells[s] {
        lemma_run_end_bounds(cells, s, e + 1);
    }
}

/// Appends the characters `line[from..to]`.
fn push_range(out: &mut Vec<char>, line: &Vec<char>, from: usize, to: usize)
    requires
        from <= to <= line@.len(),
    ensures
        final(out)@ == old(out)@ + line@.subrange(from as int, to as int),
{
    let mut i: usize = from;
    while i < to
        invariant
            from <= i <= to <= line@.len(),
            out@ == old(out)@ + line@.subrange(from as int, i as int),
        decreases to - i,
    {
        out.push(line[i]);
        i += 1;
        assert(line@.subrange(from as int, i as int) == line@.subrange(from as int, i - 1).push(
            line@[i - 1],
        ));
    }
}

fn push_reset(out: &mut Vec<char>)
    ensures
        final(out)@ == old(out)@ + reset_seq(),
{
    out.push('\x1b');
    out.push('[');
    out.push('0');
    out.push('m');
}

fn push_end(out: &mut Vec<char>)
    ensures
        final(out)@ == old(out)@ + end_seq(),
{
    out.push('\x1b');
    out.push('[');
    out.push('0');
    out.push(';');
    out.push('0');
    out.push('m');
}

/// Writes the runs of equal cells, each between its escape sequences, then
/// the final reset.
fn render_cells(conf_items: &Vec<CgrcConfItem>, line: &Vec<char>, cells: &Vec<Cell>) -> (r: Vec<char>)
    requires
        cells@.len() == line@.len(),
        cells_valid(cells@, rules_view(conf_items@)),
    ensures
        r@ == render(rules_view(conf_items@), line@, cells@),
{
    let ghost rules = rules_view(conf_items@);
    let n = cells.len();
    let mut out: Vec<char> = Vec::new();
    let mut s: usize = 0;
    while s < n
        invariant
            s <= n == cells@.len() == line@.len(),
            rules == rules_view(conf_items@),
            cells_valid(cells@, rules),
            out@ + render_from(rules, line@, cells@, s as int) == render_from(rules, line@, cells@, 0),
        decreases n - s,
    {
        let mut e: usize = s + 1;
        while e < n && same_cell(&cells[e], &cells[s])
            invariant
                s < e <= n == cells@.len(),
                run_end(cells@, s as int, e as int) == run_end(cells@, s as int, s + 1),
            decreases n - e,
        {
            e += 1;
        }
        proof {
            lemma_run_end_bounds(cells@, s as int, s + 1);
            assert(run_end(cells@, s as int, e as int) == e);
        }
        let ghost before = out@;
        match cells[s] {
            None => {
                push_reset(&mut out);
                push_range(&mut out, line, s, e);
            },
            Some((r, c)) => {
                let colour = &conf_items[r].colors[c];
                push_all(&mut out, chars_of(colour.escape_seq.as_str()).as_slice());
                push_range(&mut out, line, s, e);
                push_all(&mut out, chars_of(colour.clear_seq.as_str()).as_slice());
            },
        }
        assert(out@ == before + segment(rules, line@, cells@, s as int, e as int));
        s = e;
    }
    push_end(&mut out);
    out
}

/// Colourises one line by the rules, in order, given what each rule's pattern
/// gives in the line (`found[i]` for rule `i`); `None` where a `skip` rule
/// suppresses the line.
pub fn colorize_with_captures(
    conf_items: &Vec<CgrcConfItem>,
    in_line: &String,
    found: &Vec<Vec<Option<Vec<Option<(usize, usize)>>>>>,
) -> (r: Option<String>)
    requires
        found@.len() == conf_items@.len(),
    ensures
        match colorize(rules_view(conf_items@), found.deep_view(), in_line@) {
            Some(out) => r matches Some(s) && s@ == out,
            None => r is None,
        },
{
    let ghost rules = rules_view(conf_items@);
    let ghost all = found.deep_view();
    assert(all.len() == rules.len());
    let line = chars_of(in_line.as_str());
    let n = line.len();
    let starts = char_starts(&line);
    let mut cells: Vec<Cell> = Vec::new();
    let mut p: usize = 0;
    while p < n
        invariant
            p <= n,
            cells@ == no_color(p as nat),
        decreases n - p,
    {
        cells.push(None);
        p += 1;
        assert(cells@ =~= no_color(p as nat));
    }
    let mut i: usize = 0;
    let mut stopped = false;
    while i < conf_items.len() && !stopped
        invariant
            i <= conf_items@.len(),
            found@.len() == conf_items@.len(),
            rules == rules_view(conf_items@),
            all == found.deep_view(),
            all.len() == rules.len(),
            rules.len() == conf_items@.len(),
            n == line@.len(),
            line@ == in_line@,
            cells@.len() == n,
            starts@.len() == utf8_len(line@),
            forall|x: int| 0 <= x < starts@.len() ==> widen(starts@[x]) == char_at_byte(line@, x),
            cells_valid(cells@, rules),
            line_colors(rules, all, line@) == if stopped {
                Some(cells@)
            } else {
                color_from(rules, all, line@, i as int, cells@)
            },
        decreases conf_items@.len() - i,
    {
        let rule = &conf_items[i];
        let caps = &found[i];
        let ghost dv = caps.deep_view();
        let once = match rule.count_mode {
            Some(CgrcCountMode::CgrcCountOnce) => true,
            _ => false,
        };
        let skip = match rule.skip {
            Some(true) => true,
            _ => false,
        };
        let ghost before = cells@;
        let mut matched = false;
        let mut j: usize = 0;
        while j < caps.len() && !(once && matched)
            invariant
                j <= caps@.len(),
                dv == caps.deep_view(),
                dv == all[i as int],
                all.len() == rules.len(),
                all == found.deep_view(),
                rule@ == rules[i as int],
                i < rules.len(),
                once == is_once(rule@),
                skip == is_skip(rule@),
                n == line@.len(),
                cells@.len() == n,
                starts@.len() == utf8_len(line@),
                forall|x: int| 0 <= x < starts@.len() ==> widen(starts@[x]) == char_at_byte(line@, x),
                !skip || !matched,
                !stopped,
                line@ == in_line@,
                rules == rules_view(conf_items@),
                line_colors(rules, all, line@) == color_from(rules, all, line@, i as int, before),
                matched == (found_matches(dv.take(j as int)).len() > 0),
                once && matched ==> found_matches(dv.take(j as int)).len() == 1,
                cells@ == paint_matches(before, line@, i, rule@, found_matches(dv.take(j as int))),
                cells_valid(cells@, rules),
            decreases caps@.len() - j,
        {
            proof {
                lemma_found_step(dv, j as int);
            }
            match &caps[j] {
                Some(m) => {
                    proof {
                        lemma_spans_view(*m);
                    }
                    if skip {
                        proof {
                            assert(dv[j as int] is Some);
                            lemma_found_prefix(dv, j + 1);
                            assert(found_matches(all[i as int]).len() > 0);
                            assert(is_skip(rules[i as int]));
                            assert(color_from(rules, all, line@, i as int, before) is None);
                        }
                        return None;
                    }
                    let ghost painted = cells@;
                    paint_one_match(&mut cells, &starts, n, Ghost(line@), i, rule, m);
                    proof {
                        lemma_paint_matches_push(
                            before,
                            line@,
                            i,
                            rule@,
                            found_matches(dv.take(j as int)),
                            m@,
                        );
                        assert forall|q: int| 0 <= q < cells@.len() implies (
                        #[trigger] cells@[q] matches Some((r, c)) ==> r < rules.len() && c
                            < rules[r as int].colors.len()) by {
                            if cells@[q] != painted[q] {
                                assert(names_colour_of(cells@[q], i, rule.colors@.len()));
                            }
                        }
                    }
                    matched = true;
                },
                None => {},
            }
            j += 1;
        }
        proof {
            if once && matched {
                lemma_found_prefix(dv, j as int);
            } else {
                assert(dv.take(j as int) == dv);
            }
        }
        if matched && match rule.count_mode {
            Some(CgrcCountMode::CgrcCountStop) => true,
            _ => false,
        } {
            stopped = true;
        }
        i += 1;
    }
    let out = render_cells(conf_items, &line, &cells);
    Some(string_of(out.as_slice()))
}

impl CGRCParser {
    /// Colourises one line by the rules, in order, each rule's pattern
    /// searched through the line; `None` where a `skip` rule suppresses the
    /// line. Asking for diagnostics changes nothing in the result.
    pub fn parse_log_line(conf_items: &Vec<CgrcConfItem>, in_line: &String, _debug: bool) -> (r:
        Option<String>)
        requires
            forall|i: int| 0 <= i < conf_items@.len() ==> (#[trigger] conf_items@[i]).regex is Some,
        ensures
            match colorize(
                rules_view(conf_items@),
                captures_of(rules_view(conf_items@), in_line@),
                in_line@,
            ) {
                Some(out) => r matches Some(s) && s@ == out,
                None => r is None,
            },
    {
        let ghost rules = rules_view(conf_items@);
        let mut found: Vec<Vec<Option<Vec<Option<(usize, usize)>>>>> = Vec::new();
        let mut i: usize = 0;
        while i < conf_items.len()
            invariant
                i <= conf_items@.len(),
                rules == rules_view(conf_items@),
                forall|k: int| 0 <= k < conf_items@.len() ==> (#[trigger] conf_items@[k]).regex is Some,
                found.deep_view() == captures_of(rules, in_line@).take(i as int),
            decreases conf_items@.len() - i,
        {
            let caps = match &conf_items[i].regex {
                Some(pattern) => pattern.captures(in_line.as_str()),
                None => Vec::new(),
            };
            let ghost before = found.deep_view();
            found.push(caps);
            assert(found.deep_view() =~= before.push(caps.deep_view()));
            assert(captures_of(rules, in_line@).take(i + 1) =~= captures_of(rules, in_line@).take(
                i as int,
            ).push(captures_of(rules, in_line@)[i as int]));
            i += 1;
        }
        assert(captures_of(rules, in_line@).take(i as int) =~= captures_of(rules, in_line@));
        colorize_with_captures(conf_items, in_line, &found)
    }
}

} // verus!
