//! What holds of every configuration and every line: proved properties of
//! parsing and colouring, stated over the specifications that the
//! executable functions meet.

use vstd::prelude::*;

use crate::colorize::{
    colorize, color_from, coloured_groups, counted_matches, end_seq, group_span, is_once, is_skip,
    is_stop, line_colors, no_color, paint_groups, paint_match, paint_matches, render_from,
    reset_seq, found_matches, run_end, segment, Captures, Cell,
};
use crate::parser::{conf_lines, parse_outcome, CgrcConf, ConfError, ConfView, RuleView};

verus! {

/// Whether group `g` of match `m` of the rule paints position `p`: the group
/// has a colour that does not carry `none`, and its span holds `p`.
pub open spec fn covers(line: Seq<char>, rule: RuleView, m: Seq<Option<(usize, usize)>>, g: int, p: int) -> bool {
    &&& 0 <= g < coloured_groups(rule, m)
    &&& !rule.colors[g].keeps_underlying()
    &&& group_span(line, m, g) is Some
    &&& group_span(line, m, g)->Some_0.0 <= p < group_span(line, m, g)->Some_0.1
}

/// Whether the cell holds a colour of rule `ri` whose group, in match `m`,
/// paints position `p`.
pub open spec fn painted_by(cell: Cell, line: Seq<char>, ri: usize, rule: RuleView, m: Seq<Option<(usize, usize)>>, p: int) -> bool {
    &&& cell is Some
    &&& cell->Some_0.0 == ri
    &&& covers(line, rule, m, cell->Some_0.1 as int, p)
}

/// The rule index of a coloured cell.
pub open spec fn rule_of(cell: Cell) -> int {
    cell->Some_0.0 as int
}

/// Lists of rules as a `Vec` holds them: their number, and the number of
/// colours of each, fit in a `usize`.
pub open spec fn rules_fit(rules: Seq<RuleView>) -> bool {
    rules.len() <= usize::MAX && forall|i: int| 0 <= i < rules.len() ==> (#[trigger] rules[i]).colors.len() <= usize::MAX
}

proof fn lemma_groups_origin(
    cells: Seq<Cell>,
    line: Seq<char>,
    ri: usize,
    rule: RuleView,
    m: Seq<Option<(usize, usize)>>,
    g: int,
)
    requires
        0 <= g <= coloured_groups(rule, m),
        rule.colors.len() <= usize::MAX,
    ensures
        paint_groups(cells, line, ri, rule, m, g).len() == cells.len(),
        forall|p: int|
            0 <= p < cells.len() ==> #[trigger] paint_groups(cells, line, ri, rule, m, g)[p] == cells[p]
                || painted_by(paint_groups(cells, line, ri, rule, m, g)[p], line, ri, rule, m, p),
    decreases g,
{
    if g > 0 {
        lemma_groups_origin(cells, line, ri, rule, m, g - 1);
    }
}

proof fn lemma_groups_hit(
    cells: Seq<Cell>,
    line: Seq<char>,
    ri: usize,
    rule: RuleView,
    m: Seq<Option<(usize, usize)>>,
    top: int,
    g: int,
    p: int,
)
    requires
        0 <= g < top <= coloured_groups(rule, m),
        0 <= p < cells.len(),
        covers(line, rule, m, g, p),
        rule.colors.len() <= usize::MAX,
    ensures
        paint_groups(cells, line, ri, rule, m, top)[p] is Some,
        rule_of(paint_groups(cells, line, ri, rule, m, top)[p]) == ri,
        paint_groups(cells, line, ri, rule, m, top)[p]->Some_0.1 >= g,
    decreases top,
{
    lemma_groups_origin(cells, line, ri, rule, m, top - 1);
    if g < top - 1 {
        lemma_groups_hit(cells, line, ri, rule, m, top - 1, g, p);
    }
}

proof fn lemma_matches_origin(
    cells: Seq<Cell>,
    line: Seq<char>,
    ri: usize,
    rule: RuleView,
    ms: Seq<Seq<Option<(usize, usize)>>>,
)
    requires
        rule.colors.len() <= usize::MAX,
    ensures
        paint_matches(cells, line, ri, rule, ms).len() == cells.len(),
        forall|p: int|
            0 <= p < cells.len() ==> #[trigger] paint_matches(cells, line, ri, rule, ms)[p] == cells[p]
                || (paint_matches(cells, line, ri, rule, ms)[p] is Some && rule_of(
                paint_matches(cells, line, ri, rule, ms)[p],
            ) == ri),
    decreases ms.len(),
{
    if ms.len() > 0 {
        let before = paint_matches(cells, line, ri, rule, ms.drop_last());
        lemma_matches_origin(cells, line, ri, rule, ms.drop_last());
        lemma_groups_origin(before, line, ri, rule, ms.last(), coloured_groups(rule, ms.last()));
    }
}

proof fn lemma_matches_hit(
    cells: Seq<Cell>,
    line: Seq<char>,
    ri: usize,
    rule: RuleView,
    ms: Seq<Seq<Option<(usize, usize)>>>,
    t: int,
    g: int,
    p: int,
)
    requires
        0 <= t < ms.len(),
        0 <= p < cells.len(),
        covers(line, rule, ms[t], g, p),
        rule.colors.len() <= usize::MAX,
    ensures
        paint_matches(cells, line, ri, rule, ms)[p] is Some,
        rule_of(paint_matches(cells, line, ri, rule, ms)[p]) == ri,
    decreases ms.len(),
{
    let before = paint_matches(cells, line, ri, rule, ms.drop_last());
    lemma_matches_origin(cells, line, ri, rule, ms.drop_last());
    let last = ms.last();
    if t == ms.len() - 1 {
        lemma_groups_hit(before, line, ri, rule, last, coloured_groups(rule, last), g, p);
    } else {
        lemma_matches_hit(cells, line, ri, rule, ms.drop_last(), t, g, p);
        lemma_groups_origin(before, line, ri, rule, last, coloured_groups(rule, last));
    }
}

proof fn lemma_no_match_keeps_cells(rules: Seq<RuleView>, caps: Seq<Captures>, line: Seq<char>, i: int, cells: Seq<Cell>)
    requires
        0 <= i <= rules.len(),
        forall|k: int| 0 <= k < rules.len() ==> found_matches(#[trigger] caps[k]).len() == 0,
    ensures
        color_from(rules, caps, line, i, cells) == Some(cells),
    decreases rules.len() - i,
{
    if i < rules.len() {
        lemma_no_match_keeps_cells(rules, caps, line, i + 1, cells);
    }
}

proof fn lemma_uncoloured_run(n: nat, e: int)
    requires
        1 <= e <= n,
    ensures
        run_end(no_color(n), 0, e) == n,
    decreases n - e,
{
    if e < n {
        lemma_uncoloured_run(n, e + 1);
    }
}

/// A line that no rule's pattern matches is never suppressed and comes out
/// unchanged: after a reset when it is not empty, then the final reset.
pub proof fn lemma_unmatched_line_passes_through(rules: Seq<RuleView>, caps: Seq<Captures>, line: Seq<char>)
    requires
        forall|k: int| 0 <= k < rules.len() ==> found_matches(#[trigger] caps[k]).len() == 0,
    ensures
        colorize(rules, caps, line) == Some(
            if line.len() == 0 {
                end_seq()
            } else {
                reset_seq() + line + end_seq()
            },
        ),
{
    let cells = no_color(line.len());
    lemma_no_match_keeps_cells(rules, caps, line, 0, cells);
    if line.len() > 0 {
        lemma_uncoloured_run(line.len(), 1);
        assert(render_from(rules, line, cells, line.len() as int) == Seq::<char>::empty());
        assert(line.subrange(0, line.len() as int) == line);
        assert(segment(rules, line, cells, 0, line.len() as int) == reset_seq() + line);
        assert(render_from(rules, line, cells, 0) == reset_seq() + line + Seq::<char>::empty());
        assert(reset_seq() + line + Seq::<char>::empty() == reset_seq() + line);
    } else {
        assert(Seq::<char>::empty() + end_seq() == end_seq());
    }
}

/// Whether rule `i` ends the evaluation of the line: it has `count=stop` and
/// its pattern matches.
pub open spec fn stops_at(rules: Seq<RuleView>, caps: Seq<Captures>, line: Seq<char>, i: int) -> bool {
    is_stop(rules[i]) && found_matches(caps[i]).len() > 0
}

proof fn lemma_skip_from(rules: Seq<RuleView>, caps: Seq<Captures>, line: Seq<char>, i: int, cells: Seq<Cell>, k: int)
    requires
        0 <= i <= k < rules.len(),
        is_skip(rules[k]),
        found_matches(caps[k]).len() > 0,
        forall|j: int| 0 <= j < k ==> !#[trigger] stops_at(rules, caps, line, j),
    ensures
        color_from(rules, caps, line, i, cells) is None,
    decreases k - i,
{
    if i < k {
        assert(!stops_at(rules, caps, line, i));
        if found_matches(caps[i]).len() == 0 {
            lemma_skip_from(rules, caps, line, i + 1, cells, k);
        } else if !is_skip(rules[i]) {
            let painted = paint_matches(cells, line, i as usize, rules[i], counted_matches(rules[i], caps[i]));
            lemma_skip_from(rules, caps, line, i + 1, painted, k);
        }
    }
}

/// A rule with `skip=yes` whose pattern matches the line suppresses the
/// line, whatever the other rules do, provided the evaluation reaches it: no
/// earlier `count=stop` rule matched.
pub proof fn lemma_skip_suppresses_line(rules: Seq<RuleView>, caps: Seq<Captures>, line: Seq<char>, k: int)
    requires
        0 <= k < rules.len(),
        is_skip(rules[k]),
        found_matches(caps[k]).len() > 0,
        forall|j: int| 0 <= j < k ==> !#[trigger] stops_at(rules, caps, line, j),
    ensures
        colorize(rules, caps, line) is None,
{
    lemma_skip_from(rules, caps, line, 0, no_color(line.len()), k);
}

proof fn lemma_index_kept(rules: Seq<RuleView>, caps: Seq<Captures>, line: Seq<char>, i: int, cells: Seq<Cell>, j: int, p: int)
    requires
        rules_fit(rules),
        0 <= j <= i,
        0 <= p < cells.len(),
        cells[p] is Some,
        rule_of(cells[p]) >= j,
    ensures
        color_from(rules, caps, line, i, cells) matches Some(out) ==> p < out.len() && out[p] is Some
            && rule_of(out[p]) >= j,
    decreases rules.len() - i,
{
    if i < rules.len() {
        let rule = rules[i];
        if found_matches(caps[i]).len() == 0 {
            lemma_index_kept(rules, caps, line, i + 1, cells, j, p);
        } else if !is_skip(rule) {
            let ms = counted_matches(rule, caps[i]);
            let painted = paint_matches(cells, line, i as usize, rule, ms);
            lemma_matches_origin(cells, line, i as usize, rule, ms);
            if !is_stop(rule) {
                lemma_index_kept(rules, caps, line, i + 1, painted, j, p);
            }
        }
    }
}

proof fn lemma_later_from(
    rules: Seq<RuleView>,
    caps: Seq<Captures>,
    line: Seq<char>,
    i: int,
    cells: Seq<Cell>,
    j: int,
    t: int,
    g: int,
    p: int,
)
    requires
        rules_fit(rules),
        0 <= i <= j < rules.len(),
        0 <= p < cells.len(),
        0 <= t < counted_matches(rules[j], caps[j]).len(),
        covers(line, rules[j], counted_matches(rules[j], caps[j])[t], g, p),
        forall|k: int| 0 <= k < j ==> !#[trigger] stops_at(rules, caps, line, k),
    ensures
        color_from(rules, caps, line, i, cells) matches Some(out) ==> p < out.len() && out[p] is Some
            && rule_of(out[p]) >= j,
    decreases j - i,
{
    let rule = rules[i];
    let ms = counted_matches(rule, caps[i]);
    let painted = paint_matches(cells, line, i as usize, rule, ms);
    lemma_matches_origin(cells, line, i as usize, rule, ms);
    if i < j {
        assert(!stops_at(rules, caps, line, i));
        if found_matches(caps[i]).len() == 0 {
            lemma_later_from(rules, caps, line, i + 1, cells, j, t, g, p);
        } else if !is_skip(rule) {
            lemma_later_from(rules, caps, line, i + 1, painted, j, t, g, p);
        }
    } else if !is_skip(rule) {
        lemma_matches_hit(cells, line, i as usize, rule, ms, t, g, p);
        if !is_stop(rule) {
            lemma_index_kept(rules, caps, line, i + 1, painted, j, p);
        }
    }
}

/// Later rules win: where a rule that the evaluation reaches (no earlier
/// `count=stop` rule matched) paints a character with one of its counted
/// matches, the colour left there comes from that rule or from a later one.
pub proof fn lemma_later_rule_wins(rules: Seq<RuleView>, caps: Seq<Captures>, line: Seq<char>, j: int, t: int, g: int, p: int)
    requires
        rules_fit(rules),
        0 <= j < rules.len(),
        0 <= p < line.len(),
        0 <= t < counted_matches(rules[j], caps[j]).len(),
        covers(line, rules[j], counted_matches(rules[j], caps[j])[t], g, p),
        forall|k: int| 0 <= k < j ==> !#[trigger] stops_at(rules, caps, line, k),
    ensures
        line_colors(rules, caps, line) matches Some(cells) ==> cells[p] is Some && rule_of(cells[p]) >= j,
{
    lemma_later_from(rules, caps, line, 0, no_color(line.len()), j, t, g, p);
}

/// Later groups win within a match: where group `g` paints a character,
/// the match leaves there the colour of group `g` or of a later group.
pub proof fn lemma_later_group_wins(
    cells: Seq<Cell>,
    line: Seq<char>,
    ri: usize,
    rule: RuleView,
    m: Seq<Option<(usize, usize)>>,
    g: int,
    p: int,
)
    requires
        rule.colors.len() <= usize::MAX,
        0 <= p < cells.len(),
        covers(line, rule, m, g, p),
    ensures
        paint_match(cells, line, ri, rule, m)[p] is Some,
        rule_of(paint_match(cells, line, ri, rule, m)[p]) == ri,
        paint_match(cells, line, ri, rule, m)[p]->Some_0.1 >= g,
{
    lemma_groups_hit(cells, line, ri, rule, m, coloured_groups(rule, m), g, p);
}

proof fn lemma_stop_from(rules: Seq<RuleView>, caps: Seq<Captures>, line: Seq<char>, i: int, cells: Seq<Cell>, k: int)
    requires
        rules_fit(rules),
        0 <= i <= k < rules.len(),
        stops_at(rules, caps, line, k),
        forall|p: int| 0 <= p < cells.len() && (#[trigger] cells[p]) is Some ==> rule_of(cells[p]) < i,
    ensures
        color_from(rules, caps, line, i, cells) matches Some(out) ==> forall|p: int|
            0 <= p < out.len() && (#[trigger] out[p]) is Some ==> rule_of(out[p]) <= k,
    decreases k - i,
{
    let rule = rules[i];
    let ms = counted_matches(rule, caps[i]);
    let painted = paint_matches(cells, line, i as usize, rule, ms);
    lemma_matches_origin(cells, line, i as usize, rule, ms);
    if found_matches(caps[i]).len() == 0 {
        lemma_stop_from(rules, caps, line, i + 1, cells, k);
    } else if !is_skip(rule) {
        assert forall|p: int| 0 <= p < painted.len() && (#[trigger] painted[p]) is Some implies rule_of(
            painted[p],
        ) <= i by {
            assert(painted[p] == cells[p] || rule_of(painted[p]) == i);
        }
        if !is_stop(rule) {
            lemma_stop_from(rules, caps, line, i + 1, painted, k);
        }
    }
}

/// A matching `count=stop` rule ends the colouring: no rule after it colours
/// any character of the line, even where the stop rule itself changed
/// nothing.
pub proof fn lemma_stop_ends_colouring(rules: Seq<RuleView>, caps: Seq<Captures>, line: Seq<char>, k: int)
    requires
        rules_fit(rules),
        0 <= k < rules.len(),
        is_stop(rules[k]),
        found_matches(caps[k]).len() > 0,
    ensures
        line_colors(rules, caps, line) matches Some(cells) ==> forall|p: int|
            0 <= p < cells.len() && (#[trigger] cells[p]) is Some ==> rule_of(cells[p]) <= k,
{
    lemma_stop_from(rules, caps, line, 0, no_color(line.len()), k);
}

/// Whether the cell, a colour of rule `k`, lies in the span of that colour's
/// group in the first match of the rule.
pub open spec fn from_first_match(rules: Seq<RuleView>, caps: Seq<Captures>, line: Seq<char>, k: int, cell: Cell, p: int) -> bool {
    let ms = found_matches(caps[k]);
    ms.len() > 0 && covers(line, rules[k], ms[0], cell->Some_0.1 as int, p)
}

proof fn lemma_once_from(rules: Seq<RuleView>, caps: Seq<Captures>, line: Seq<char>, i: int, cells: Seq<Cell>, k: int)
    requires
        rules_fit(rules),
        0 <= i,
        0 <= k < rules.len(),
        is_once(rules[k]),
        forall|p: int|
            0 <= p < cells.len() && (#[trigger] cells[p]) is Some && rule_of(cells[p]) == k
                ==> from_first_match(rules, caps, line, k, cells[p], p),
    ensures
        color_from(rules, caps, line, i, cells) matches Some(out) ==> forall|p: int|
            0 <= p < out.len() && (#[trigger] out[p]) is Some && rule_of(out[p]) == k
                ==> from_first_match(rules, caps, line, k, out[p], p),
    decreases rules.len() - i,
{
    if i < rules.len() {
        let rule = rules[i];
        let ms = counted_matches(rule, caps[i]);
        let painted = paint_matches(cells, line, i as usize, rule, ms);
        lemma_matches_origin(cells, line, i as usize, rule, ms);
        if found_matches(caps[i]).len() == 0 {
            lemma_once_from(rules, caps, line, i + 1, cells, k);
        } else if !is_skip(rule) {
            if i == k {
                let first = found_matches(caps[i])[0];
                assert(ms.len() == 1);
                assert(ms.last() == first);
                assert(ms.drop_last() == Seq::<Seq<Option<(usize, usize)>>>::empty());
                assert(paint_matches(cells, line, i as usize, rule, ms.drop_last()) == cells);
                assert(painted == paint_match(cells, line, i as usize, rule, first));
                lemma_groups_origin(cells, line, i as usize, rule, first, coloured_groups(rule, first));
            }
            assert forall|p: int|
                0 <= p < painted.len() && (#[trigger] painted[p]) is Some && rule_of(painted[p]) == k
                    implies from_first_match(rules, caps, line, k, painted[p], p) by {
                if painted[p] != cells[p] {
                    assert(i == k);
                }
            }
            if !is_stop(rule) {
                lemma_once_from(rules, caps, line, i + 1, painted, k);
            }
        }
    }
}

/// Under `count=once` only the first match of a rule colours the line: each
/// character left in one of the rule's colours lies in the span of that
/// colour's group in the rule's first (leftmost) match.
pub proof fn lemma_once_colours_first_match_only(rules: Seq<RuleView>, caps: Seq<Captures>, line: Seq<char>, k: int)
    requires
        rules_fit(rules),
        0 <= k < rules.len(),
        is_once(rules[k]),
    ensures
        line_colors(rules, caps, line) matches Some(cells) ==> forall|p: int|
            0 <= p < cells.len() && (#[trigger] cells[p]) is Some && rule_of(cells[p]) == k
                ==> from_first_match(rules, caps, line, k, cells[p], p),
{
    lemma_once_from(rules, caps, line, 0, no_color(line.len()), k);
}

/// The patterns of a configuration's rules, in order.
pub open spec fn patterns_of(conf: ConfView) -> Seq<Option<Seq<char>>> {
    conf.items.map_values(|r: RuleView| r.pattern)
}

/// Parsing is deterministic: two parses of one text both succeed or both
/// fail, and when they succeed they give the same number of rules with the
/// same patterns.
pub proof fn lemma_parse_is_deterministic(
    text: Seq<char>,
    a: Result<CgrcConf, ConfError>,
    b: Result<CgrcConf, ConfError>,
)
    requires
        parse_outcome(conf_lines(text), a),
        parse_outcome(conf_lines(text), b),
    ensures
        a is Ok <==> b is Ok,
        a matches Ok(x) ==> b matches Ok(y) && x@.items.len() == y@.items.len() && patterns_of(x@)
            == patterns_of(y@),
{
}

} // verus!
