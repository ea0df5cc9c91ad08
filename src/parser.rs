//! The configuration grammar: `key=value` lines that build an ordered list of
//! rules, each block of lines ended by any other line.

use vstd::prelude::*;
use vstd::string::StrSliceExecFns;

use crate::codec::{
    attr_by_name, attr_named, back_by_name, back_named, color_view_of, forg_by_name, forg_named,
    has_attr, CgrcAttrib, CgrcColorItem, ColorView, LcBackColor, LcLogColor,
};
use crate::pattern::{regex_accepts, Pattern};
use crate::text::{
    chars_of, has_prefix, is_name, matches_name, pieces_view, split_by, split_prefix, split_where, starts_with_name,
    string_of, tail_from, Separator,
};

verus! {

/// How a rule treats repeated matches on one line.
#[derive(Debug, Clone, Copy, PartialEq, Eq, Hash, Structural)]
pub enum CgrcCountMode {
    /// Only the first match colours the line.
    CgrcCountOnce,
    /// Every match colours the line.
    CgrcCountMore,
    /// Once the rule matched, no later rule is tried.
    CgrcCountStop,
    /// Accepted, and treated as `CgrcCountMore`.
    CgrcCountPrevious,
    /// Accepted, and treated as `CgrcCountMore`.
    CgrcCountBlock,
    /// Accepted, and treated as `CgrcCountMore`.
    CgrcCountUnblock,
}

/// The count mode that a `count=` value names, ignoring ASCII case.
pub open spec fn count_named(v: Seq<char>) -> Option<CgrcCountMode> {
    if matches_name(v, "once"@) {
        Some(CgrcCountMode::CgrcCountOnce)
    } else if matches_name(v, "more"@) {
        Some(CgrcCountMode::CgrcCountMore)
    } else if matches_name(v, "stop"@) {
        Some(CgrcCountMode::CgrcCountStop)
    } else if matches_name(v, "previous"@) {
        Some(CgrcCountMode::CgrcCountPrevious)
    } else if matches_name(v, "block"@) {
        Some(CgrcCountMode::CgrcCountBlock)
    } else if matches_name(v, "unblock"@) {
        Some(CgrcCountMode::CgrcCountUnblock)
    } else {
        None
    }
}

fn count_by_name(v: &[char]) -> (r: Option<CgrcCountMode>)
    ensures
        r == count_named(v@),
{
    if is_name(v, "once") {
        Some(CgrcCountMode::CgrcCountOnce)
    } else if is_name(v, "more") {
        Some(CgrcCountMode::CgrcCountMore)
    } else if is_name(v, "stop") {
        Some(CgrcCountMode::CgrcCountStop)
    } else if is_name(v, "previous") {
        Some(CgrcCountMode::CgrcCountPrevious)
    } else if is_name(v, "block") {
        Some(CgrcCountMode::CgrcCountBlock)
    } else if is_name(v, "unblock") {
        Some(CgrcCountMode::CgrcCountUnblock)
    } else {
        None
    }
}

/// One rule: a regular expression, the colour of each capture group (group 0
/// first), and its modifiers.
pub struct CgrcConfItem {
    pub regex: Option<Pattern>,
    pub colors: Vec<CgrcColorItem>,
    pub skip: Option<bool>,
    pub count_mode: Option<CgrcCountMode>,
}

/// What a rule holds, as mathematical values.
pub struct RuleView {
    pub pattern: Option<Seq<char>>,
    pub colors: Seq<ColorView>,
    pub skip: Option<bool>,
    pub count_mode: Option<CgrcCountMode>,
}

pub open spec fn colors_view(colors: Seq<CgrcColorItem>) -> Seq<ColorView> {
    colors.map_values(|c: CgrcColorItem| c@)
}

impl View for CgrcConfItem {
    type V = RuleView;

    open spec fn view(&self) -> RuleView {
        RuleView {
            pattern: match self.regex {
                Some(p) => Some(p@),
                None => None,
            },
            colors: colors_view(self.colors@),
            skip: self.skip,
            count_mode: self.count_mode,
        }
    }
}

/// The rule that a block starts from.
pub open spec fn empty_rule() -> RuleView {
    RuleView { pattern: None, colors: seq![], skip: None, count_mode: None }
}

impl CgrcConfItem {
    pub fn new() -> (r: CgrcConfItem)
        ensures
            r@ == empty_rule(),
    {
        let r = CgrcConfItem { regex: None, colors: Vec::new(), skip: None, count_mode: None };
        assert(colors_view(r.colors@) =~= seq![]);
        r
    }
}

/// A parsed configuration: its rules in file order and its description.
pub struct CgrcConf {
    pub items: Vec<CgrcConfItem>,
    pub description: Option<String>,
}

/// What a configuration holds, as mathematical values.
pub struct ConfView {
    pub items: Seq<RuleView>,
    pub description: Option<Seq<char>>,
}

pub open spec fn rules_view(items: Seq<CgrcConfItem>) -> Seq<RuleView> {
    items.map_values(|it: CgrcConfItem| it@)
}

impl View for CgrcConf {
    type V = ConfView;

    open spec fn view(&self) -> ConfView {
        ConfView {
            items: rules_view(self.items@),
            description: match self.description {
                Some(d) => Some(d@),
                None => None,
            },
        }
    }
}

/// The state of one colour specification while its tokens are read:
/// attributes in the order first named, foreground, background.
pub struct ColorParts {
    pub attrs: Seq<CgrcAttrib>,
    pub forg: LcLogColor,
    pub back: LcBackColor,
}

/// One token read into the colour: tried as an attribute, then as a
/// background, then as a foreground; a token that names none of them is
/// ignored.
pub open spec fn token_step(parts: ColorParts, token: Seq<char>) -> ColorParts {
    match attr_named(token) {
        Some(a) => ColorParts {
            attrs: if parts.attrs.contains(a) {
                parts.attrs
            } else {
                parts.attrs.push(a)
            },
            ..parts
        },
        None => match back_named(token) {
            Some(b) => ColorParts { back: b, ..parts },
            None => match forg_named(token) {
                Some(f) => ColorParts { forg: f, ..parts },
                None => parts,
            },
        },
    }
}

/// The colour that the tokens make, read in order.
pub open spec fn resolve_tokens(tokens: Seq<Seq<char>>) -> ColorParts
    decreases tokens.len(),
{
    if tokens.len() == 0 {
        ColorParts {
            attrs: seq![],
            forg: LcLogColor::LcForgColDefault,
            back: LcBackColor::LcBackColDefault,
        }
    } else {
        token_step(resolve_tokens(tokens.drop_last()), tokens.last())
    }
}

/// The colour of one comma-separated entry of a `colours=` value.
pub open spec fn color_of_entry(entry: Seq<char>) -> ColorView {
    let parts = resolve_tokens(split_by(entry, Separator::Blank));
    color_view_of(parts.attrs, parts.forg, parts.back)
}

/// The colours of a `colours=` value, one per comma-separated entry.
pub open spec fn colour_specs(value: Seq<char>) -> Seq<ColorView> {
    split_by(value, Separator::Comma).map_values(|e: Seq<char>| color_of_entry(e))
}

fn color_of_tokens(entry: &[char]) -> (r: CgrcColorItem)
    ensures
        r@ == color_of_entry(entry@),
{
    let tokens = split_where(entry, Separator::Blank);
    let ghost toks = pieces_view(tokens@);
    let mut attrs: Vec<CgrcAttrib> = Vec::new();
    let mut forg = LcLogColor::LcForgColDefault;
    let mut back = LcBackColor::LcBackColDefault;
    let mut t: usize = 0;
    while t < tokens.len()
        invariant
            t <= tokens@.len(),
            toks == pieces_view(tokens@),
            toks == split_by(entry@, Separator::Blank),
            (ColorParts { attrs: attrs@, forg, back }) == resolve_tokens(toks.take(t as int)),
        decreases tokens@.len() - t,
    {
        let token = tokens[t].as_slice();
        assert(toks.take(t + 1).drop_last() == toks.take(t as int));
        assert(toks.take(t + 1).last() == token@);
        match attr_by_name(token) {
            Some(a) => {
                if !has_attr(&attrs, a) {
                    attrs.push(a);
                }
            },
            None => match back_by_name(token) {
                Some(b) => {
                    back = b;
                },
                None => match forg_by_name(token) {
                    Some(f) => {
                        forg = f;
                    },
                    None => {},
                },
            },
        }
        t += 1;
    }
    assert(toks.take(toks.len() as int) == toks);
    CgrcColorItem::new(attrs, forg, back)
}

/// The parser of configurations, and the colouring of lines by them.
pub struct CGRCParser {}

impl CGRCParser {
    /// Reads the value of a `colours=` line: one colour per comma-separated
    /// entry, group 0 first.
    pub fn parse_colors(line: &str) -> (r: Vec<CgrcColorItem>)
        ensures
            colors_view(r@) == colour_specs(line@),
    {
        let chars = chars_of(line);
        let entries = split_where(chars.as_slice(), Separator::Comma);
        let ghost es = pieces_view(entries@);
        let mut items: Vec<CgrcColorItem> = Vec::new();
        let mut k: usize = 0;
        while k < entries.len()
            invariant
                k <= entries@.len(),
                es == pieces_view(entries@),
                es == split_by(line@, Separator::Comma),
                colors_view(items@) == es.take(k as int).map_values(
                    |e: Seq<char>| color_of_entry(e),
                ),
            decreases entries@.len() - k,
        {
            let item = color_of_tokens(entries[k].as_slice());
            let ghost before = items@;
            items.push(item);
            assert(colors_view(items@) =~= colors_view(before).push(item@));
            assert(es.take(k + 1) =~= es.take(k as int).push(es[k as int]));
            k += 1;
        }
        assert(es.take(es.len() as int) == es);
        items
    }
}

/// Why a configuration line was refused.
#[derive(Debug)]
pub enum ConfErrorKind {
    /// The `regexp=` pattern does not compile; the compiler's error.
    InvalidRegex(fancy_regex::Error),
    /// The `count=` value names no count mode.
    InvalidCountMode,
}

/// A configuration that cannot be used: the line that was refused (counted
/// from 1), its text, and why.
#[derive(Debug)]
pub struct ConfError {
    pub line_number: usize,
    pub line: String,
    pub kind: ConfErrorKind,
}

/// The two faults a line can have.
#[derive(Debug, Clone, Copy, PartialEq, Eq, Structural)]
pub enum LineFault {
    BadRegex,
    BadCountMode,
}

impl ConfErrorKind {
    pub open spec fn fault(&self) -> LineFault {
        match self {
            ConfErrorKind::InvalidRegex(_) => LineFault::BadRegex,
            ConfErrorKind::InvalidCountMode => LineFault::BadCountMode,
        }
    }
}

/// The rest of `line` after the key.
pub open spec fn after(line: Seq<char>, key: Seq<char>) -> Seq<char> {
    line.skip(key.len() as int)
}

/// What one line does to the configuration and to the rule being built:
/// the new pair, and whether the line ends a rule that has a pattern (which
/// then joins the configuration); or the fault that makes the line fatal.
/// Keys are matched ignoring ASCII case; values keep their case.
pub open spec fn line_step(line: Seq<char>, conf: ConfView, item: RuleView) -> Result<
    (ConfView, RuleView, bool),
    LineFault,
> {
    if has_prefix(line, "desc="@) {
        Ok((ConfView { description: Some(after(line, "desc="@)), ..conf }, item, false))
    } else if has_prefix(line, "regexp="@) {
        let source = after(line, "regexp="@);
        if regex_accepts(source) {
            Ok((conf, RuleView { pattern: Some(source), ..item }, false))
        } else {
            Err(LineFault::BadRegex)
        }
    } else if has_prefix(line, "colours="@) {
        Ok(
            (
                conf,
                RuleView { colors: item.colors + colour_specs(after(line, "colours="@)), ..item },
                false,
            ),
        )
    } else if has_prefix(line, "skip="@) {
        Ok((conf, RuleView { skip: Some(matches_name(line, "skip=yes"@)), ..item }, false))
    } else if has_prefix(line, "count="@) {
        match count_named(after(line, "count="@)) {
            Some(m) => Ok((conf, RuleView { count_mode: Some(m), ..item }, false)),
            None => Err(LineFault::BadCountMode),
        }
    } else {
        Ok((conf, item, item.pattern is Some))
    }
}

/// The configuration with the rule appended if it has a pattern.
pub open spec fn close_rule(conf: ConfView, item: RuleView) -> ConfView {
    if item.pattern is Some {
        ConfView { items: conf.items.push(item), ..conf }
    } else {
        conf
    }
}

/// Reads the lines from index `i` on; a fault gives the index of its line.
pub open spec fn parse_from(lines: Seq<Seq<char>>, i: int, conf: ConfView, item: RuleView) -> Result<
    ConfView,
    (int, LineFault),
>
    decreases lines.len() - i,
{
    if i >= lines.len() {
        Ok(close_rule(conf, item))
    } else {
        match line_step(lines[i], conf, item) {
            Err(f) => Err((i, f)),
            Ok((c, it, ends)) => if ends {
                parse_from(lines, i + 1, close_rule(c, it), empty_rule())
            } else {
                parse_from(lines, i + 1, c, it)
            },
        }
    }
}

/// The configuration that the lines describe.
pub open spec fn parse_lines(lines: Seq<Seq<char>>) -> Result<ConfView, (int, LineFault)> {
    parse_from(lines, 0, ConfView { items: seq![], description: None }, empty_rule())
}

/// Whether `r` is the outcome that `parse_lines` gives for `lines`.
pub open spec fn parse_outcome(lines: Seq<Seq<char>>, r: Result<CgrcConf, ConfError>) -> bool {
    match parse_lines(lines) {
        Ok(v) => r matches Ok(c) && c@ == v,
        Err((i, f)) => r matches Err(e) && e.line_number == i + 1 && e.line@ == lines[i]
            && e.kind.fault() == f,
    }
}

/// A line with its end-of-line `\r` removed.
pub open spec fn strip_cr(l: Seq<char>) -> Seq<char> {
    if l.len() > 0 && l.last() == '\r' {
        l.drop_last()
    } else {
        l
    }
}

/// The lines of a text: cut at each `\n`, a `\r` before the `\n` removed,
/// and no empty last line after a final `\n`.
pub open spec fn conf_lines(text: Seq<char>) -> Seq<Seq<char>> {
    let pieces = split_by(text, Separator::LineFeed);
    let ended = pieces.drop_last().map_values(|l: Seq<char>| strip_cr(l));
    if pieces.last().len() == 0 {
        ended
    } else {
        ended.push(pieces.last())
    }
}

pub open spec fn strings_view(v: Seq<String>) -> Seq<Seq<char>> {
    v.map_values(|s: String| s@)
}

fn string_of_prefix(v: &[char], n: usize) -> (r: String)
    requires
        n <= v@.len(),
    ensures
        r@ == v@.take(n as int),
{
    let mut out: Vec<char> = Vec::new();
    let mut i: usize = 0;
    while i < n
        invariant
            i <= n <= v@.len(),
            out@ == v@.take(i as int),
        decreases n - i,
    {
        out.push(v[i]);
        i += 1;
    }
    string_of(out.as_slice())
}

/// Cuts a text into its lines.
fn text_lines(text: &str) -> (r: Vec<String>)
    ensures
        strings_view(r@) == conf_lines(text@),
{
    let chars = chars_of(text);
    let pieces = split_where(chars.as_slice(), Separator::LineFeed);
    let ghost ps = pieces_view(pieces@);
    proof {
        let (closed, open) = split_prefix(text@, text@.len() as int, Separator::LineFeed);
        assert(ps.len() == closed.len() + 1);
    }
    let last_index = pieces.len() - 1;
    let mut lines: Vec<String> = Vec::new();
    let mut k: usize = 0;
    while k < last_index
        invariant
            last_index == ps.len() - 1,
            ps == pieces_view(pieces@),
            ps == split_by(text@, Separator::LineFeed),
            ps.len() >= 1,
            k < ps.len(),
            strings_view(lines@) == ps.drop_last().take(k as int).map_values(
                |l: Seq<char>| strip_cr(l),
            ),
        decreases ps.len() - k,
    {
        let piece = pieces[k].as_slice();
        let n = piece.len();
        let line = if n > 0 && piece[n - 1] == '\r' {
            string_of_prefix(piece, n - 1)
        } else {
            string_of_prefix(piece, n)
        };
        assert(piece@.take(n as int) == piece@);
        let ghost before = lines@;
        lines.push(line);
        assert(strings_view(lines@) =~= strings_view(before).push(line@));
        assert(ps.drop_last().take(k + 1) =~= ps.drop_last().take(k as int).push(ps[k as int]));
        k += 1;
    }
    assert(ps.drop_last().take(k as int) == ps.drop_last());
    let last = pieces[k].as_slice();
    if last.len() > 0 {
        let ghost before = lines@;
        lines.push(string_of(last));
        assert(strings_view(lines@) =~= strings_view(before).push(last@));
    }
    lines
}

impl CGRCParser {
    /// Reads one line into the configuration or into the rule being built.
    /// Returns whether the line ends a rule that has a pattern; the caller
    /// then appends that rule and starts a new one.
    fn parse_conf_line(line: &String, conf: &mut CgrcConf, item: &mut CgrcConfItem) -> (r: Result<
        bool,
        ConfErrorKind,
    >)
        ensures
            match line_step(line@, old(conf)@, old(item)@) {
                Ok((c, it, ends)) => r == Ok::<bool, ConfErrorKind>(ends) && final(conf)@ == c
                    && final(item)@ == it,
                Err(f) => r matches Err(k) && k.fault() == f && final(conf)@ == old(conf)@
                    && final(item)@ == old(item)@,
            },
    {
        let chars = chars_of(line.as_str());
        let text = chars.as_slice();
        if starts_with_name(text, "desc=") {
            let value = tail_from(text, "desc=".unicode_len());
            conf.description = Some(string_of(value.as_slice()));
            return Ok(false);
        }
        if starts_with_name(text, "regexp=") {
            let value = tail_from(text, "regexp=".unicode_len());
            let source = string_of(value.as_slice());
            return match Pattern::compile(source.as_str()) {
                Ok(p) => {
                    item.regex = Some(p);
                    Ok(false)
                },
                Err(e) => Err(ConfErrorKind::InvalidRegex(e)),
            };
        }
        if starts_with_name(text, "colours=") {
            let value = tail_from(text, "colours=".unicode_len());
            let mut specs = CGRCParser::parse_colors(string_of(value.as_slice()).as_str());
            let ghost before = item.colors@;
            item.colors.append(&mut specs);
            assert(colors_view(item.colors@) =~= colors_view(before) + colour_specs(value@));
            return Ok(false);
        }
        if starts_with_name(text, "skip=") {
            item.skip = Some(is_name(text, "skip=yes"));
            return Ok(false);
        }
        if starts_with_name(text, "count=") {
            let value = tail_from(text, "count=".unicode_len());
            return match count_by_name(value.as_slice()) {
                Some(m) => {
                    item.count_mode = Some(m);
                    Ok(false)
                },
                None => Err(ConfErrorKind::InvalidCountMode),
            };
        }
        Ok(item.regex.is_some())
    }

    /// Parses a configuration given as lines.
    pub fn parse_conf_lines(lines: &Vec<String>) -> (r: Result<CgrcConf, ConfError>)
        ensures
            parse_outcome(strings_view(lines@), r),
    {
        let ghost ls = strings_view(lines@);
        let mut conf = CgrcConf { items: Vec::new(), description: None };
        let mut item = CgrcConfItem::new();
        assert(conf@.items =~= seq![]);
        let mut i: usize = 0;
        while i < lines.len()
            invariant
                i <= lines@.len(),
                ls == strings_view(lines@),
                parse_from(ls, i as int, conf@, item@) == parse_lines(ls),
            decreases lines@.len() - i,
        {
            match CGRCParser::parse_conf_line(&lines[i], &mut conf, &mut item) {
                Err(kind) => {
                    return Err(ConfError { line_number: i + 1, line: lines[i].clone(), kind });
                },
                Ok(ends) => {
                    if ends {
                        let ghost before = conf.items@;
                        conf.items.push(item);
                        assert(rules_view(conf.items@) =~= rules_view(before).push(item@));
                        item = CgrcConfItem::new();
                    }
                },
            }
            i += 1;
        }
        if item.regex.is_some() {
            let ghost before = conf.items@;
            conf.items.push(item);
            assert(rules_view(conf.items@) =~= rules_view(before).push(item@));
        }
        Ok(conf)
    }

    /// Parses a configuration given as one text.
    pub fn parse_conf_string(conf: String) -> (r: Result<CgrcConf, ConfError>)
        ensures
            parse_outcome(conf_lines(conf@), r),
    {
        let lines = text_lines(conf.as_str());
        CGRCParser::parse_conf_lines(&lines)
    }
}

} // verus!
