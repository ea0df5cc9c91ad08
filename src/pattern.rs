//! Regular expressions, compiled and run by `fancy_regex`. What that crate
//! decides (whether a pattern compiles, where it matches) is named here and
//! taken as given; everything the library does with it is verified.

use vstd::prelude::*;

verus! {

#[verifier::external_type_specification]
#[verifier::external_body]
pub struct ExRegex(fancy_regex::Regex);

#[verifier::external_type_specification]
#[verifier::external_body]
pub struct ExRegexError(fancy_regex::Error);

/// Whether `fancy_regex` compiles the pattern.
pub uninterp spec fn regex_accepts(pattern: Seq<char>) -> bool;

/// The successive non-overlapping matches of the pattern in the line, as
/// `fancy_regex` reports them: `None` for a search that failed, else the
/// byte span of each capture group (group 0 first), `None` for a group that
/// took no part in the match.
pub uninterp spec fn regex_captures(pattern: Seq<char>, line: Seq<char>) -> Seq<
    Option<Seq<Option<(usize, usize)>>>,
>;

/// A compiled regular expression, together with the text it was compiled from.
pub struct Pattern {
    source: String,
    regex: fancy_regex::Regex,
}

impl View for Pattern {
    type V = Seq<char>;

    /// The pattern's text.
    closed spec fn view(&self) -> Seq<char> {
        self.source@
    }
}

impl Pattern {
    /// Relies on `fancy_regex::Regex::new`: it either compiles the pattern or
    /// fails, depending on the pattern's text alone.
    #[verifier::external_body]
    pub(crate) fn compile(source: &str) -> (r: Result<Pattern, fancy_regex::Error>)
        ensures
            r is Ok <==> regex_accepts(source@),
            r matches Ok(p) ==> p@ == source@,
    {
        match fancy_regex::Regex::new(source) {
            Ok(regex) => Ok(Pattern { source: source.to_string(), regex }),
            Err(e) => Err(e),
        }
    }

    /// Relies on `fancy_regex::Regex::captures_iter`: the matches and their
    /// group spans depend on the pattern's text and the line alone.
    #[verifier::external_body]
    pub(crate) fn captures(&self, line: &str) -> (r: Vec<Option<Vec<Option<(usize, usize)>>>>)
        ensures
            r.deep_view() == regex_captures(self@, line@),
    {
        self.regex.captures_iter(line).map(|found| {
            found.ok().map(|caps| caps.iter().map(|g| g.map(|m| (m.start(), m.end()))).collect())
        }).collect()
    }

    /// The text of the pattern.
    pub fn as_str(&self) -> (r: &str)
        ensures
            r@ == self@,
    {
        self.source.as_str()
    }
}

} // verus!
