//! Where configurations are looked for, and the listing of the
//! configurations found there. Reading directories and files is left to the
//! caller, which hands over each file's path and text.

use vstd::prelude::*;

use crate::parser::{conf_lines, parse_lines, parse_outcome, CGRCParser, ConfError};
use crate::text::{chars_of, push_all, string_of};

verus! {

/// The line that lists one configuration: its path and its description, or
/// `?` where it has none.
pub open spec fn listing_line(path: Seq<char>, description: Option<Seq<char>>) -> Seq<char> {
    seq!['\t'] + path + seq![' ', '-', '>', ' '] + match description {
        Some(d) => d,
        None => seq!['?'],
    }
}

/// Whether the text is a configuration that parses.
pub open spec fn parses(text: Seq<char>) -> bool {
    parse_lines(conf_lines(text)) is Ok
}

/// The description of a configuration that parses.
pub open spec fn description_of(text: Seq<char>) -> Option<Seq<char>> {
    parse_lines(conf_lines(text))->Ok_0.description
}

/// Whether `r` lists the files `(path, text)` in order, or, where one of them
/// does not parse, is the error of the first such file.
pub open spec fn listing_outcome(files: Seq<(String, String)>, r: Result<Vec<String>, ConfError>) -> bool {
    match r {
        Ok(lines) => lines@.len() == files.len() && (forall|i: int|
            0 <= i < files.len() ==> parses(#[trigger] files[i].1@)) && forall|i: int|
            0 <= i < files.len() ==> #[trigger] lines@[i]@ == listing_line(
                files[i].0@,
                description_of(files[i].1@),
            ),
        Err(e) => exists|k: int|
            0 <= k < files.len() && (forall|i: int| 0 <= i < k ==> parses(#[trigger] files[i].1@))
                && parse_outcome(conf_lines(files[k].1@), Err(e)),
    }
}

/// The lines that list the configurations found in one location.
fn list_confs(files: &Vec<(String, String)>) -> (r: Result<Vec<String>, ConfError>)
    ensures
        listing_outcome(files@, r),
{
    let mut lines: Vec<String> = Vec::new();
    let mut i: usize = 0;
    while i < files.len()
        invariant
            i <= files@.len(),
            lines@.len() == i,
            forall|j: int| 0 <= j < i ==> parses(#[trigger] files@[j].1@),
            forall|j: int|
                0 <= j < i ==> #[trigger] lines@[j]@ == listing_line(
                    files@[j].0@,
                    description_of(files@[j].1@),
                ),
        decreases files@.len() - i,
    {
        let path = &files[i].0;
        let text = files[i].1.clone();
        match CGRCParser::parse_conf_string(text) {
            Err(e) => {
                assert(parse_outcome(conf_lines(files@[i as int].1@), Err(e)));
                return Err(e);
            },
            Ok(conf) => {
                let mut line: Vec<char> = Vec::new();
                line.push('\t');
                push_all(&mut line, chars_of(path.as_str()).as_slice());
                line.push(' ');
                line.push('-');
                line.push('>');
                line.push(' ');
                match &conf.description {
                    Some(d) => push_all(&mut line, chars_of(d.as_str()).as_slice()),
                    None => line.push('?'),
                }
                let ghost before = lines@;
                lines.push(string_of(line.as_slice()));
                assert(forall|j: int| 0 <= j < i ==> lines@[j] == before[j]);
            },
        }
        i += 1;
    }
    Ok(lines)
}

/// Where configurations are kept.
pub struct CGRCConfManager {}

impl CGRCConfManager {
    /// The directory that holds the configurations of the whole system.
    pub fn default_system_path() -> (r: &'static str)
        ensures
            r@ == "/etc/cgrc"@,
    {
        "/etc/cgrc"
    }

    /// The listing of the user's configurations, given each file's path and
    /// text.
    pub fn print_avail_user_confs(files: &Vec<(String, String)>) -> (r: Result<Vec<String>, ConfError>)
        ensures
            listing_outcome(files@, r),
    {
        list_confs(files)
    }

    /// The listing of the system's configurations, given each file's path
    /// and text.
    pub fn print_avail_system_confs(files: &Vec<(String, String)>) -> (r: Result<
        Vec<String>,
        ConfError,
    >)
        ensures
            listing_outcome(files@, r),
    {
        list_confs(files)
    }
}

/// The earlier form of the configuration locations.
pub struct CGRCConf {}

impl CGRCConf {
    /// The directory that holds the configurations of the whole system.
    pub fn default_system_path() -> (r: &'static str)
        ensures
            r@ == "/etc/cgrc"@,
    {
        "/etc/cgrc"
    }
}

} // verus!
