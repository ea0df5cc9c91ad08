use cgrc::codec::{
    colors_attr_clear, CgrcAttrib, CgrcColorItem, CgrcResetAttrib, LcBackColor, LcLogColor,
};
use cgrc::parser::{CGRCParser, CgrcConf, CgrcCountMode, ConfErrorKind};

fn parse(text: &str) -> CgrcConf {
    match CGRCParser::parse_conf_string(text.to_string()) {
        Ok(conf) => conf,
        Err(e) => panic!("configuration refused: {:?}", e),
    }
}

fn colorize(conf: &CgrcConf, line: &str) -> Option<String> {
    CGRCParser::parse_log_line(&conf.items, &line.to_string(), false)
}

#[test]
fn error_word_is_red_and_bold() {
    let conf = parse("regexp=error\ncolours=red bold\n\n");
    let out = colorize(&conf, "an error occurred");
    assert_eq!(
        out,
        Some("\x1b[0man \x1b[31;49;1merror\x1b[39;49;21m\x1b[0m occurred\x1b[0;0m".to_string())
    );
}

#[test]
fn skip_rule_suppresses_line() {
    let conf = parse("regexp=debug\nskip=yes\n");
    assert_eq!(colorize(&conf, "debug: trace"), None);
    assert_eq!(colorize(&conf, "info: trace"), Some("\x1b[0minfo: trace\x1b[0;0m".to_string()));
}

#[test]
fn stop_rule_overwrites_and_halts() {
    let conf = parse(
        "regexp=(\\d+)\ncolours=unchanged,green\n\nregexp=\\d+\ncolours=red\ncount=stop\n\nregexp=4\ncolours=yellow\n",
    );
    assert_eq!(conf.items.len(), 3);
    let out = colorize(&conf, "id 42");
    assert_eq!(out, Some("\x1b[0mid \x1b[31;49m42\x1b[39;49m\x1b[0;0m".to_string()));
}

#[test]
fn line_without_match_is_unchanged() {
    let conf = parse("regexp=xyz\ncolours=blue\n");
    assert_eq!(colorize(&conf, "hello"), Some("\x1b[0mhello\x1b[0;0m".to_string()));
}

#[test]
fn empty_line_is_only_the_final_reset() {
    let conf = parse("regexp=x\ncolours=blue\n");
    assert_eq!(colorize(&conf, ""), Some("\x1b[0;0m".to_string()));
}

#[test]
fn later_rule_wins_on_overlap() {
    let conf = parse("regexp=abc\ncolours=red\n\nregexp=b\ncolours=green\n");
    let out = colorize(&conf, "abc");
    assert_eq!(
        out,
        Some(
            "\x1b[31;49ma\x1b[39;49m\x1b[32;49mb\x1b[39;49m\x1b[31;49mc\x1b[39;49m\x1b[0;0m"
                .to_string()
        )
    );
}

#[test]
fn later_group_wins_within_a_match() {
    let conf = parse("regexp=a(b)c\ncolours=red,green\n");
    let out = colorize(&conf, "abc");
    assert_eq!(
        out,
        Some(
            "\x1b[31;49ma\x1b[39;49m\x1b[32;49mb\x1b[39;49m\x1b[31;49mc\x1b[39;49m\x1b[0;0m"
                .to_string()
        )
    );
}

#[test]
fn once_colours_only_the_first_match() {
    let conf = parse("regexp=ab\ncolours=red\ncount=once\n");
    let out = colorize(&conf, "ab ab");
    assert_eq!(out, Some("\x1b[31;49mab\x1b[39;49m\x1b[0m ab\x1b[0;0m".to_string()));
    let more = parse("regexp=ab\ncolours=red\ncount=more\n");
    let out = colorize(&more, "ab ab");
    assert_eq!(
        out,
        Some("\x1b[31;49mab\x1b[39;49m\x1b[0m \x1b[31;49mab\x1b[39;49m\x1b[0;0m".to_string())
    );
}

#[test]
fn none_colour_keeps_what_is_there() {
    let conf = parse("regexp=abc\ncolours=red\n\nregexp=b\ncolours=none\n");
    let out = colorize(&conf, "abc");
    assert_eq!(out, Some("\x1b[31;49mabc\x1b[39;49m\x1b[0;0m".to_string()));
}

#[test]
fn groups_past_the_colour_list_are_ignored() {
    let conf = parse("regexp=(a)(b)\ncolours=unchanged,green\n");
    let out = colorize(&conf, "ab");
    assert_eq!(out, Some("\x1b[32;49ma\x1b[39;49m\x1b[0mb\x1b[0;0m".to_string()));
}

#[test]
fn multibyte_characters_keep_their_spans() {
    let conf = parse("regexp=é+\ncolours=blue\n");
    let out = colorize(&conf, "café éé!");
    assert_eq!(
        out,
        Some(
            "\x1b[0mcaf\x1b[34;49mé\x1b[39;49m\x1b[0m \x1b[34;49méé\x1b[39;49m\x1b[0m!\x1b[0;0m"
                .to_string()
        )
    );
}

#[test]
fn keys_ignore_case_and_patterns_keep_it() {
    let conf = parse("REGEXP=Error\nColours=RED\n");
    assert_eq!(conf.items.len(), 1);
    assert_eq!(conf.items[0].regex.as_ref().map(|p| p.as_str().to_string()), Some("Error".to_string()));
    assert_eq!(colorize(&conf, "error"), Some("\x1b[0merror\x1b[0;0m".to_string()));
    assert_eq!(
        colorize(&conf, "Error"),
        Some("\x1b[31;49mError\x1b[39;49m\x1b[0;0m".to_string())
    );
}

#[test]
fn description_and_rule_blocks() {
    let conf = parse("desc=Ping output\r\nregexp=a\r\n\r\nregexp=b\r\ncount=stop\r\nskip=no\r\nunknown line\r\nregexp=c");
    assert_eq!(conf.description, Some("Ping output".to_string()));
    assert_eq!(conf.items.len(), 3);
    assert_eq!(conf.items[1].count_mode, Some(CgrcCountMode::CgrcCountStop));
    assert_eq!(conf.items[1].skip, Some(false));
    assert_eq!(conf.items[2].regex.as_ref().map(|p| p.as_str().to_string()), Some("c".to_string()));
}

#[test]
fn block_without_pattern_is_dropped() {
    let conf = parse("colours=red\n\nregexp=a\n");
    assert_eq!(conf.items.len(), 1);
    assert_eq!(conf.items[0].colors.len(), 1);
}

#[test]
fn invalid_regex_is_reported_with_its_line() {
    let r = CGRCParser::parse_conf_string("desc=x\nregexp=(unclosed\n".to_string());
    match r {
        Err(e) => {
            assert_eq!(e.line_number, 2);
            assert_eq!(e.line, "regexp=(unclosed");
            assert!(matches!(e.kind, ConfErrorKind::InvalidRegex(_)));
        }
        Ok(_) => panic!("an invalid pattern was accepted"),
    }
}

#[test]
fn invalid_count_mode_is_reported() {
    let r = CGRCParser::parse_conf_string("regexp=a\ncount=twice\n".to_string());
    match r {
        Err(e) => {
            assert_eq!(e.line_number, 2);
            assert!(matches!(e.kind, ConfErrorKind::InvalidCountMode));
        }
        Ok(_) => panic!("an unknown count mode was accepted"),
    }
}

#[test]
fn all_count_modes_are_recognised() {
    let conf = parse("regexp=a\ncount=ONCE\n\nregexp=a\ncount=previous\n\nregexp=a\ncount=block\n\nregexp=a\ncount=unblock\n");
    let modes: Vec<_> = conf.items.iter().map(|i| i.count_mode).collect();
    assert_eq!(
        modes,
        vec![
            Some(CgrcCountMode::CgrcCountOnce),
            Some(CgrcCountMode::CgrcCountPrevious),
            Some(CgrcCountMode::CgrcCountBlock),
            Some(CgrcCountMode::CgrcCountUnblock)
        ]
    );
}

#[test]
fn parsing_twice_gives_the_same_rules() {
    let text = "desc=d\nregexp=a(b)\ncolours=red,green\n\nregexp=x\nskip=yes\n";
    let a = parse(text);
    let b = parse(text);
    assert_eq!(a.items.len(), b.items.len());
    for (x, y) in a.items.iter().zip(b.items.iter()) {
        assert_eq!(
            x.regex.as_ref().map(|p| p.as_str().to_string()),
            y.regex.as_ref().map(|p| p.as_str().to_string())
        );
    }
}

#[test]
fn colour_tokens_resolve_by_table() {
    let items = CGRCParser::parse_colors("bold red on_blue underline bold,, BRIGHT_green nonsense,none");
    assert_eq!(items.len(), 4);
    assert_eq!(items[0].attrs, vec![CgrcAttrib::CgrcBright, CgrcAttrib::CgrcUnderline]);
    assert_eq!(items[0].forg, LcLogColor::LcForgColRed);
    assert_eq!(items[0].back, LcBackColor::LcBackColBlue);
    assert_eq!(items[0].escape_seq, "\x1b[31;44;1;4m");
    assert_eq!(items[0].clear_seq, "\x1b[39;49;21;24m");
    assert_eq!(items[1].escape_seq, "\x1b[39;49m");
    assert_eq!(items[2].forg, LcLogColor::LcForgBrightColGreen);
    assert_eq!(items[2].escape_seq, "\x1b[92;49m");
    assert_eq!(items[3].attrs, vec![CgrcAttrib::CgrcNone]);
}

#[test]
fn escape_sequences_of_a_colour_item() {
    let item = CgrcColorItem::new(
        vec![CgrcAttrib::CgrcStrikethrough, CgrcAttrib::CgrcDim],
        LcLogColor::LcForgBrightColWhite,
        LcBackColor::LcBackBrightColBlack,
    );
    assert_eq!(item.escape_seq, "\x1b[97;100;9;2m");
    assert_eq!(item.clear_seq, "\x1b[39;49;28;22m");
}

#[test]
fn reset_codes_of_attributes() {
    assert_eq!(colors_attr_clear(&CgrcAttrib::CgrcBright), CgrcResetAttrib::CgrcResetBright);
    assert_eq!(colors_attr_clear(&CgrcAttrib::CgrcHidden), CgrcResetAttrib::CgrcResetHidden);
    assert_eq!(colors_attr_clear(&CgrcAttrib::CgrcStrikethrough), CgrcResetAttrib::CgrcResetHidden);
    assert_eq!(colors_attr_clear(&CgrcAttrib::CgrcNone), CgrcResetAttrib::CgrcResetNone);
    assert_eq!(colors_attr_clear(&CgrcAttrib::CgrcRapidBlink).code(), 26);
}

fn red_rule() -> CgrcConf {
    parse("regexp=unused\ncolours=red\n")
}

#[test]
fn given_captures_colour_their_spans() {
    let conf = red_rule();
    let found = vec![vec![None, Some(vec![Some((3, 8))])]];
    let out = cgrc::colorize::colorize_with_captures(&conf.items, &"an error occurred".to_string(), &found);
    assert_eq!(
        out,
        Some("\x1b[0man \x1b[31;49merror\x1b[39;49m\x1b[0m occurred\x1b[0;0m".to_string())
    );
}

#[test]
fn given_spans_off_character_boundaries_are_ignored() {
    let conf = red_rule();
    let line = "é!".to_string();
    let inside = vec![vec![Some(vec![Some((1, 3))])]];
    assert_eq!(
        cgrc::colorize::colorize_with_captures(&conf.items, &line, &inside),
        Some("\x1b[0mé!\x1b[0;0m".to_string())
    );
    let past_end = vec![vec![Some(vec![Some((2, 9))])]];
    assert_eq!(
        cgrc::colorize::colorize_with_captures(&conf.items, &line, &past_end),
        Some("\x1b[0mé!\x1b[0;0m".to_string())
    );
    let whole = vec![vec![Some(vec![Some((0, 2))])]];
    assert_eq!(
        cgrc::colorize::colorize_with_captures(&conf.items, &line, &whole),
        Some("\x1b[31;49mé\x1b[39;49m\x1b[0m!\x1b[0;0m".to_string())
    );
}

#[test]
fn given_no_matches_leave_the_line_plain() {
    let conf = red_rule();
    let found = vec![vec![None]];
    assert_eq!(
        cgrc::colorize::colorize_with_captures(&conf.items, &"abc".to_string(), &found),
        Some("\x1b[0mabc\x1b[0;0m".to_string())
    );
}

#[test]
fn matching_stop_rule_comes_before_a_skip_rule() {
    let conf = parse("regexp=a\ncolours=red\ncount=stop\n\nregexp=a\nskip=YES\n");
    assert_eq!(conf.items[1].skip, Some(true));
    assert_eq!(colorize(&conf, "a"), Some("\x1b[31;49ma\x1b[39;49m\x1b[0;0m".to_string()));
    assert_eq!(colorize(&conf, "b"), Some("\x1b[0mb\x1b[0;0m".to_string()));
}

#[test]
fn stop_rule_that_does_not_match_lets_later_rules_colour() {
    let conf = parse("regexp=zzz\ncolours=red\ncount=stop\n\nregexp=b\ncolours=green\n");
    assert_eq!(
        colorize(&conf, "ab"),
        Some("\x1b[0ma\x1b[32;49mb\x1b[39;49m\x1b[0;0m".to_string())
    );
}
