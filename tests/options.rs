use hb_util::options::{split_fields, split_lines, str_equals};
use hb_util::{
    parse_font_ppem, ClusterLevel, Direction, FontPpem, OutputFormat, ParseError, TextOptions,
    TextOpts,
};
use std::str::FromStr;

#[test]
fn directions() {
    assert_eq!(Direction::parse("ltr"), Some(Direction::LTR));
    assert_eq!(Direction::parse("rtl"), Some(Direction::RTL));
    assert_eq!(Direction::parse("ttb"), Some(Direction::TTB));
    assert_eq!(Direction::parse("btt"), Some(Direction::BTT));
    assert_eq!(Direction::parse("LTR"), None);
    assert_eq!(Direction::from_str("up"), Err("ltr/rtl/ttb/btt".to_string()));
    assert_eq!(Direction::RTL.to_hb(), 5);
    assert_eq!(Direction::BTT.to_hb(), 7);
}

#[test]
fn cluster_levels() {
    assert_eq!(ClusterLevel::from_str("0"), Ok(ClusterLevel::MonotoneGraphemes));
    assert_eq!(ClusterLevel::from_str("1"), Ok(ClusterLevel::MonotoneCharacters));
    assert_eq!(ClusterLevel::from_str("2"), Ok(ClusterLevel::Characters));
    assert_eq!(ClusterLevel::from_str("3"), Err("0/1/2".to_string()));
    assert_eq!(ClusterLevel::Characters.to_hb(), 2);
}

#[test]
fn output_formats() {
    assert_eq!(OutputFormat::from_str("png"), Ok(OutputFormat::PNG));
    assert_eq!(OutputFormat::from_str("eps"), Ok(OutputFormat::EPS));
    assert_eq!(OutputFormat::parse("ansi"), Some(OutputFormat::ANSI));
    assert_eq!(OutputFormat::from_str("gif"), Err("ansi/png/svg/pdf/ps/eps".to_string()));
}

#[test]
fn font_ppem_values() {
    assert_eq!(parse_font_ppem("12"), Ok(FontPpem { x: 12, y: 12 }));
    assert_eq!(parse_font_ppem("12,14"), Ok(FontPpem { x: 12, y: 14 }));
    assert_eq!(parse_font_ppem(" 12 , 14 "), Ok(FontPpem { x: 12, y: 14 }));
    assert_eq!(parse_font_ppem("+7"), Ok(FontPpem { x: 7, y: 7 }));
    assert_eq!(parse_font_ppem("4294967295"), Ok(FontPpem { x: u32::MAX, y: u32::MAX }));
    assert_eq!(FontPpem::default(), FontPpem { x: 0, y: 0 });
}

#[test]
fn font_ppem_errors() {
    assert_eq!(parse_font_ppem(""), Err(ParseError::WrongCount));
    assert_eq!(parse_font_ppem("1 2 3"), Err(ParseError::WrongCount));
    assert_eq!(parse_font_ppem("a"), Err(ParseError::InvalidNumber));
    assert_eq!(parse_font_ppem("4294967296"), Err(ParseError::InvalidNumber));
    assert_eq!(parse_font_ppem("-1"), Err(ParseError::InvalidNumber));
    assert_eq!(parse_font_ppem("+"), Err(ParseError::InvalidNumber));
    assert_eq!(parse_font_ppem("3 x"), Err(ParseError::InvalidNumber));
}

#[test]
fn fields_and_equality() {
    let f = split_fields(",a bc,,d ");
    assert_eq!(f, vec![vec!['a'], vec!['b', 'c'], vec!['d']]);
    assert!(str_equals("abc", "abc"));
    assert!(!str_equals("abc", "abd"));
    assert!(!str_equals("ab", "abc"));
}

#[test]
fn lines_of_a_text() {
    assert_eq!(split_lines("a\nb"), vec!["a", "b"]);
    assert_eq!(split_lines("a\r\nb\n"), vec!["a", "b"]);
    assert_eq!(split_lines(""), Vec::<String>::new());
    assert_eq!(split_lines("\n"), vec![""]);
    assert_eq!(split_lines("a\n\nb\r"), vec!["a", "", "b\r"]);
    assert_eq!(split_lines("é\r\n"), vec!["é"]);
}

#[test]
fn text_lines_are_handed_out_in_order() {
    let mut t = TextOptions {
        text: None,
        text_file: None,
        unicodes: vec![],
        text_before: Some("<".to_string()),
        text_after: None,
        lines: vec![],
        next_line: 0,
    };
    assert_eq!(t.readline(), None);
    t.load("one\ntwo");
    assert_eq!(TextOpts::readline(&mut t), Some("one".to_string()));
    assert_eq!(t.readline(), Some("two".to_string()));
    assert_eq!(t.readline(), None);
    assert_eq!(t.text_before(), Some("<"));
    assert_eq!(t.text_after(), None);
}
