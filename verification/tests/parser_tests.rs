//! The script parser, line by line.

use ssb::data::{EventTrigger, StrMap, ViewKind};
use ssb::processors::{parse_dec, parse_time, rule_to_ms, ParseErrorKind, Rule, SsbParser};

#[test]
fn parse_full_script() {
    let script = "#INFO\n\
                  Title: Hello\n\
                  Author: Me\n\
                  Custom: value\n\
                  // a comment\n\
                  #TARGET\n\
                  Width: 1280\n\
                  Height: 720\n\
                  Depth: 500\n\
                  View: orthogonal\n\
                  #MACROS\n\
                  greet: Hi there\n\
                  #EVENTS\n\
                  0:10.500-1:30.250|greet|a note|Text data|extra\n\
                  intro|||plain\n\
                  #RESOURCES\n\
                  Font: ignored";
    let parser = SsbParser::new(script).expect("script accepted");
    let data = parser.data();
    assert_eq!(data.info_title.as_deref(), Some("Hello"));
    assert_eq!(data.info_author.as_deref(), Some("Me"));
    assert_eq!(data.info_description, None);
    assert_eq!(data.info_custom.get("Custom").map(|s| s.as_str()), Some("value"));
    assert_eq!(data.target_width, Some(1280));
    assert_eq!(data.target_height, Some(720));
    assert_eq!(data.target_depth, 500);
    assert_eq!(data.target_view, ViewKind::Orthogonal);
    assert_eq!(data.macros.get("greet").map(|s| s.as_str()), Some("Hi there"));
    assert_eq!(data.events.len(), 2);
    match &data.events[0].trigger {
        EventTrigger::Time(range) => assert_eq!(*range, (10_500, 90_250)),
        other => panic!("time trigger expected, got {:?}", other),
    }
    assert_eq!(data.events[0].macro_.as_deref(), Some("greet"));
    assert_eq!(data.events[0].note.as_deref(), Some("a note"));
    assert_eq!(data.events[0].data, "Text data|extra");
    assert_eq!(data.events[0].data_location.0, 14);
    match &data.events[1].trigger {
        EventTrigger::Id(id) => assert_eq!(id, "intro"),
        other => panic!("id trigger expected, got {:?}", other),
    }
    assert_eq!(data.events[1].data, "plain");
}

#[test]
fn parse_errors() {
    let no_section = SsbParser::new("Title: Hello").unwrap_err();
    assert_eq!(no_section.line, 1);
    assert_eq!(no_section.kind, ParseErrorKind::NoSection);

    let unknown = SsbParser::new("#INFO\n#BOGUS").unwrap_err();
    assert_eq!(unknown.line, 2);
    assert_eq!(unknown.kind, ParseErrorKind::UnknownSection);

    let invalid = SsbParser::new("#INFO\nno colon here").unwrap_err();
    assert_eq!(invalid.line, 2);
    assert_eq!(invalid.kind, ParseErrorKind::InvalidLine);

    let short_event = SsbParser::new("#EVENTS\na|b|c").unwrap_err();
    assert_eq!(short_event.line, 2);
    assert_eq!(short_event.kind, ParseErrorKind::InvalidLine);
}

#[test]
fn parse_error_leaves_data_unchanged() {
    let mut parser = SsbParser::new("#INFO\nTitle: Keep").unwrap();
    let err = parser.parse("#INFO\nTitle: Gone\n#BOGUS").unwrap_err();
    assert_eq!(err.line, 3);
    assert_eq!(err.kind, ParseErrorKind::UnknownSection);
    assert_eq!(parser.data().info_title.as_deref(), Some("Keep"));
    assert!(parser.data().events.is_empty());
}

#[test]
fn parse_applies_incrementally_on_success() {
    let mut parser = SsbParser::new("#INFO\nTitle: First\nAuthor: Me").unwrap();
    parser.parse("#INFO\nTitle: Second").unwrap();
    assert_eq!(parser.data().info_title.as_deref(), Some("Second"));
    assert_eq!(parser.data().info_author.as_deref(), Some("Me"));
}

#[test]
fn parse_ignores_bad_target_values() {
    let parser = SsbParser::new("#TARGET\nWidth: abc\nHeight: 99999\nView: sideways").unwrap();
    let data = parser.data();
    assert_eq!(data.target_width, None);
    assert_eq!(data.target_height, None);
    assert_eq!(data.target_view, ViewKind::Perspective);
}

#[test]
fn parse_crlf_and_blank_lines() {
    let parser = SsbParser::new("#INFO\r\n\r\nTitle: X\r\n").unwrap();
    assert_eq!(parser.data().info_title.as_deref(), Some("X"));
}

#[test]
fn parse_dash_without_times_is_id() {
    let parser = SsbParser::new("#EVENTS\nnot-a-time|||d").unwrap();
    match &parser.data().events[0].trigger {
        EventTrigger::Id(id) => assert_eq!(id, "not-a-time"),
        other => panic!("id trigger expected, got {:?}", other),
    }
}

#[test]
fn time_units() {
    assert_eq!(rule_to_ms(Rule::TimeMs), 1);
    assert_eq!(rule_to_ms(Rule::TimeS), 1000);
    assert_eq!(rule_to_ms(Rule::TimeM), 60_000);
    assert_eq!(rule_to_ms(Rule::TimeH), 3_600_000);
}

#[test]
fn parse_hours_time() {
    let parser = SsbParser::new("#EVENTS\n1:02:03.004-2:00:00|||d").unwrap();
    match &parser.data().events[0].trigger {
        EventTrigger::Time(range) => {
            assert_eq!(*range, (3_600_000 + 2 * 60_000 + 3_000 + 4, 7_200_000));
        },
        other => panic!("time trigger expected, got {:?}", other),
    }
}

#[test]
fn decimal_and_time_parsing() {
    let chars = |s: &str| s.chars().collect::<Vec<char>>();
    assert_eq!(parse_dec(&chars("1280"), 65535), Some(1280));
    assert_eq!(parse_dec(&chars("65536"), 65535), None);
    assert_eq!(parse_dec(&chars(""), 65535), None);
    assert_eq!(parse_dec(&chars("12a"), 65535), None);
    assert_eq!(parse_time(&chars("90")), Some(90_000));
    assert_eq!(parse_time(&chars("1:30")), Some(90_000));
    assert_eq!(parse_time(&chars("1:02:03.004")), Some(3_723_004));
    assert_eq!(parse_time(&chars("1:2:3:4")), None);
    assert_eq!(parse_time(&chars("abc")), None);
    assert_eq!(parse_time(&chars("1.2.3")), None);
}

#[test]
fn strmap_insert_and_get() {
    let mut map = StrMap::new();
    assert_eq!(map.len(), 0);
    map.insert("a".to_string(), "1".to_string());
    map.insert("b".to_string(), "2".to_string());
    map.insert("a".to_string(), "3".to_string());
    assert_eq!(map.len(), 2);
    assert_eq!(map.get("a").map(|s| s.as_str()), Some("3"));
    assert_eq!(map.get("b").map(|s| s.as_str()), Some("2"));
    assert_eq!(map.get("c"), None);
}
