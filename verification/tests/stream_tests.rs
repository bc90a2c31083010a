use bitrange::stream::{
    consume_comma, parse_pattern, parse_selector, proc_default_mask, proc_default_value,
    proc_mask, proc_offset, Pattern,
};
use bitrange::tokens::{Delim, Tok};

fn invocation(pattern: &str, selector: char) -> Vec<Tok> {
    vec![
        Tok::Group(Delim::Bracket, vec![Tok::Ident(String::from(pattern))]),
        Tok::Punct(','),
        Tok::Ident(selector.to_string()),
    ]
}

#[test]
fn with_selector_records_positions() {
    let toks = invocation("aaa1_0bbb", 'a');
    let p = Pattern::from_stream_with_selector(&toks).unwrap();
    assert_eq!(p.pattern, "aaa10bbb");
    assert_eq!(p.current, vec![0, 1, 2]);

    let toks = invocation("aaa1_0bbb", 'b');
    let p = Pattern::from_stream_with_selector(&toks).unwrap();
    assert_eq!(p.current, vec![5, 6, 7]);
}

#[test]
fn with_selector_rejects_bad_shapes() {
    // Selector missing entirely.
    let toks = vec![Tok::Group(
        Delim::Bracket,
        vec![Tok::Ident(String::from("aaa"))],
    )];
    let e = Pattern::from_stream_with_selector(&toks).unwrap_err();
    assert_eq!(e, "expected a comma");

    // A brace-delimited pattern is not accepted.
    let toks = vec![
        Tok::Group(Delim::Brace, vec![Tok::Ident(String::from("aaa"))]),
        Tok::Punct(','),
        Tok::Ident(String::from("a")),
    ];
    let e = Pattern::from_stream_with_selector(&toks).unwrap_err();
    assert_eq!(e, "expected a bracket-delimited pattern");

    // Trailing tokens are refused.
    let mut toks = invocation("aaa", 'a');
    toks.push(Tok::Punct(';'));
    let e = Pattern::from_stream_with_selector(&toks).unwrap_err();
    assert_eq!(e, "unexpected trailing token");

    // A selector that never occurs is refused.
    let toks = invocation("aaa", 'z');
    let e = Pattern::from_stream_with_selector(&toks).unwrap_err();
    assert_eq!(e, "token not found in pattern");
}

#[test]
fn from_stream_reads_pattern_only() {
    let toks = vec![Tok::Group(
        Delim::Bracket,
        vec![Tok::Ident(String::from("1111_111a"))],
    )];
    let p = Pattern::from_stream(&toks).unwrap();
    assert_eq!(p.pattern, "1111111a");
    assert!(p.current.is_empty());
}

#[test]
fn parse_pattern_descends_into_groups() {
    let t = Tok::Group(
        Delim::Plain,
        vec![Tok::Group(
            Delim::Bracket,
            vec![Tok::Ident(String::from("aa_bb"))],
        )],
    );
    assert_eq!(parse_pattern(Some(&t)).unwrap(), "aabb");
    assert!(parse_pattern(None).is_err());
}

#[test]
fn comma_and_selector_checks() {
    assert!(consume_comma(Some(&Tok::Punct(','))).is_ok());
    assert!(consume_comma(Some(&Tok::Punct(';'))).is_err());
    assert!(consume_comma(None).is_err());

    assert_eq!(parse_selector(Some(&Tok::Ident(String::from("a")))).unwrap(), 'a');
    assert!(parse_selector(Some(&Tok::Ident(String::from("ab")))).is_err());
    // A selector nested in a group is found through its first token.
    let t = Tok::Group(Delim::Plain, vec![Tok::Ident(String::from("c"))]);
    assert_eq!(parse_selector(Some(&t)).unwrap(), 'c');
}

#[test]
fn rendered_literals() {
    let toks = invocation("aaa1_0bbb", 'a');
    let p = Pattern::from_stream_with_selector(&toks).unwrap();
    assert_eq!(proc_mask(&p), "0b11100000");
    assert_eq!(proc_offset(&p), 5);

    let toks = invocation("aaa1_0bbb", 'b');
    let p = Pattern::from_stream_with_selector(&toks).unwrap();
    assert_eq!(proc_mask(&p), "0b00000111");
    assert_eq!(proc_offset(&p), 0);

    assert_eq!(proc_default_mask(&p), "0b00011000");
    assert_eq!(proc_default_value(&p), "0b00010000");
}
