use bitrange::pattern::Pattern;
use bitrange::tokens::{DeriveAttr, DeriveDecl, Tok};
use bitrange::DeclError;

fn sample() -> Pattern {
    Pattern::new(
        String::from("Test"),
        String::from("u8"),
        String::from("aaa1_0bbb"),
    )
    .unwrap()
}

#[test]
fn new_strips_separators() {
    let p = sample();
    assert_eq!(p.original_pattern, "aaa1_0bbb");
    assert_eq!(p.trimmed_pattern, "aaa10bbb");
    assert_eq!(p.struct_name, "Test");
    assert_eq!(p.size, "u8");
    assert_eq!(p.tokens, vec!['a', '1', '0', 'b']);
}

#[test]
fn new_rejects_empty_patterns() {
    let r = Pattern::new(String::from("T"), String::from("u8"), String::from(""));
    assert!(matches!(r, Err(DeclError::MalformedPattern)));
    let r = Pattern::new(String::from("T"), String::from("u8"), String::from("___ _"));
    assert!(matches!(r, Err(DeclError::MalformedPattern)));
}

#[test]
fn token_mask_strings() {
    let p = sample();
    assert_eq!(p.get_token_mask('a'), "0b1110_0000");
    assert_eq!(p.get_token_mask('b'), "0b0000_0111");
    // A literal marker can be rendered too: its own positions.
    assert_eq!(p.get_token_mask('1'), "0b0001_0000");
    // An absent character renders the empty mask.
    assert_eq!(p.get_token_mask('z'), "0b0000_0000");
    assert_eq!(p.get_default_mask(), "0b0001_1000");
    assert_eq!(p.get_default_value(), "0b0001_0000");
}

#[test]
fn token_offsets() {
    let p = sample();
    assert_eq!(p.get_token_offset('a'), 5);
    assert_eq!(p.get_token_offset('b'), 0);
    assert_eq!(p.get_token_offset('1'), 4);
    assert_eq!(p.get_token_offset('0'), 3);
    // An absent character counts the whole canonical length.
    assert_eq!(p.get_token_offset('z'), 8);
}

#[test]
fn integer_calculators() {
    let p = sample();
    assert_eq!(p.mask_of('a').unwrap(), 0b1110_0000);
    assert_eq!(p.mask_of('b').unwrap(), 0b0000_0111);
    assert_eq!(p.offset_of('a').unwrap(), 5);
    assert_eq!(p.offset_of('b').unwrap(), 0);
    assert_eq!(p.default_mask_of(), 0b0001_1000);
    assert_eq!(p.default_value_of(), 0b0001_0000);
    // Only alphabetic characters own token entries.
    assert!(matches!(p.mask_of('z'), Err(DeclError::UnknownToken)));
    assert!(matches!(p.mask_of('1'), Err(DeclError::UnknownToken)));
    assert!(matches!(p.offset_of('z'), Err(DeclError::UnknownToken)));
}

#[test]
fn masks_and_default_mask_never_overlap() {
    let p = sample();
    let dm = p.default_mask_of();
    assert_eq!(p.mask_of('a').unwrap() & dm, 0);
    assert_eq!(p.mask_of('b').unwrap() & dm, 0);
    // And the default value only sets bits of the default mask.
    assert_eq!(p.default_value_of() & !dm, 0);
}

#[test]
fn non_contiguous_field_masks() {
    let p = Pattern::new(
        String::from("Split"),
        String::from("u8"),
        String::from("aa_bbbb_aa"),
    )
    .unwrap();
    // The token's mask covers both groups; the offset follows the last
    // occurrence.
    assert_eq!(p.mask_of('a').unwrap(), 0b1100_0011);
    assert_eq!(p.offset_of('a').unwrap(), 0);
    assert_eq!(p.mask_of('b').unwrap(), 0b0011_1100);
    assert_eq!(p.offset_of('b').unwrap(), 2);
}

fn mask_attr(value: &str) -> DeriveAttr {
    DeriveAttr {
        path: String::from("BitrangeMask"),
        tokens: vec![Tok::Punct('='), Tok::Literal(format!("\"{}\"", value))],
    }
}

fn size_attr(value: &str) -> DeriveAttr {
    DeriveAttr {
        path: String::from("BitrangeSize"),
        tokens: vec![Tok::Punct('='), Tok::Literal(format!("\"{}\"", value))],
    }
}

#[test]
fn from_stream_reads_attributes() {
    let decl = DeriveDecl {
        ident: String::from("Test"),
        attrs: vec![mask_attr("aaa1_0bbb"), size_attr("u8")],
    };
    let p = Pattern::from_stream(&decl).unwrap();
    assert_eq!(p.struct_name, "Test");
    assert_eq!(p.original_pattern, "aaa1_0bbb");
    assert_eq!(p.trimmed_pattern, "aaa10bbb");
    assert_eq!(p.size, "u8");
    assert_eq!(p.tokens, vec!['a', '1', '0', 'b']);
}

#[test]
fn from_stream_reads_nested_literals() {
    // The attribute value may sit inside a group; other attributes are
    // ignored, and a later value overrides an earlier one.
    let decl = DeriveDecl {
        ident: String::from("Nested"),
        attrs: vec![
            DeriveAttr {
                path: String::from("derive"),
                tokens: vec![],
            },
            mask_attr("cc_dd"),
            DeriveAttr {
                path: String::from("BitrangeMask"),
                tokens: vec![
                    Tok::Punct('='),
                    Tok::Group(
                        bitrange::tokens::Delim::Parenthesis,
                        vec![Tok::Literal(String::from("\" aa_bb \""))],
                    ),
                ],
            },
            size_attr("u16"),
        ],
    };
    let p = Pattern::from_stream(&decl).unwrap();
    // Quotes and the surrounding whitespace are trimmed; separators only
    // leave the canonical form.
    assert_eq!(p.original_pattern, "aa_bb");
    assert_eq!(p.trimmed_pattern, "aabb");
    assert_eq!(p.size, "u16");
}

#[test]
fn from_stream_reports_missing_attributes() {
    let decl = DeriveDecl {
        ident: String::from("Test"),
        attrs: vec![size_attr("u8")],
    };
    let e = Pattern::from_stream(&decl).unwrap_err();
    assert_eq!(e, "missing attribute `BitrangeMask`");

    let decl = DeriveDecl {
        ident: String::from("Test"),
        attrs: vec![mask_attr("aaa1_0bbb")],
    };
    let e = Pattern::from_stream(&decl).unwrap_err();
    assert_eq!(e, "missing attribute `BitrangeSize`");
}

#[test]
fn from_stream_reports_malformed_attributes() {
    // No `=` after the attribute name.
    let decl = DeriveDecl {
        ident: String::from("Test"),
        attrs: vec![DeriveAttr {
            path: String::from("BitrangeMask"),
            tokens: vec![Tok::Ident(String::from("aaa"))],
        }],
    };
    let e = Pattern::from_stream(&decl).unwrap_err();
    assert_eq!(e, "expected `=` after the attribute name");

    // `=` followed by punctuation instead of a literal.
    let decl = DeriveDecl {
        ident: String::from("Test"),
        attrs: vec![DeriveAttr {
            path: String::from("BitrangeMask"),
            tokens: vec![Tok::Punct('='), Tok::Punct('!')],
        }],
    };
    let e = Pattern::from_stream(&decl).unwrap_err();
    assert_eq!(e, "expected a literal attribute value");
}

#[test]
fn error_record_keeps_both_sides() {
    let e = bitrange::Error::invalid_bits(0b0001_0000u64, 0b0000_1000u64);
    assert_eq!(e.expected, 0b0001_0000);
    assert_eq!(e.provided, 0b0000_1000);
}
