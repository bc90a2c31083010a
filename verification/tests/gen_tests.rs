use bitrange::gen::{
    bitrange, generate_default_mask, generate_default_value, generate_mask, generate_offset,
};
use bitrange::pattern::Pattern;
use bitrange::tokens::{DeriveAttr, DeriveDecl, Tok};

fn decl() -> DeriveDecl {
    DeriveDecl {
        ident: String::from("Test"),
        attrs: vec![
            DeriveAttr {
                path: String::from("BitrangeMask"),
                tokens: vec![
                    Tok::Punct('='),
                    Tok::Literal(String::from("\"aaa1_0bbb\"")),
                ],
            },
            DeriveAttr {
                path: String::from("BitrangeSize"),
                tokens: vec![Tok::Punct('='), Tok::Literal(String::from("\"u8\""))],
            },
        ],
    }
}

#[test]
fn emits_the_whole_impl_block() {
    let mut expected = String::new();
    for line in [
        "impl Test {",
        "    pub fn __bitrange_get_mask(c: &str) -> u8 {",
        "        match c {",
        "            \"a\" => 0b1110_0000,",
        "            \"1\" => 0b0001_0000,",
        "            \"0\" => 0b0000_1000,",
        "            \"b\" => 0b0000_0111,",
        "            _ => 0,",
        "        }",
        "    }",
        "    pub fn __bitrange_get_offset(c: &str) -> usize {",
        "        match c {",
        "            \"a\" => 5,",
        "            \"1\" => 4,",
        "            \"0\" => 3,",
        "            \"b\" => 0,",
        "            _ => 8,",
        "        }",
        "    }",
        "    pub fn __bitrange_get_default_mask() -> u8 {",
        "        0b0001_1000",
        "    }",
        "    pub fn __bitrange_get_default_value() -> u8 {",
        "        0b0001_0000",
        "    }",
        "}",
    ] {
        expected.push_str(line);
        expected.push('\n');
    }
    let out = bitrange(&decl()).unwrap();
    assert_eq!(out, expected);
}

#[test]
fn emits_each_helper() {
    let p = Pattern::new(
        String::from("Pair"),
        String::from("u8"),
        String::from("aabb"),
    )
    .unwrap();
    let mask = generate_mask(&p);
    assert!(mask.contains("pub fn __bitrange_get_mask(c: &str) -> u8 {"));
    assert!(mask.contains("\"a\" => 0b1100,"));
    assert!(mask.contains("\"b\" => 0b0011,"));
    assert!(mask.contains("_ => 0,"));

    let offset = generate_offset(&p);
    assert!(offset.contains("pub fn __bitrange_get_offset(c: &str) -> usize {"));
    assert!(offset.contains("\"a\" => 2,"));
    assert!(offset.contains("\"b\" => 0,"));
    assert!(offset.contains("_ => 4,"));

    let dm = generate_default_mask(&p);
    assert!(dm.contains("pub fn __bitrange_get_default_mask() -> u8 {"));
    assert!(dm.contains("0b0000"));

    let dv = generate_default_value(&p);
    assert!(dv.contains("pub fn __bitrange_get_default_value() -> u8 {"));
}

#[test]
fn reports_parse_failures() {
    let empty = DeriveDecl {
        ident: String::from("Test"),
        attrs: Vec::new(),
    };
    let e = bitrange(&empty).unwrap_err();
    assert_eq!(e, "missing attribute `BitrangeMask`");
}

#[test]
fn decimal_offsets_above_nine() {
    // A 12-bit pattern puts the top field's offset in two digits.
    let p = Pattern::new(
        String::from("Wide"),
        String::from("u16"),
        String::from("aa_bbbb_cccccc"),
    )
    .unwrap();
    let offset = generate_offset(&p);
    assert!(offset.contains("\"a\" => 10,"));
    assert!(offset.contains("\"b\" => 6,"));
    assert!(offset.contains("\"c\" => 0,"));
    assert!(offset.contains("_ => 12,"));
}
