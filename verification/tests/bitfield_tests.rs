use bitrange::accessor::{get_bits, set_bits};
use bitrange::pattern::Pattern;
use bitrange::DeclError;
use bitrange::value::{BitField, BitrangeSpec, Field};

fn compile(pattern: &str, width: usize, tokens: &[char]) -> BitrangeSpec {
    let p = Pattern::new(
        String::from("Test"),
        String::from("u8"),
        String::from(pattern),
    )
    .unwrap();
    let mut fields = Vec::new();
    for (i, t) in tokens.iter().enumerate() {
        fields.push(Field {
            token: *t,
            getter: format!("field_{}", i),
            setter: None,
        });
    }
    BitrangeSpec::new(width, p, fields).unwrap()
}

#[test]
fn test_default() {
    let spec = compile("aaa1_0bbb", 8, &['a', 'b']);
    let test = BitField::default_new(&spec);
    assert_eq!(test.bits(), 0b0001_0000);
    let first = spec.field('a').unwrap();
    let second = spec.field('b').unwrap();
    assert_eq!(test.get_field(&first), 0);
    assert_eq!(test.get_field(&second), 0);
}

#[test]
fn test_default_2() {
    let spec = compile("aaa1_0bbb", 8, &['a']);
    let test = BitField::default_new(&spec);
    assert_eq!(test.bits(), 0b0001_0000);
    let first = spec.field('a').unwrap();
    println!("{:?}", test.get_field(&first));
}

#[test]
fn test_ip_test() {
    let spec = compile("aaaa_bbbb_cccccccc_dddddddddddddddd", 32, &['a', 'b', 'c', 'd']);
    let header = BitField::from(&spec, 0b0001_0010_00000011_0000000000000100).unwrap();
    let version = spec.field('a').unwrap();
    let ihl = spec.field('b').unwrap();
    let type_of_service = spec.field('c').unwrap();
    let total_length = spec.field('d').unwrap();
    assert_eq!(header.get_field(&version), 0b0001);
    assert_eq!(header.get_field(&ihl), 0b0010);
    assert_eq!(header.get_field(&type_of_service), 0b0011);
    assert_eq!(header.get_field(&total_length), 0b0100);
}

#[test]
fn test_ip_test_set() {
    let spec = compile("aaaa_bbbb_cccccccc_dddddddddddddddd", 32, &['a', 'b', 'c', 'd']);
    let mut header = BitField::from(&spec, 0b0001_0010_00000011_0000000000000100).unwrap();
    let version = spec.field('a').unwrap();
    let ihl = spec.field('b').unwrap();
    let type_of_service = spec.field('c').unwrap();
    let total_length = spec.field('d').unwrap();
    assert_eq!(header.get_field(&version), 0b0001);
    assert_eq!(header.get_field(&ihl), 0b0010);
    assert_eq!(header.get_field(&type_of_service), 0b0011);
    assert_eq!(header.get_field(&total_length), 0b0100);

    header.set_field(&version, 0b0100);
    assert_eq!(header.get_field(&version), 0b0100);
}

#[test]
fn test_error() {
    let spec = compile("1111_111a", 8, &['a']);
    // All bits but the last must be 1, so zero cannot validate.
    if let Err(e) = BitField::from(&spec, 0) {
        assert_eq!(0b1111_1110, e.expected);
        assert_eq!(0, e.provided);
    } else {
        panic!("Test should have failed but didn't");
    }
}

#[test]
fn scenario_mixed_literals() {
    // Pattern `aaa1_0bbb` on an 8-bit store.
    let p = Pattern::new(
        String::from("Test"),
        String::from("u8"),
        String::from("aaa1_0bbb"),
    )
    .unwrap();
    assert_eq!(p.default_mask_of(), 0b0001_1000);
    assert_eq!(p.default_value_of(), 0b0001_0000);
    let spec = BitrangeSpec::new(8, p, Vec::new()).unwrap();
    let e = match BitField::from(&spec, 0b0000_0000) {
        Err(e) => e,
        Ok(_) => panic!("validation should have failed"),
    };
    assert_eq!(e.expected, 0b0001_0000);
    assert_eq!(e.provided, 0b0000_0000);
    let e = match BitField::from(&spec, 0b1111_1010) {
        Err(e) => e,
        Ok(_) => panic!("validation should have failed"),
    };
    assert_eq!(e.expected, 0b0001_0000);
    // The fixed positions of 0b1111_1010 read 0b0001_1000: the `0` literal
    // position is set, so validation fails.
    assert_eq!(e.provided, 0b0001_1000);
    // A value with the `1` literal set and the `0` literal clear validates.
    assert!(BitField::from(&spec, 0b0001_0000).is_ok());
    assert!(BitField::from(&spec, 0b1111_0111).is_ok());
}

#[test]
fn scenario_ip_header_decode() {
    // The 32-bit header layout: `a` covers the top nibble, `d` the low half.
    let p = Pattern::new(
        String::from("IpHeader"),
        String::from("u32"),
        String::from("aaaa_bbbb_cccccccc_dddddddddddddddd"),
    )
    .unwrap();
    assert_eq!(p.mask_of('a').unwrap(), 0xF000_0000);
    assert_eq!(p.offset_of('a').unwrap(), 28);
    assert_eq!(p.mask_of('d').unwrap(), 0x0000_FFFF);
    assert_eq!(p.offset_of('d').unwrap(), 0);
    let spec = BitrangeSpec::new(32, p, Vec::new()).unwrap();
    // The first four raw header bytes 02 5c 44 d8, big-endian.
    let header = BitField::from(&spec, 0x025c_44d8).unwrap();
    let version = spec.field('a').unwrap();
    let ihl = spec.field('b').unwrap();
    let type_of_service = spec.field('c').unwrap();
    let total_length = spec.field('d').unwrap();
    assert_eq!(header.get_field(&version), 0);
    assert_eq!(header.get_field(&ihl), 2);
    assert_eq!(header.get_field(&type_of_service), 0x5c);
    assert_eq!(header.get_field(&total_length), 0x44d8);
}

#[test]
fn scenario_default_only() {
    // Default-only pattern `1111_111a` on an 8-bit store.
    let p = Pattern::new(
        String::from("Test"),
        String::from("u8"),
        String::from("1111_111a"),
    )
    .unwrap();
    assert_eq!(p.default_mask_of(), 0b1111_1110);
    assert_eq!(p.default_value_of(), 0b1111_1110);
    let spec = BitrangeSpec::new(8, p, Vec::new()).unwrap();
    let e = match BitField::from(&spec, 0) {
        Err(e) => e,
        Ok(_) => panic!("validation should have failed"),
    };
    assert_eq!(e.expected, 0b1111_1110);
    assert_eq!(e.provided, 0);
    assert!(BitField::from(&spec, 0b1111_1110).is_ok());
    assert!(BitField::from(&spec, 0b1111_1111).is_ok());
}

#[test]
fn roundtrip_and_truncation() {
    let mask: u64 = 0b0111_0000;
    let offset: u64 = 4;
    // In-range value: read back exactly.
    let w = set_bits(0b1010_1010, 5, mask, offset);
    assert_eq!(get_bits(w, mask, offset), 5);
    // Bits outside the mask are untouched.
    assert_eq!(w & !mask, 0b1010_1010 & !mask);
    // Too-wide value: truncated to the field's width.
    let w = set_bits(0, 0xFF, mask, offset);
    assert_eq!(get_bits(w, mask, offset), 0xFF & (mask >> offset));
    assert_eq!(get_bits(w, mask, offset), 0b111);
}

#[test]
fn set_twice_is_set_once() {
    let mask: u64 = 0x0000_FF00;
    let offset: u64 = 8;
    let once = set_bits(0xDEAD_BEEF, 0x42, mask, offset);
    let twice = set_bits(once, 0x42, mask, offset);
    assert_eq!(once, twice);
}

#[test]
fn setter_preserves_fixed_bits() {
    let spec = compile("aaa1_0bbb", 8, &['a', 'b']);
    let mut v = BitField::default_new(&spec);
    let first = spec.field('a').unwrap();
    let second = spec.field('b').unwrap();
    v.set_field(&first, 0b111);
    v.set_field(&second, 0b101);
    // The literal `1` bit stays set and the literal `0` bit stays clear.
    assert_eq!(v.bits() & 0b0001_1000, 0b0001_0000);
    assert_eq!(v.get_field(&first), 0b111);
    assert_eq!(v.get_field(&second), 0b101);
}

#[test]
fn spec_rejects_bad_declarations() {
    let p = Pattern::new(
        String::from("Test"),
        String::from("u8"),
        String::from("aaa1_0bbb"),
    )
    .unwrap();
    // The pattern addresses 8 bits: a 4-bit store cannot hold it.
    let r = BitrangeSpec::new(4, p, Vec::new());
    assert!(matches!(r, Err(DeclError::BadWidth)));
    let p = Pattern::new(
        String::from("Test"),
        String::from("u8"),
        String::from("aaa1_0bbb"),
    )
    .unwrap();
    // A store wider than 64 bits is not supported.
    let r = BitrangeSpec::new(65, p, Vec::new());
    assert!(matches!(r, Err(DeclError::BadWidth)));
    let p = Pattern::new(
        String::from("Test"),
        String::from("u8"),
        String::from("aaa1_0bbb"),
    )
    .unwrap();
    // Token `z` occurs nowhere in the pattern.
    let fields = vec![Field {
        token: 'z',
        getter: String::from("zed"),
        setter: None,
    }];
    let r = BitrangeSpec::new(8, p, fields);
    assert!(matches!(r, Err(DeclError::UnknownToken)));
}

#[test]
fn full_width_pattern() {
    // A pattern addressing all 64 bits of the widest storage.
    let mut text = String::new();
    text.push('1');
    for _ in 0..62 {
        text.push('a');
    }
    text.push('0');
    let p = Pattern::new(String::from("Wide"), String::from("u64"), text).unwrap();
    assert_eq!(p.mask_of('a').unwrap(), 0x7FFF_FFFF_FFFF_FFFE);
    assert_eq!(p.offset_of('a').unwrap(), 1);
    assert_eq!(p.default_mask_of(), 0x8000_0000_0000_0001);
    assert_eq!(p.default_value_of(), 0x8000_0000_0000_0000);
    let spec = BitrangeSpec::new(64, p, Vec::new()).unwrap();
    let a = spec.field('a').unwrap();
    let mut v = BitField::from(&spec, 0x8000_0000_0000_0000).unwrap();
    v.set_field(&a, u64::MAX);
    // The written field truncates to its 62 bits; the fixed bits survive.
    assert_eq!(v.get_field(&a), 0x3FFF_FFFF_FFFF_FFFF);
    assert_eq!(v.bits(), 0xFFFF_FFFF_FFFF_FFFE);
}
