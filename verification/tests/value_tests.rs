use byondbridge::numbits::{number_bits_of_u32, u32_of_number_bits, MAX_EXACT_ORDINAL};
use byondbridge::value::{decode_tag, decode_value, encode_tag, encode_value, TaggedValue, TypeTag};

#[test]
fn clear_yields_null_with_zero_payload() {
    let mut v = TaggedValue { tag: TypeTag::Pointer, payload: 1234 };
    v.clear();
    assert_eq!(v.tag, TypeTag::Null);
    assert_eq!(v.payload, 0);
    assert_eq!(v, TaggedValue::null());
}

#[test]
fn clear_is_bit_identical_to_fresh_null() {
    let mut v = TaggedValue { tag: TypeTag::Number, payload: 0xDEAD_BEEF };
    v.clear();
    assert_eq!(encode_value(&v), encode_value(&TaggedValue::null()));
}

#[test]
fn tag_codes_round_trip() {
    let tags = [
        TypeTag::Null,
        TypeTag::Turf,
        TypeTag::Obj,
        TypeTag::Mob,
        TypeTag::Area,
        TypeTag::Client,
        TypeTag::Str,
        TypeTag::MobTypePath,
        TypeTag::ObjTypePath,
        TypeTag::TurfTypePath,
        TypeTag::AreaTypePath,
        TypeTag::Image,
        TypeTag::World,
        TypeTag::List,
        TypeTag::DatumTypePath,
        TypeTag::Datum,
        TypeTag::Number,
        TypeTag::Pointer,
    ];
    for t in tags {
        assert_eq!(decode_tag(encode_tag(t)), Some(t));
    }
    assert_eq!(decode_tag(0x07), None);
    assert_eq!(decode_tag(0xFF), None);
}

#[test]
fn wire_layout_is_tag_reserved_payload_le() {
    let v = TaggedValue { tag: TypeTag::Number, payload: 0x1234_5678 };
    let b = encode_value(&v);
    assert_eq!(b, vec![0x2A, 0, 0, 0, 0x78, 0x56, 0x34, 0x12]);
}

#[test]
fn wire_round_trip() {
    let vals = [
        TaggedValue::null(),
        TaggedValue { tag: TypeTag::Number, payload: 2.0f32.to_bits() },
        TaggedValue { tag: TypeTag::Str, payload: 7 },
        TaggedValue { tag: TypeTag::List, payload: u32::MAX },
        TaggedValue { tag: TypeTag::Pointer, payload: 0x8000_0001 },
    ];
    for v in vals {
        let b = encode_value(&v);
        assert_eq!(decode_value(&b), Some(v));
    }
}

#[test]
fn wire_decode_rejects_bad_input() {
    assert_eq!(decode_value(&[0u8; 7]), None);
    assert_eq!(decode_value(&[0u8; 9]), None);
    // 0x07 is no tag.
    assert_eq!(decode_value(&[0x07, 0, 0, 0, 0, 0, 0, 0]), None);
}

#[test]
fn wire_decode_ignores_reserved_bytes() {
    let b = [0x2A, 9, 9, 9, 0, 0, 0x80, 0x3F];
    let v = decode_value(&b).unwrap();
    assert_eq!(v.tag, TypeTag::Number);
    assert_eq!(v.payload, 1.0f32.to_bits());
}

#[test]
fn get_number_defaults_to_zero_on_other_tags() {
    let v = TaggedValue { tag: TypeTag::Str, payload: 42 };
    assert_eq!(v.get_number_bits(), 0);
    assert_eq!(v.get_number_bits(), 0.0f32.to_bits());
    let n = TaggedValue { tag: TypeTag::Number, payload: 2.5f32.to_bits() };
    assert_eq!(n.get_number_bits(), 2.5f32.to_bits());
}

#[test]
fn get_handle_defaults_to_zero_on_null_and_number() {
    assert_eq!(TaggedValue::null().get_handle(), 0);
    assert_eq!(TaggedValue { tag: TypeTag::Number, payload: 77 }.get_handle(), 0);
    assert_eq!(TaggedValue { tag: TypeTag::Mob, payload: 77 }.get_handle(), 77);
}

#[test]
fn set_handle_rejects_non_reference_tags() {
    let mut v = TaggedValue::null();
    assert!(!v.set_handle(TypeTag::Null, 5));
    assert!(!v.set_handle(TypeTag::Number, 5));
    assert_eq!(v, TaggedValue::null());
    assert!(v.set_handle(TypeTag::Mob, 1234));
    assert_eq!(v.tag, TypeTag::Mob);
    assert_eq!(v.payload, 1234);
}

#[test]
fn equals_compares_tag_and_payload_together() {
    let a = TaggedValue { tag: TypeTag::Number, payload: 1 };
    let b = TaggedValue { tag: TypeTag::Str, payload: 1 };
    let c = TaggedValue { tag: TypeTag::Number, payload: 2 };
    let d = TaggedValue { tag: TypeTag::Number, payload: 1 };
    assert!(!a.equals(&b));
    assert!(!a.equals(&c));
    assert!(a.equals(&d));
}

#[test]
fn number_bits_match_ieee_singles() {
    let cases: [u32; 14] = [
        0, 1, 2, 3, 4, 5, 7, 8, 100, 255, 256, 65535, 0xFF_FFFF, 0x100_0000,
    ];
    for n in cases {
        assert_eq!(number_bits_of_u32(n), (n as f32).to_bits(), "encoding {}", n);
    }
}

#[test]
fn number_bits_round_trip_all_small_ordinals() {
    for n in 0..5000u32 {
        assert_eq!(u32_of_number_bits(number_bits_of_u32(n)), Some(n));
    }
    assert_eq!(
        u32_of_number_bits(number_bits_of_u32(MAX_EXACT_ORDINAL)),
        Some(MAX_EXACT_ORDINAL)
    );
}

#[test]
fn number_bits_reject_non_ordinals() {
    assert_eq!(u32_of_number_bits(2.5f32.to_bits()), None);
    assert_eq!(u32_of_number_bits((-2.0f32).to_bits()), None);
    assert_eq!(u32_of_number_bits((-0.0f32).to_bits()), None);
    assert_eq!(u32_of_number_bits(f32::NAN.to_bits()), None);
    assert_eq!(u32_of_number_bits(f32::INFINITY.to_bits()), None);
    // Just past the exact range.
    assert_eq!(u32_of_number_bits((0x100_0002u32 as f32).to_bits()), None);
    assert_eq!(u32_of_number_bits(0.5f32.to_bits()), None);
}
