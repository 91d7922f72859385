use logix_text::ieee::{double_from, single_from};
use logix_text::value::SupportedTypeBox::{F32, I16, I32, I64, I8, U16, U32, U64, U8};
use logix_text::value::SupportedTypeTag as Tag;
use logix_text::value::{SupportedTypeBox, SupportedTypeTag};

const TAGS: [SupportedTypeTag; 13] = [
    SupportedTypeTag::Bool,
    SupportedTypeTag::I8,
    SupportedTypeTag::U8,
    SupportedTypeTag::I16,
    SupportedTypeTag::U16,
    SupportedTypeTag::I32,
    SupportedTypeTag::U32,
    SupportedTypeTag::I64,
    SupportedTypeTag::U64,
    SupportedTypeTag::F32,
    SupportedTypeTag::F64,
    SupportedTypeTag::String,
    SupportedTypeTag::Impulse,
];

fn samples() -> Vec<SupportedTypeBox> {
    vec![
        SupportedTypeBox::Bool(true),
        SupportedTypeBox::I8(-8),
        SupportedTypeBox::U8(8),
        SupportedTypeBox::I16(-16),
        SupportedTypeBox::U16(16),
        SupportedTypeBox::I32(-32),
        SupportedTypeBox::U32(32),
        SupportedTypeBox::I64(-64),
        SupportedTypeBox::U64(64),
        SupportedTypeBox::F32 { bits: 1.5f32.to_bits() },
        SupportedTypeBox::F64 { bits: 2.5f64.to_bits() },
        SupportedTypeBox::String("s".to_string()),
    ]
}

fn widens(from: Tag, to: Tag) -> bool {
    match from {
        Tag::I8 => matches!(to, Tag::I16 | Tag::I32 | Tag::I64 | Tag::F32 | Tag::F64),
        Tag::U8 => matches!(
            to,
            Tag::I16 | Tag::I32 | Tag::I64 | Tag::U16 | Tag::U32 | Tag::U64 | Tag::F32 | Tag::F64
        ),
        Tag::I16 => matches!(to, Tag::I32 | Tag::I64 | Tag::F32 | Tag::F64),
        Tag::U16 => matches!(
            to,
            Tag::I32 | Tag::I64 | Tag::U32 | Tag::U64 | Tag::F32 | Tag::F64
        ),
        Tag::I32 => matches!(to, Tag::I64 | Tag::F64),
        Tag::U32 => matches!(to, Tag::I64 | Tag::U64 | Tag::F64),
        _ => false,
    }
}

#[test]
fn every_value_has_one_tag() {
    let tags: Vec<SupportedTypeTag> = samples().iter().map(|value| value.tag()).collect();
    assert_eq!(tags, TAGS[..12].to_vec());
}

#[test]
fn cast_is_legal_exactly_on_the_lattice() {
    for value in samples() {
        for target in TAGS {
            let from = value.tag();
            let outcome = value.duplicate().cast(target);
            if from == target {
                assert_eq!(outcome, Ok(value.duplicate()));
            } else if widens(from, target) {
                assert_eq!(outcome.unwrap().tag(), target);
            } else {
                assert_eq!(outcome, Err(value.duplicate()));
            }
        }
    }
}

#[test]
fn cast_between_integer_types_keeps_the_number() {
    assert_eq!(I8(-128).cast(Tag::I16), Ok(I16(-128)));
    assert_eq!(I8(-128).cast(Tag::I32), Ok(I32(-128)));
    assert_eq!(I8(127).cast(Tag::I64), Ok(I64(127)));
    assert_eq!(U8(255).cast(Tag::I16), Ok(I16(255)));
    assert_eq!(U8(255).cast(Tag::I32), Ok(I32(255)));
    assert_eq!(U8(255).cast(Tag::I64), Ok(I64(255)));
    assert_eq!(U8(255).cast(Tag::U16), Ok(U16(255)));
    assert_eq!(U8(255).cast(Tag::U32), Ok(U32(255)));
    assert_eq!(U8(200).cast(Tag::U64), Ok(U64(200)));
    assert_eq!(I16(-32768).cast(Tag::I32), Ok(I32(-32768)));
    assert_eq!(I16(32767).cast(Tag::I64), Ok(I64(32767)));
    assert_eq!(U16(65535).cast(Tag::I32), Ok(I32(65535)));
    assert_eq!(U16(65535).cast(Tag::I64), Ok(I64(65535)));
    assert_eq!(U16(65535).cast(Tag::U32), Ok(U32(65535)));
    assert_eq!(U16(65535).cast(Tag::U64), Ok(U64(65535)));
    assert_eq!(I32(i32::MIN).cast(Tag::I64), Ok(I64(i32::MIN as i64)));
    assert_eq!(U32(u32::MAX).cast(Tag::I64), Ok(I64(u32::MAX as i64)));
    assert_eq!(U32(u32::MAX).cast(Tag::U64), Ok(U64(u32::MAX as u64)));
    assert_eq!(I8(1).cast(Tag::U8), Err(I8(1)));
    assert_eq!(U8(1).cast(Tag::I8), Err(U8(1)));
    assert_eq!(I16(1).cast(Tag::U32), Err(I16(1)));
    assert_eq!(I32(1).cast(Tag::U64), Err(I32(1)));
    assert_eq!(I64(1).cast(Tag::U64), Err(I64(1)));
    assert_eq!(U64(1).cast(Tag::I64), Err(U64(1)));
    assert_eq!(I64(1).cast(Tag::F64), Err(I64(1)));
    assert_eq!(U32(1).cast(Tag::F32), Err(U32(1)));
    assert_eq!(
        F32 { bits: 0 }.cast(Tag::F64),
        Err(F32 { bits: 0 })
    );
}

#[test]
fn cast_to_floating_point_gives_the_bits_of_the_number() {
    for n in [0i32, 1, -1, 2, 3, 127, -128, 200, 255, -32768, 32767, 65535] {
        let wide = match n {
            -128..=127 => SupportedTypeBox::I8(n as i8),
            0..=255 => SupportedTypeBox::U8(n as u8),
            -32768..=32767 => SupportedTypeBox::I16(n as i16),
            _ => SupportedTypeBox::U16(n as u16),
        };
        match wide.duplicate().cast(SupportedTypeTag::F32) {
            Ok(SupportedTypeBox::F32 { bits }) => assert_eq!(f32::from_bits(bits), n as f32),
            other => panic!("unexpected outcome: {other:?}"),
        }
        match wide.cast(SupportedTypeTag::F64) {
            Ok(SupportedTypeBox::F64 { bits }) => assert_eq!(f64::from_bits(bits), n as f64),
            other => panic!("unexpected outcome: {other:?}"),
        }
    }
    for n in [i32::MIN, -1, 0, 1, 16_777_217, i32::MAX] {
        match SupportedTypeBox::I32(n).cast(SupportedTypeTag::F64) {
            Ok(SupportedTypeBox::F64 { bits }) => assert_eq!(f64::from_bits(bits), n as f64),
            other => panic!("unexpected outcome: {other:?}"),
        }
    }
    match SupportedTypeBox::U32(u32::MAX).cast(SupportedTypeTag::F64) {
        Ok(SupportedTypeBox::F64 { bits }) => assert_eq!(f64::from_bits(bits), u32::MAX as f64),
        other => panic!("unexpected outcome: {other:?}"),
    }
}

#[test]
fn single_from_gives_the_bits_of_every_small_integer() {
    assert_eq!(single_from(0), 0);
    assert_eq!(single_from(1), 0x3F80_0000);
    assert_eq!(single_from(-2), 0xC000_0000);
    assert_eq!(single_from(200), 0x4348_0000);
    for n in -70_000i32..70_000 {
        assert_eq!(single_from(n), (n as f32).to_bits());
    }
    for n in [0xFF_FFFFi32, -0xFF_FFFF, 0x80_0000, 0x7F_FFFF, -0x80_0001] {
        assert_eq!(single_from(n), (n as f32).to_bits());
    }
}

#[test]
fn double_from_gives_the_bits_of_every_integer_of_53_bits() {
    assert_eq!(double_from(0), 0);
    assert_eq!(double_from(1), 0x3FF0_0000_0000_0000);
    assert_eq!(double_from(-2), 0xC000_0000_0000_0000);
    for n in -70_000i64..70_000 {
        assert_eq!(double_from(n), (n as f64).to_bits());
    }
    for n in [
        i32::MIN as i64,
        i32::MAX as i64,
        u32::MAX as i64,
        0x1F_FFFF_FFFF_FFFF,
        -0x1F_FFFF_FFFF_FFFF,
        0x10_0000_0000_0000,
        0xF_FFFF_FFFF_FFFF,
    ] {
        assert_eq!(double_from(n), (n as f64).to_bits());
    }
}

#[test]
fn getters_give_the_payload_of_their_type_only() {
    let text = SupportedTypeBox::String("s".to_string());
    assert_eq!(text.get_string(), Some(&"s".to_string()));
    assert_eq!(text.get_i32(), None);
    let number = SupportedTypeBox::I32(3);
    assert_eq!(number.get_i32(), Some(3));
    assert_eq!(number.get_string(), None);
    assert_eq!(SupportedTypeBox::I64(3).get_i32(), None);
}

#[test]
fn duplicate_copies_the_value() {
    for value in samples() {
        assert_eq!(value.duplicate(), value);
    }
}
