use qoi::opcode::Opcode;
use qoi::DecodeError;

#[test]
fn literal_tags_are_told_apart_by_the_whole_byte() {
    assert_eq!(Opcode::from_tag(0xfe), Ok(Opcode::Rgb));
    assert_eq!(Opcode::from_tag(0xff), Ok(Opcode::Rgba));
}

#[test]
fn prefix_00_is_a_cache_lookup() {
    assert_eq!(Opcode::from_tag(0x00), Ok(Opcode::Index { index: 0 }));
    assert_eq!(Opcode::from_tag(0x05), Ok(Opcode::Index { index: 5 }));
    assert_eq!(Opcode::from_tag(0x3f), Ok(Opcode::Index { index: 63 }));
}

#[test]
fn prefix_01_is_a_small_delta_of_three_two_bit_fields() {
    assert_eq!(Opcode::from_tag(0x40), Ok(Opcode::Diff { dr: 0, dg: 0, db: 0 }));
    assert_eq!(Opcode::from_tag(0x7f), Ok(Opcode::Diff { dr: 3, dg: 3, db: 3 }));
    assert_eq!(Opcode::from_tag(0b0110_0111), Ok(Opcode::Diff { dr: 2, dg: 1, db: 3 }));
    assert_eq!(Opcode::from_tag(0b0100_1110), Ok(Opcode::Diff { dr: 0, dg: 3, db: 2 }));
}

#[test]
fn prefix_10_is_a_luma_delta() {
    assert_eq!(Opcode::from_tag(0x80), Ok(Opcode::Luma { dg: 0 }));
    assert_eq!(Opcode::from_tag(0xa0), Ok(Opcode::Luma { dg: 32 }));
    assert_eq!(Opcode::from_tag(0xbf), Ok(Opcode::Luma { dg: 63 }));
}

#[test]
fn prefix_11_is_a_run_of_the_field_plus_one() {
    assert_eq!(Opcode::from_tag(0xc0), Ok(Opcode::Run { length: 1 }));
    assert_eq!(Opcode::from_tag(0xc2), Ok(Opcode::Run { length: 3 }));
    assert_eq!(Opcode::from_tag(0xfd), Ok(Opcode::Run { length: 62 }));
}

#[test]
fn every_tag_selects_an_opcode() {
    for tag in 0..=255u8 {
        let op = Opcode::from_tag(tag);
        assert!(op.is_ok(), "tag {} selects no opcode", tag);
        match op {
            Ok(Opcode::Index { index }) => assert!(index < 64),
            Ok(Opcode::Diff { dr, dg, db }) => assert!(dr < 4 && dg < 4 && db < 4),
            Ok(Opcode::Luma { dg }) => assert!(dg < 64),
            Ok(Opcode::Run { length }) => assert!(1 <= length && length <= 62),
            Ok(Opcode::Rgb) => assert_eq!(tag, 0xfe),
            Ok(Opcode::Rgba) => assert_eq!(tag, 0xff),
            Err(_) => unreachable!(),
        }
    }
}

#[test]
fn no_tag_is_unknown() {
    for tag in 0..=255u8 {
        assert_ne!(Opcode::from_tag(tag), Err(DecodeError::UnknownTag(tag)));
    }
}

#[test]
fn an_index_field_of_64_or_more_is_illegal() {
    assert_eq!(Opcode::index(0), Ok(Opcode::Index { index: 0 }));
    assert_eq!(Opcode::index(63), Ok(Opcode::Index { index: 63 }));
    assert_eq!(Opcode::index(64), Err(DecodeError::IllegalIndex(64)));
    assert_eq!(Opcode::index(255), Err(DecodeError::IllegalIndex(255)));
}

#[test]
fn a_run_field_of_62_or_more_is_illegal() {
    assert_eq!(Opcode::run(0), Ok(Opcode::Run { length: 1 }));
    assert_eq!(Opcode::run(61), Ok(Opcode::Run { length: 62 }));
    assert_eq!(Opcode::run(62), Err(DecodeError::IllegalRunLength(62)));
    assert_eq!(Opcode::run(63), Err(DecodeError::IllegalRunLength(63)));
    assert_eq!(Opcode::run(255), Err(DecodeError::IllegalRunLength(255)));
}
