use sonata::conv::{FromSample, clamp_u8, clamp_i8, clamp_u16, clamp_i16, clamp_u32, clamp_i32};
use sonata::sample::{Sample, u24, i24};

#[test]
fn test_clipping() {
    assert_eq!(clamp_u8(256u16),   u8::MAX);
    assert_eq!(clamp_u8(u16::MAX), u8::MAX);

    assert_eq!(clamp_i8(  128i16), i8::MAX);
    assert_eq!(clamp_i8( -129i16), i8::MIN);
    assert_eq!(clamp_i8(i16::MAX), i8::MAX);
    assert_eq!(clamp_i8(i16::MIN), i8::MIN);

    assert_eq!(clamp_u16(65536u32), u16::MAX);
    assert_eq!(clamp_u16(u32::MAX), u16::MAX);

    assert_eq!(clamp_i16( 32_768i32), i16::MAX);
    assert_eq!(clamp_i16(-32_769i32), i16::MIN);
    assert_eq!(clamp_i16(  i32::MAX), i16::MAX);
    assert_eq!(clamp_i16(  i32::MIN), i16::MIN);

    assert_eq!(clamp_u32(4_294_967_296u64), u32::MAX);
    assert_eq!(clamp_u32(        u64::MAX), u32::MAX);

    assert_eq!(clamp_i32( 2_147_483_648i64), i32::MAX);
    assert_eq!(clamp_i32(-2_147_483_649i64), i32::MIN);
    assert_eq!(clamp_i32(         i64::MAX), i32::MAX);
    assert_eq!(clamp_i32(         i64::MIN), i32::MIN);
}

#[test]
fn verify_u8_from_sample() {
    assert_eq!(u8::from_sample(u8::MAX), u8::MAX);
    assert_eq!(u8::from_sample(u8::mid()), u8::mid());
    assert_eq!(u8::from_sample(u8::MIN), u8::MIN);

    assert_eq!(u8::from_sample(u16::MAX), u8::MAX);
    assert_eq!(u8::from_sample(u16::mid()), u8::mid());
    assert_eq!(u8::from_sample(u16::MIN), u8::MIN);

    assert_eq!(u8::from_sample(u24::max_value()), u8::MAX);
    assert_eq!(u8::from_sample(u24::mid()), u8::mid());
    assert_eq!(u8::from_sample(u24::min_value()), u8::MIN);

    assert_eq!(u8::from_sample(u32::MAX), u8::MAX);
    assert_eq!(u8::from_sample(u32::mid()), u8::mid());
    assert_eq!(u8::from_sample(u32::MIN), u8::MIN);

    assert_eq!(u8::from_sample(i8::MAX), u8::MAX);
    assert_eq!(u8::from_sample(i8::mid()), u8::mid());
    assert_eq!(u8::from_sample(i8::MIN), u8::MIN);

    assert_eq!(u8::from_sample(i16::MAX), u8::MAX);
    assert_eq!(u8::from_sample(i16::mid()), u8::mid());
    assert_eq!(u8::from_sample(i16::MIN), u8::MIN);

    assert_eq!(u8::from_sample(i24::max_value()), u8::MAX);
    assert_eq!(u8::from_sample(i24::mid()), u8::mid());
    assert_eq!(u8::from_sample(i24::min_value()), u8::MIN);

    assert_eq!(u8::from_sample(i32::MAX), u8::MAX);
    assert_eq!(u8::from_sample(i32::mid()), u8::mid());
    assert_eq!(u8::from_sample(i32::MIN), u8::MIN);

}

#[test]
fn verify_u16_from_sample() {
    assert_eq!(u16::from_sample(u8::MAX), u16::MAX - 255);
    assert_eq!(u16::from_sample(u8::mid()), u16::mid());
    assert_eq!(u16::from_sample(u8::MIN), u16::MIN);

    assert_eq!(u16::from_sample(u16::MAX), u16::MAX);
    assert_eq!(u16::from_sample(u16::mid()), u16::mid());
    assert_eq!(u16::from_sample(u16::MIN), u16::MIN);

    assert_eq!(u16::from_sample(u24::max_value()), u16::MAX);
    assert_eq!(u16::from_sample(u24::mid()), u16::mid());
    assert_eq!(u16::from_sample(u24::min_value()), u16::MIN);

    assert_eq!(u16::from_sample(u32::MAX), u16::MAX);
    assert_eq!(u16::from_sample(u32::mid()), u16::mid());
    assert_eq!(u16::from_sample(u32::MIN), u16::MIN);

    assert_eq!(u16::from_sample(i8::MAX), u16::MAX - 255);
    assert_eq!(u16::from_sample(i8::mid()), u16::mid());
    assert_eq!(u16::from_sample(i8::MIN), u16::MIN);

    assert_eq!(u16::from_sample(i16::MAX), u16::MAX);
    assert_eq!(u16::from_sample(i16::mid()), u16::mid());
    assert_eq!(u16::from_sample(i16::MIN), u16::MIN);

    assert_eq!(u16::from_sample(i24::max_value()), u16::MAX);
    assert_eq!(u16::from_sample(i24::mid()), u16::mid());
    assert_eq!(u16::from_sample(i24::min_value()), u16::MIN);

    assert_eq!(u16::from_sample(i32::MAX), u16::MAX);
    assert_eq!(u16::from_sample(i32::mid()), u16::mid());
    assert_eq!(u16::from_sample(i32::MIN), u16::MIN);

}

#[test]
fn verify_u24_from_sample() {
    assert_eq!(u24::from_sample(u8::MAX), u24::max_value() - u24::from(65_535u32));
    assert_eq!(u24::from_sample(u8::mid()), u24::mid());
    assert_eq!(u24::from_sample(u8::MIN), u24::min_value());

    assert_eq!(u24::from_sample(u16::MAX), u24::max_value() - u24::from(255u32));
    assert_eq!(u24::from_sample(u16::mid()), u24::mid());
    assert_eq!(u24::from_sample(u16::MIN), u24::min_value());

    assert_eq!(u24::from_sample(u24::max_value()), u24::max_value());
    assert_eq!(u24::from_sample(u24::mid()), u24::mid());
    assert_eq!(u24::from_sample(u24::min_value()), u24::min_value());

    assert_eq!(u24::from_sample(u32::MAX), u24::max_value());
    assert_eq!(u24::from_sample(u32::mid()), u24::mid());
    assert_eq!(u24::from_sample(u32::MIN), u24::min_value());

    assert_eq!(u24::from_sample(i8::MAX), u24::max_value() - u24::from(65_535u32));
    assert_eq!(u24::from_sample(i8::mid()), u24::mid());
    assert_eq!(u24::from_sample(i8::MIN), u24::min_value());

    assert_eq!(u24::from_sample(i16::MAX), u24::max_value() - u24::from(255u32));
    assert_eq!(u24::from_sample(i16::mid()), u24::mid());
    assert_eq!(u24::from_sample(i16::MIN), u24::min_value());

    assert_eq!(u24::from_sample(i24::max_value()), u24::max_value());
    assert_eq!(u24::from_sample(i24::mid()), u24::mid());
    assert_eq!(u24::from_sample(i24::min_value()), u24::min_value());

    assert_eq!(u24::from_sample(i32::MAX), u24::max_value());
    assert_eq!(u24::from_sample(i32::mid()), u24::mid());
    assert_eq!(u24::from_sample(i32::MIN), u24::min_value());

}

#[test]
fn verify_u32_from_sample() {
    assert_eq!(u32::from_sample(u8::MAX), u32::MAX - 16_777_215);
    assert_eq!(u32::from_sample(u8::mid()), u32::mid());
    assert_eq!(u32::from_sample(u8::MIN), u32::MIN);

    assert_eq!(u32::from_sample(u16::MAX), u32::MAX - 65_535);
    assert_eq!(u32::from_sample(u16::mid()), u32::mid());
    assert_eq!(u32::from_sample(u16::MIN), u32::MIN);

    assert_eq!(u32::from_sample(u24::max_value()), u32::MAX - 255);
    assert_eq!(u32::from_sample(u24::mid()), u32::mid());
    assert_eq!(u32::from_sample(u24::min_value()), u32::MIN);

    assert_eq!(u32::from_sample(u32::MAX), u32::MAX);
    assert_eq!(u32::from_sample(u32::mid()), u32::mid());
    assert_eq!(u32::from_sample(u32::MIN), u32::MIN);

    assert_eq!(u32::from_sample(i8::MAX), u32::MAX - 16_777_215);
    assert_eq!(u32::from_sample(i8::mid()), u32::mid());
    assert_eq!(u32::from_sample(i8::MIN), u32::MIN);

    assert_eq!(u32::from_sample(i16::MAX), u32::MAX - 65_535);
    assert_eq!(u32::from_sample(i16::mid()), u32::mid());
    assert_eq!(u32::from_sample(i16::MIN), u32::MIN);

    assert_eq!(u32::from_sample(i24::max_value()), u32::MAX - 255);
    assert_eq!(u32::from_sample(i24::mid()), u32::mid());
    assert_eq!(u32::from_sample(i24::min_value()), u32::MIN);

    assert_eq!(u32::from_sample(i32::MAX), u32::MAX);
    assert_eq!(u32::from_sample(i32::mid()), u32::mid());
    assert_eq!(u32::from_sample(i32::MIN), u32::MIN);

}

#[test]
fn verify_i8_from_sample() {
    assert_eq!(i8::from_sample(u8::MAX), i8::MAX);
    assert_eq!(i8::from_sample(u8::mid()), i8::mid());
    assert_eq!(i8::from_sample(u8::MIN), i8::MIN);

    assert_eq!(i8::from_sample(u16::MAX), i8::MAX);
    assert_eq!(i8::from_sample(u16::mid()), i8::mid());
    assert_eq!(i8::from_sample(u16::MIN), i8::MIN);

    assert_eq!(i8::from_sample(u24::max_value()), i8::MAX);
    assert_eq!(i8::from_sample(u24::mid()), i8::mid());
    assert_eq!(i8::from_sample(u24::min_value()), i8::MIN);

    assert_eq!(i8::from_sample(u32::MAX), i8::MAX);
    assert_eq!(i8::from_sample(u32::mid()), i8::mid());
    assert_eq!(i8::from_sample(u32::MIN), i8::MIN);

    assert_eq!(i8::from_sample(i8::MAX), i8::MAX);
    assert_eq!(i8::from_sample(i8::mid()), i8::mid());
    assert_eq!(i8::from_sample(i8::MIN), i8::MIN);

    assert_eq!(i8::from_sample(i16::MAX), i8::MAX);
    assert_eq!(i8::from_sample(i16::mid()), i8::mid());
    assert_eq!(i8::from_sample(i16::MIN), i8::MIN);

    assert_eq!(i8::from_sample(i24::max_value()), i8::MAX);
    assert_eq!(i8::from_sample(i24::mid()), i8::mid());
    assert_eq!(i8::from_sample(i24::min_value()), i8::MIN);

    assert_eq!(i8::from_sample(i32::MAX), i8::MAX);
    assert_eq!(i8::from_sample(i32::mid()), i8::mid());
    assert_eq!(i8::from_sample(i32::MIN), i8::MIN);

}

#[test]
fn verify_i16_from_sample() {
    assert_eq!(i16::from_sample(u8::MAX), i16::MAX - 255);
    assert_eq!(i16::from_sample(u8::mid()), i16::mid());
    assert_eq!(i16::from_sample(u8::MIN), i16::MIN);

    assert_eq!(i16::from_sample(u16::MAX), i16::MAX);
    assert_eq!(i16::from_sample(u16::mid()), i16::mid());
    assert_eq!(i16::from_sample(u16::MIN), i16::MIN);

    assert_eq!(i16::from_sample(u24::max_value()), i16::MAX);
    assert_eq!(i16::from_sample(u24::mid()), i16::mid());
    assert_eq!(i16::from_sample(u24::min_value()), i16::MIN);

    assert_eq!(i16::from_sample(u32::MAX), i16::MAX);
    assert_eq!(i16::from_sample(u32::mid()), i16::mid());
    assert_eq!(i16::from_sample(u32::MIN), i16::MIN);

    assert_eq!(i16::from_sample(i8::MAX), i16::MAX - 255);
    assert_eq!(i16::from_sample(i8::mid()), i16::mid());
    assert_eq!(i16::from_sample(i8::MIN), i16::MIN);

    assert_eq!(i16::from_sample(i16::MAX), i16::MAX);
    assert_eq!(i16::from_sample(i16::mid()), i16::mid());
    assert_eq!(i16::from_sample(i16::MIN), i16::MIN);

    assert_eq!(i16::from_sample(i24::max_value()), i16::MAX);
    assert_eq!(i16::from_sample(i24::mid()), i16::mid());
    assert_eq!(i16::from_sample(i24::min_value()), i16::MIN);

    assert_eq!(i16::from_sample(i32::MAX), i16::MAX);
    assert_eq!(i16::from_sample(i32::mid()), i16::mid());
    assert_eq!(i16::from_sample(i32::MIN), i16::MIN);

}

#[test]
fn verify_i24_from_sample() {
    assert_eq!(i24::from_sample(u8::MAX), i24::max_value() - i24::from(65_535));
    assert_eq!(i24::from_sample(u8::mid()), i24::mid());
    assert_eq!(i24::from_sample(u8::MIN), i24::min_value());

    assert_eq!(i24::from_sample(u16::MAX), i24::max_value() - i24::from(255));
    assert_eq!(i24::from_sample(u16::mid()), i24::mid());
    assert_eq!(i24::from_sample(u16::MIN), i24::min_value());

    assert_eq!(i24::from_sample(u24::max_value()), i24::max_value());
    assert_eq!(i24::from_sample(u24::mid()), i24::mid());
    assert_eq!(i24::from_sample(u24::min_value()), i24::min_value());

    assert_eq!(i24::from_sample(u32::MAX), i24::max_value());
    assert_eq!(i24::from_sample(u32::mid()), i24::mid());
    assert_eq!(i24::from_sample(u32::MIN), i24::min_value());

    assert_eq!(i24::from_sample(i8::MAX), i24::max_value() - i24::from(65_535));
    assert_eq!(i24::from_sample(i8::mid()), i24::mid());
    assert_eq!(i24::from_sample(i8::MIN), i24::min_value());

    assert_eq!(i24::from_sample(i16::MAX), i24::max_value() - i24::from(255));
    assert_eq!(i24::from_sample(i16::mid()), i24::mid());
    assert_eq!(i24::from_sample(i16::MIN), i24::min_value());

    assert_eq!(i24::from_sample(i24::max_value()), i24::max_value());
    assert_eq!(i24::from_sample(i24::mid()), i24::mid());
    assert_eq!(i24::from_sample(i24::min_value()), i24::min_value());

    assert_eq!(i24::from_sample(i32::MAX), i24::max_value());
    assert_eq!(i24::from_sample(i32::mid()), i24::mid());
    assert_eq!(i24::from_sample(i32::MIN), i24::min_value());

}

#[test]
fn verify_i32_from_sample() {
    assert_eq!(i32::from_sample(u8::MAX), i32::MAX - 16_777_215);
    assert_eq!(i32::from_sample(u8::mid()), i32::mid());
    assert_eq!(i32::from_sample(u8::MIN), i32::MIN);

    assert_eq!(i32::from_sample(u16::MAX), i32::MAX - 65_535);
    assert_eq!(i32::from_sample(u16::mid()), i32::mid());
    assert_eq!(i32::from_sample(u16::MIN), i32::MIN);

    assert_eq!(i32::from_sample(u24::max_value()), i32::MAX - 255);
    assert_eq!(i32::from_sample(u24::mid()), i32::mid());
    assert_eq!(i32::from_sample(u24::min_value()), i32::MIN);

    assert_eq!(i32::from_sample(u32::MAX), i32::MAX);
    assert_eq!(i32::from_sample(u32::mid()), i32::mid());
    assert_eq!(i32::from_sample(u32::MIN), i32::MIN);

    assert_eq!(i32::from_sample(i8::MAX), i32::MAX - 16_777_215);
    assert_eq!(i32::from_sample(i8::mid()), i32::mid());
    assert_eq!(i32::from_sample(i8::MIN), i32::MIN);

    assert_eq!(i32::from_sample(i16::MAX), i32::MAX - 65_535);
    assert_eq!(i32::from_sample(i16::mid()), i32::mid());
    assert_eq!(i32::from_sample(i16::MIN), i32::MIN);

    assert_eq!(i32::from_sample(i24::max_value()), i32::MAX - 255);
    assert_eq!(i32::from_sample(i24::mid()), i32::mid());
    assert_eq!(i32::from_sample(i24::min_value()), i32::MIN);

    assert_eq!(i32::from_sample(i32::MAX), i32::MAX);
    assert_eq!(i32::from_sample(i32::mid()), i32::mid());
    assert_eq!(i32::from_sample(i32::MIN), i32::MIN);

}
