use xjb::double::C3;
use xjb::{xjb32, xjb64};

fn fmt64(bits: u64) -> String {
    let mut buf = [0xAAu8; 40];
    let len = xjb64(bits, &mut buf);
    String::from_utf8(buf[..len].to_vec()).unwrap()
}

fn fmt32(bits: u32) -> String {
    let mut buf = [0xAAu8; 40];
    let len = xjb32(bits, &mut buf);
    String::from_utf8(buf[..len].to_vec()).unwrap()
}

fn f64_text(x: f64) -> String {
    fmt64(x.to_bits())
}

fn f32_text(x: f32) -> String {
    fmt32(x.to_bits())
}

#[test]
fn double_zero_and_signed_zero() {
    assert_eq!(f64_text(0.0), "0.0");
    assert_eq!(f64_text(-0.0), "-0.0");
}

#[test]
fn double_special_values() {
    assert_eq!(f64_text(f64::INFINITY), "inf");
    assert_eq!(f64_text(f64::NEG_INFINITY), "-inf");
    assert_eq!(f64_text(f64::NAN), "NaN");
    assert_eq!(fmt64(0xFFF8_0000_0000_0000), "-NaN");
}

#[test]
fn double_smallest_subnormals() {
    assert_eq!(fmt64(1), "5e-324");
    assert_eq!(fmt64(0x8000_0000_0000_0001), "-5e-324");
    assert_eq!(fmt64(2), "1e-323");
    assert_eq!(fmt64(3), "1.5e-323");
    assert_eq!(fmt64(100), "4.94e-322");
    assert_eq!(fmt64(1000), "4.94e-321");
    assert_eq!(fmt64(0xF_FFFF_FFFF_FFFF), "2.225073858507201e-308");
}

#[test]
fn double_simple_values() {
    assert_eq!(f64_text(1.0), "1.0");
    assert_eq!(f64_text(-1.0), "-1.0");
    assert_eq!(f64_text(0.1), "0.1");
    assert_eq!(f64_text(0.3), "0.3");
    assert_eq!(f64_text(0.5), "0.5");
    assert_eq!(f64_text(2.0), "2.0");
    assert_eq!(f64_text(5.0), "5.0");
    assert_eq!(f64_text(100.0), "100.0");
    assert_eq!(f64_text(1024.0), "1024.0");
    assert_eq!(f64_text(123.456), "123.456");
    assert_eq!(f64_text(299792458.0), "299792458.0");
    assert_eq!(f64_text(0.1 + 0.2), "0.30000000000000004");
}

#[test]
fn double_full_precision() {
    assert_eq!(f64_text(std::f64::consts::PI), "3.141592653589793");
    assert_eq!(f64_text(f64::MAX), "1.7976931348623157e+308");
    assert_eq!(f64_text(f64::MIN_POSITIVE), "2.2250738585072014e-308");
    assert_eq!(f64_text(9007199254740992.0), "9007199254740992.0");
}

#[test]
fn double_positional_range_edges() {
    assert_eq!(f64_text(1e-7), "1e-7");
    assert_eq!(f64_text(1e-6), "0.000001");
    assert_eq!(f64_text(1e-5), "0.00001");
    assert_eq!(f64_text(0.000001234567890123456), "0.000001234567890123456");
    assert_eq!(f64_text(1e20), "100000000000000000000.0");
    assert_eq!(f64_text(1e21), "1e+21");
    assert_eq!(f64_text(1e22), "1e+22");
    assert_eq!(f64_text(1234567890123456789.0), "1234567890123456800.0");
    assert_eq!(f64_text(123456789012345678901.0), "123456789012345680000.0");
}

#[test]
fn double_scientific() {
    assert_eq!(f64_text(1e100), "1e+100");
    assert_eq!(f64_text(1e-100), "1e-100");
    assert_eq!(f64_text(6.02214076e23), "6.02214076e+23");
    assert_eq!(f64_text(1.602176634e-19), "1.602176634e-19");
}

#[test]
fn double_random_bit_patterns() {
    assert_eq!(fmt64(0xf2a74de452e6b438), "-1.989032661366619e+244");
    assert_eq!(fmt64(0x6513270e269e0d37), "7.761117632285041e+178");
    assert_eq!(fmt64(0x0c5c7fd0a6a3a450), "3.980498358697587e-249");
    assert_eq!(fmt64(0xd23f0824128b2f33), "-1.5432835417340557e+88");
    assert_eq!(fmt64(0x36f675cc81e74ef5), "6.294675241195386e-44");
    assert_eq!(fmt64(0x3d9c172411e20b8f), "6.387016158513563e-12");
    assert_eq!(fmt64(0x8d116ece1738f7d9), "-9.973130378568733e-246");
}

#[test]
fn double_round_trips() {
    let values = [
        0.1, 0.2, 0.3, 1.0 / 3.0, 2.0 / 3.0, 1e-300, 1e300, 123456.789, 4.35, 0.07, 1e15, 1e16,
        1e17, 12345678.9, 5e-310, 1.7e-315,
    ];
    for v in values {
        let text = f64_text(v);
        let back: f64 = text.parse().unwrap();
        assert_eq!(back, v, "{}", text);
        let back_neg: f64 = f64_text(-v).parse().unwrap();
        assert_eq!(back_neg, -v);
    }
}

#[test]
fn double_negative_is_prefixed() {
    for v in [0.1, 1.0, 1e-7, 1e21, 123.456, 5e-324, f64::MAX] {
        assert_eq!(f64_text(-v), format!("-{}", f64_text(v)));
    }
}

#[test]
fn double_text_fits_in_twenty_five_bytes() {
    for v in [
        -0.000001234567890123456,
        -123456789012345678901.0,
        -1.7976931348623157e308,
        -2.2250738585072014e-308,
    ] {
        assert!(f64_text(v).len() <= 25);
    }
}

#[test]
fn double_writes_only_what_it_reports() {
    let mut buf = [0xAAu8; 40];
    let len = xjb64(1.5f64.to_bits(), &mut buf);
    assert_eq!(&buf[..len], b"1.5");
    assert_eq!(buf.len(), 40);
}

#[test]
fn double_sixteen_digit_threshold() {
    assert_eq!(C3, 999_999_999_999_999);
}

#[test]
fn float_zero_and_specials() {
    assert_eq!(f32_text(0.0), "0.0");
    assert_eq!(f32_text(-0.0), "-0.0");
    assert_eq!(f32_text(f32::INFINITY), "inf");
    assert_eq!(f32_text(f32::NEG_INFINITY), "-inf");
    assert_eq!(f32_text(f32::NAN), "NaN");
}

#[test]
fn float_simple_values() {
    assert_eq!(f32_text(1.0), "1.0");
    assert_eq!(f32_text(0.1), "0.1");
    assert_eq!(f32_text(0.3), "0.3");
    assert_eq!(f32_text(123.456), "123.456");
    assert_eq!(f32_text(-2.5), "-2.5");
    assert_eq!(f32_text(100.0), "100.0");
    assert_eq!(f32_text(std::f32::consts::PI), "3.1415927");
    assert_eq!(f32_text(16777216.0), "16777216.0");
    assert_eq!(f32_text(1e10), "10000000000.0");
}

#[test]
fn float_extremes() {
    assert_eq!(f32_text(f32::MAX), "3.4028235e+38");
    assert_eq!(f32_text(f32::MIN_POSITIVE), "1.1754944e-38");
    assert_eq!(fmt32(1), "1e-45");
    assert_eq!(fmt32(5), "7e-45");
}

#[test]
fn float_positional_range_edges() {
    assert_eq!(f32_text(1e-7), "1e-7");
    assert_eq!(f32_text(1e-6), "0.000001");
    assert_eq!(f32_text(1e-10), "1e-10");
    assert_eq!(f32_text(1e20), "100000000000000000000.0");
    assert_eq!(f32_text(1e21), "1e+21");
    assert_eq!(f32_text(1e22), "1e+22");
}

#[test]
fn float_round_trips() {
    let values = [0.1f32, 0.2, 1.0 / 3.0, 1e-30, 1e30, 123456.79, 4.35, 1e-40, 3e-44];
    for v in values {
        let text = f32_text(v);
        let back: f32 = text.parse().unwrap();
        assert_eq!(back, v, "{}", text);
    }
}

#[test]
fn float_negative_is_prefixed() {
    for v in [0.1f32, 1.0, 1e-7, 1e21, 1e-45, f32::MAX] {
        assert_eq!(f32_text(-v), format!("-{}", f32_text(v)));
    }
}

#[test]
fn float_text_fits_in_twenty_four_bytes() {
    for v in [-0.0000012345678f32, -1e20, -3.4028235e38, -1.1754944e-38, -1e-45] {
        assert!(f32_text(v).len() <= 24);
    }
    assert_eq!(f32_text(-1e20), "-100000000000000000000.0");
}

#[test]
fn double_clearing_the_sign_bit_drops_the_minus() {
    for bits in [0x8000_0000_0000_0000u64, 0xBFF0_0000_0000_0000, 0xFFF0_0000_0000_0000, 0x8000_0000_0000_0003] {
        let abs = bits & 0x7FFF_FFFF_FFFF_FFFF;
        assert_eq!(fmt64(bits), format!("-{}", fmt64(abs)));
    }
}

#[test]
fn float_clearing_the_sign_bit_drops_the_minus() {
    for bits in [0x8000_0000u32, 0xBF80_0000, 0xFF80_0000, 0x8000_0003, 0xFFC0_0000] {
        let abs = bits & 0x7FFF_FFFF;
        assert_eq!(fmt32(bits), format!("-{}", fmt32(abs)));
    }
}

#[test]
fn double_needs_no_more_than_thirty_nine_bytes() {
    for v in [-1e20f64, -123456789012345680000.0, -0.000001234567890123456, -1.7976931348623157e308] {
        let mut buf = [0u8; 39];
        let len = xjb64(v.to_bits(), &mut buf);
        assert_eq!(&buf[..len], f64_text(v).as_bytes());
    }
}

#[test]
fn float_needs_no_more_than_thirty_two_bytes() {
    for v in [-1e20f32, -123456790000000000000.0, -0.0000012345678, -3.4028235e38, -1e-45] {
        let mut buf = [0u8; 32];
        let len = xjb32(v.to_bits(), &mut buf);
        assert_eq!(&buf[..len], f32_text(v).as_bytes());
    }
}

#[test]
fn texts_end_with_a_nul_byte() {
    for bits in [0u64, 1, 0x7FF0_0000_0000_0000, 0xFFF8_0000_0000_0000, 0x3FF8_0000_0000_0000, 0x4415_AF1D_78B5_8C40, 0x7FEF_FFFF_FFFF_FFFF, 0x3EB0_C6F7_A0B5_ED8D] {
        let mut buf = [0xAAu8; 39];
        let len = xjb64(bits, &mut buf);
        assert_eq!(buf[len], 0);
    }
    for bits in [0u32, 1, 0x7F80_0000, 0xFFC0_0000, 0x3FC0_0000, 0x60AD_78EC, 0x7F7F_FFFF, 0x3586_37BD] {
        let mut buf = [0xAAu8; 32];
        let len = xjb32(bits, &mut buf);
        assert_eq!(buf[len], 0);
    }
}
