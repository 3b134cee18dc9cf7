use xjb::bytes::{copy_within, fill, read_u64_le, write_u32_le, write_u64_le};
use xjb::digits::{to_ascii16, to_ascii8};
use xjb::double::decimal_double;
use xjb::single::decimal_float;
use xjb::tables::{
    e10_variable_data, exp_result_double, exp_result_float, h37, h7, pow10_double,
    pow10_float_reverse,
};

#[test]
fn power_of_ten_table_for_doubles() {
    assert_eq!(pow10_double(293), (0x8000_0000_0000_0000, 0));
    assert_eq!(pow10_double(294), (0xA000_0000_0000_0000, 0));
    assert_eq!(pow10_double(292), (0xCCCC_CCCC_CCCC_CCCC, 0xCCCC_CCCC_CCCC_CCCD));
    assert_eq!(pow10_double(320), (0xCECB_8F27_F420_0F3A, 0));
    assert_eq!(pow10_double(321), (0x813F_3978_F894_0984, 0x4000_0000_0000_0000));
    assert_eq!(pow10_double(0), (0xCC5F_C196_FEFD_7D0C, 0x1E53_ED49_A962_72C9));
    assert_eq!(pow10_double(616), (0xFCF6_2C1D_EE38_2C42, 0x4672_9E03_DD9E_D7B6));
}

#[test]
fn power_of_ten_table_for_floats() {
    assert_eq!(pow10_float_reverse(44), 0x8000_0000_0000_0000);
    assert_eq!(pow10_float_reverse(45), 0xCCCC_CCCC_CCCC_CCCD);
    assert_eq!(pow10_float_reverse(0), 0x8F7E_32CE_7BEA_5C70);
    assert_eq!(pow10_float_reverse(12), 0x9DC5_ADA8_2B70_B59E);
    assert_eq!(pow10_float_reverse(76), 0xCFB1_1EAD_4539_94BB);
}

#[test]
fn shift_tables() {
    assert_eq!(h7(0), 8);
    assert_eq!(h7(1), 8);
    assert_eq!(h7(1023), 7);
    assert_eq!(h7(1075), 6);
    assert_eq!(h7(2046), 7);
    assert_eq!(h7(2047), 8);
    assert_eq!(h37(0), 34);
    assert_eq!(h37(1), 34);
    assert_eq!(h37(127), 33);
    assert_eq!(h37(150), 33);
    assert_eq!(h37(254), 34);
    assert_eq!(h37(255), 35);
}

#[test]
fn exponent_suffixes_for_doubles() {
    assert_eq!(exp_result_double(-324), 0x0500_0034_3233_2D65);
    assert_eq!(exp_result_double(-7), 0x0300_0000_0037_2D65);
    assert_eq!(exp_result_double(21), 0x0400_0000_3132_2B65);
    assert_eq!(exp_result_double(100), 0x0500_0030_3031_2B65);
    assert_eq!(exp_result_double(308), 0x0500_0038_3033_2B65);
    assert_eq!(exp_result_double(-6), 0);
    assert_eq!(exp_result_double(0), 0);
    assert_eq!(exp_result_double(20), 0);
}

#[test]
fn exponent_suffixes_for_floats() {
    assert_eq!(exp_result_float(-45), 0x3534_2D65);
    assert_eq!(exp_result_float(-10), 0x3031_2D65);
    assert_eq!(exp_result_float(-9), 0x0039_2D65);
    assert_eq!(exp_result_float(-7), 0x0037_2D65);
    assert_eq!(exp_result_float(21), 0x3132_2B65);
    assert_eq!(exp_result_float(38), 0x3833_2B65);
    assert_eq!(exp_result_float(-6), 0);
    assert_eq!(exp_result_float(20), 0);
}

#[test]
fn layout_rows() {
    assert_eq!(e10_variable_data(0, 0), (7, 1, 1, 1));
    assert_eq!(e10_variable_data(0, 16), (7, 1, 1, 17));
    assert_eq!(e10_variable_data(5, 3), (2, 1, 1, 4));
    assert_eq!(e10_variable_data(6, 0), (0, 1, 2, 3));
    assert_eq!(e10_variable_data(6, 5), (0, 1, 2, 7));
    assert_eq!(e10_variable_data(26, 0), (0, 21, 22, 23));
    assert_eq!(e10_variable_data(26, 16), (0, 21, 22, 23));
    assert_eq!(e10_variable_data(27, 0), (0, 1, 2, 1));
    assert_eq!(e10_variable_data(27, 16), (0, 1, 2, 18));
}

#[test]
fn sixteen_digits_to_ascii() {
    let mut buf = [0u8; 40];
    let s = to_ascii16(&mut buf, 4, 1234567890123456, 0, 1);
    assert_eq!(s.ascii16, (0x3837_3635_3433_3231, 0x3635_3433_3231_3039));
    assert_eq!(s.dec_sig_len, 16);
    assert_eq!(&buf[4..36], &[48u8; 32][..]);
    assert_eq!(&buf[..4], &[0u8; 4][..]);
    let s = to_ascii16(&mut buf, 0, 1234567890123456, 1, 1);
    assert_eq!(s.dec_sig_len, 15);
    let s = to_ascii16(&mut buf, 0, 1000000000000000, 1, 1);
    assert_eq!(s.ascii16, (0x3030_3030_3030_3031, 0x3030_3030_3030_3030));
    assert_eq!(s.dec_sig_len, 0);
    let s = to_ascii16(&mut buf, 0, 1200000000000000, 1, 0);
    assert_eq!(s.dec_sig_len, 1);
    let s = to_ascii16(&mut buf, 0, 0, 1, 0);
    assert_eq!(s.ascii16, (0x3030_3030_3030_3030, 0x3030_3030_3030_3030));
    assert_eq!(s.dec_sig_len, 0);
}

#[test]
fn eight_digits_to_ascii() {
    let s = to_ascii8(12345678, 0, 0);
    assert_eq!((s.ascii, s.dec_sig_len), (0x3837_3635_3433_3231, 8));
    let s = to_ascii8(12345000, 1, 0);
    assert_eq!((s.ascii, s.dec_sig_len), (0x3030_3035_3433_3231, 4));
    let s = to_ascii8(1234560, 1, 1);
    assert_eq!((s.ascii, s.dec_sig_len), (0x3030_3635_3433_3231, 5));
    let s = to_ascii8(120000, 1, 2);
    assert_eq!((s.ascii, s.dec_sig_len), (0x3030_3030_3030_3231, 1));
    let s = to_ascii8(99999, 0, 2);
    assert_eq!((s.ascii, s.dec_sig_len), (0x3030_3939_3939_3930, 6));
}

#[test]
fn scaling_step_for_doubles() {
    let d = decimal_double(None, 0x3FF0_0000_0000_0000);
    assert_eq!((d.m_up, d.up_down, d.one, d.k), (1000000000000000, 1, 0, -16));
    let d = decimal_double(None, 0x3FB9_9999_9999_999A);
    assert_eq!((d.m_up, d.up_down, d.one, d.k), (1000000000000000, 1, 1, -17));
    let d = decimal_double(None, 0x405E_DD2F_1A9F_BE77);
    assert_eq!((d.m_up, d.up_down, d.one, d.k), (1234560000000000, 1, 0, -14));
    let d = decimal_double(None, 3);
    assert_eq!((d.m_up, d.up_down, d.one, d.k), (1, 0, 5, -324));
    let d = decimal_double(None, 2);
    assert_eq!((d.m_up, d.up_down, d.one, d.k), (1, 1, 10, -324));
    let d = decimal_double(None, 0x7E37_E43C_8800_759C);
    assert_eq!((d.m_up, d.up_down, d.one, d.k), (1000000000000000, 1, 1, 284));
    let d = decimal_double(None, 0x43B0_0000_0000_0000);
    assert_eq!((d.m_up, d.up_down, d.one, d.k), (1152921504606847, 1, 10, 2));
}

#[test]
fn scaling_step_for_floats() {
    let d = decimal_float(None, 0x3F80_0000);
    assert_eq!((d.m_up, d.up_down, d.one, d.k), (10000000, 1, 48, -8));
    let d = decimal_float(None, 0x3DCC_CCCD);
    assert_eq!((d.m_up, d.up_down, d.one, d.k), (10000000, 1, 48, -9));
    let d = decimal_float(None, 0x42F6_E979);
    assert_eq!((d.m_up, d.up_down, d.one, d.k), (12345600, 1, 48, -6));
    let d = decimal_float(None, 3);
    assert_eq!((d.m_up, d.up_down, d.one, d.k), (0, 0, 0x3034, -45));
    let d = decimal_float(None, 0x5380_0000);
    assert_eq!((d.m_up, d.up_down, d.one, d.k), (10995116, 1, 48, 4));
    let d = decimal_float(None, 0x7F7F_FFFF);
    assert_eq!((d.m_up, d.up_down, d.one, d.k), (3402823, 0, 0x3035, 31));
}

#[test]
fn word_reads_and_writes() {
    let mut buf = [0u8; 16];
    write_u64_le(&mut buf, 3, 0x0102_0304_0506_0708);
    assert_eq!(&buf[..12], &[0, 0, 0, 8, 7, 6, 5, 4, 3, 2, 1, 0]);
    assert_eq!(read_u64_le(&buf, 3), 0x0102_0304_0506_0708);
    assert_eq!(read_u64_le(&buf, 4), 0x0001_0203_0405_0607);
    write_u32_le(&mut buf, 0, 0x4E61_4E00);
    assert_eq!(&buf[..5], &[0x00, 0x4E, 0x61, 0x4E, 7]);
    fill(&mut buf, 10, 6, 48);
    assert_eq!(&buf[10..], &[48u8; 6][..]);
    let mut w = [1u8, 2, 3, 4, 5, 6, 7, 8];
    copy_within(&mut w, 0, 2, 5);
    assert_eq!(w, [1, 2, 1, 2, 3, 4, 5, 8]);
    let mut w = [1u8, 2, 3, 4, 5, 6, 7, 8];
    copy_within(&mut w, 3, 1, 4);
    assert_eq!(w, [1, 4, 5, 6, 7, 6, 7, 8]);
}

fn text_decimal(t: &str) -> (u128, i64) {
    let t = t.strip_prefix('-').unwrap_or(t);
    let (m, x) = match t.find('e') {
        Some(p) => (&t[..p], t[p + 1..].parse::<i64>().unwrap()),
        None => (t, 0),
    };
    let (digits, frac) = match m.find('.') {
        Some(p) => (format!("{}{}", &m[..p], &m[p + 1..]), (m.len() - p - 1) as i64),
        None => (m.to_string(), 0),
    };
    normalize(digits.parse::<u128>().unwrap(), x - frac)
}

fn normalize(mut n: u128, mut x: i64) -> (u128, i64) {
    while n != 0 && n % 10 == 0 {
        n /= 10;
        x += 1;
    }
    (n, x)
}

#[test]
fn double_text_spells_the_scaled_decimal() {
    for bits in [
        0x3FF0_0000_0000_0000u64,
        0x3FB9_9999_9999_999A,
        0x405E_DD2F_1A9F_BE77,
        3,
        2,
        0x7E37_E43C_8800_759C,
        0x43B0_0000_0000_0000,
        0x7FEF_FFFF_FFFF_FFFF,
        0xC009_21FB_5444_2D18,
    ] {
        let d = decimal_double(None, bits);
        let expected = if d.up_down != 0 {
            normalize(d.m_up as u128, d.k + 1)
        } else {
            normalize(10 * d.m_up as u128 + d.one as u128, d.k)
        };
        let mut buf = [0u8; 39];
        let len = xjb::xjb64(bits, &mut buf);
        let text = std::str::from_utf8(&buf[..len]).unwrap();
        assert_eq!(text_decimal(text), expected, "{}", text);
    }
}

#[test]
fn float_text_spells_the_scaled_decimal() {
    for bits in [0x3F80_0000u32, 0x3DCC_CCCD, 0x42F6_E979, 3, 0x5380_0000, 0x7F7F_FFFF, 0xC049_0FDB] {
        let d = decimal_float(None, bits);
        let expected = if d.up_down != 0 {
            normalize(d.m_up as u128, d.k + 1)
        } else {
            normalize(10 * d.m_up as u128 + (d.one as u8 - 48) as u128, d.k)
        };
        let mut buf = [0u8; 32];
        let len = xjb::xjb32(bits, &mut buf);
        let text = std::str::from_utf8(&buf[..len]).unwrap();
        assert_eq!(text_decimal(text), expected, "{}", text);
    }
}

#[test]
fn tables_computed_once_match_the_entries() {
    let d = xjb::Pow10Double::new();
    for n in [0usize, 1, 100, 292, 293, 294, 320, 321, 500, 616] {
        assert_eq!(d.get(n), pow10_double(n));
    }
    let f = xjb::Pow10Float::new();
    for i in [0usize, 1, 12, 44, 45, 60, 76] {
        assert_eq!(f.get(i), pow10_float_reverse(i));
    }
}

#[test]
fn formatting_with_tables_matches() {
    let d = xjb::Pow10Double::new();
    let f = xjb::Pow10Float::new();
    for bits in [1u64, 2, 3, 0x3FF0_0000_0000_0000, 0x7FEF_FFFF_FFFF_FFFF, 0x4415_AF1D_78B5_8C40, 0x8000_0000_0000_0000, 0xC009_21FB_5444_2D18] {
        let mut a = [0u8; 39];
        let mut b = [0u8; 39];
        let la = xjb::xjb64(bits, &mut a);
        let lb = xjb::xjb64_with_table(&d, bits, &mut b);
        assert_eq!(&a[..=la], &b[..=lb]);
    }
    for bits in [1u32, 3, 0x3F80_0000, 0x7F7F_FFFF, 0x60AD_78EC, 0x8000_0000, 0xC049_0FDB] {
        let mut a = [0u8; 32];
        let mut b = [0u8; 32];
        let la = xjb::xjb32(bits, &mut a);
        let lb = xjb::xjb32_with_table(&f, bits, &mut b);
        assert_eq!(&a[..=la], &b[..=lb]);
    }
}

#[test]
fn no_table_entry_is_the_largest_word() {
    let d = xjb::Pow10Double::new();
    for n in 0..617 {
        let (hi, _) = d.get(n);
        assert_ne!(hi, u64::MAX);
        assert!(hi >= 0x8000_0000_0000_0000);
    }
    let f = xjb::Pow10Float::new();
    for i in 0..77 {
        assert_ne!(f.get(i), u64::MAX);
    }
}

#[test]
fn bytes_past_the_scratch_area_are_left_alone() {
    for bits in [0u64, 1, 0x7FF0_0000_0000_0000, 0xC415_AF1D_78B5_8C40, 0xBEB0_C6F7_A0B5_ED8D] {
        let mut buf = [0xA5u8; 48];
        xjb::xjb64(bits, &mut buf);
        assert!(buf[39..].iter().all(|&b| b == 0xA5));
    }
    for bits in [0u32, 1, 0x7F80_0000, 0xE0AD_78EC, 0xB586_37BD] {
        let mut buf = [0xA5u8; 40];
        xjb::xjb32(bits, &mut buf);
        assert!(buf[32..].iter().all(|&b| b == 0xA5));
    }
}
