use dns_codec::parser::bitshifting::{get_flag, get_lsb, get_lsn, get_msb, get_nth_octal};

#[test]
fn can_get_nth_octal() {
    for i in 1..=4 {
        assert_eq!(get_nth_octal(u32::MAX, i), 255);
        assert_eq!(get_nth_octal(u32::MIN, i), 0);
    }
}

#[test]
fn can_get_least_significant_byte() {
    assert_eq!(get_lsb(u16::MAX), 255);
    assert_eq!(get_lsb(u16::MIN), 0);
}

#[test]
fn can_get_most_significant_byte() {
    assert_eq!(get_msb(u16::MAX), 255);
    assert_eq!(get_msb(u16::MIN), 0);
}

#[test]
fn can_get_low_nibble() {
    assert_eq!(get_lsn(u8::MAX), 15);
    assert_eq!(get_lsn(u8::MIN), 0);
}

#[test]
fn can_get_flag_values_all_set() {
    for i in 0..8 {
        assert_eq!(get_flag(u8::MAX, i), true);
    }
}

#[test]
fn can_get_flag_values_none_set() {
    for i in 0..8 {
        assert_eq!(get_flag(u8::MIN, i), false);
    }
}

#[test]
fn octets_are_counted_from_the_most_significant() {
    assert_eq!(get_nth_octal(0x8EFA474E, 1), 0x8E);
    assert_eq!(get_nth_octal(0x8EFA474E, 2), 0xFA);
    assert_eq!(get_nth_octal(0x8EFA474E, 3), 0x47);
    assert_eq!(get_nth_octal(0x8EFA474E, 4), 0x4E);
}

#[test]
fn bytes_and_nibbles_of_a_mixed_value() {
    assert_eq!(get_msb(0xBED8), 0xBE);
    assert_eq!(get_lsb(0xBED8), 0xD8);
    assert_eq!(get_lsn(0xA7), 0x07);
}

#[test]
fn flags_are_counted_from_the_least_significant_bit() {
    assert_eq!(get_flag(0x81, 0), true);
    assert_eq!(get_flag(0x81, 1), false);
    assert_eq!(get_flag(0x81, 6), false);
    assert_eq!(get_flag(0x81, 7), true);
}
