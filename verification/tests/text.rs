use schnorr_nizk::text::decimal_string;

#[test]
fn decimal_string_matches_the_standard_format() {
    for n in [0u32, 1, 9, 10, 11, 99, 100, 101, 10000, 20000, 123456789, 4294967295] {
        assert_eq!(decimal_string(n), format!("{}", n));
    }
    for n in 0..2000u32 {
        assert_eq!(decimal_string(n), format!("{}", n));
    }
}
