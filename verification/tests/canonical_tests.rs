use pentaract::canonical::{canonicalize, chat_id_canonical, i64_to_dec_string};

#[test]
fn already_canonical_is_a_no_op() {
    assert_eq!(canonicalize(-1001234567890), -1001234567890);
    assert_eq!(canonicalize(-100123456), -100123456);
}

#[test]
fn six_digit_id_is_shifted() {
    // 6 digits: -123456 - 100 * 10^6 == -100123456
    assert_eq!(canonicalize(-123456), -100123456);
}

#[test]
fn single_digit_ids() {
    assert_eq!(canonicalize(5), 5 - 1000);
    assert_eq!(canonicalize(-5), -5 - 1000);
    assert_eq!(canonicalize(0), -1000);
}

#[test]
fn boundary_cases_around_the_canonical_prefix() {
    // "-100" itself already carries the prefix.
    assert_eq!(canonicalize(-100), -100);
    // "-999" does not, and has 3 digits.
    assert_eq!(canonicalize(-999), -999 - 100_000);
    // "-1009" has leading digits 100, so it is already canonical.
    assert_eq!(canonicalize(-1009), -1009);
    // "-99" is one digit short of the prefix.
    assert_eq!(canonicalize(-99), -99 - 10_000);
    // positive ids never carry the prefix, whatever their digits.
    assert_eq!(canonicalize(1001234), 1001234 - 100 * 10_000_000);
}

#[test]
fn canonical_predicate_matches_the_string_rule() {
    assert!(chat_id_canonical(-100));
    assert!(chat_id_canonical(-1001234567890));
    assert!(!chat_id_canonical(-99));
    assert!(!chat_id_canonical(-999));
    assert!(!chat_id_canonical(100123456));
    assert!(!chat_id_canonical(0));
}

#[test]
fn decimal_rendering() {
    assert_eq!(i64_to_dec_string(0), "0");
    assert_eq!(i64_to_dec_string(42), "42");
    assert_eq!(i64_to_dec_string(-100123456), "-100123456");
    assert_eq!(i64_to_dec_string(9007199254740993), "9007199254740993");
}
