use flint::number::{below, count_text, plain_text, whole};

fn chars(s: &str) -> Vec<char> {
    s.chars().collect()
}

fn lt(a: &str, b: &str) -> bool {
    below(&chars(a), &chars(b))
}

#[test]
fn numbers_order_by_value_whatever_their_form() {
    assert!(lt("1", "2"));
    assert!(lt("0.5", "1e0"));
    assert!(lt("-2", "-1.5"));
    assert!(lt("-0.0", "1"));
    assert!(lt("9.99e2", "1000"));
    assert!(!lt("1000", "1e3"));
    assert!(!lt("1e3", "1000.0"));
    assert!(!lt("0.0", "-0.0"));
    assert!(!lt("-0.0", "0"));
    assert!(lt("1.5E-3", "0.0016"));
    assert!(!lt("abc", "1"));
}

#[test]
fn a_number_is_whole_when_nothing_below_the_units_is_written() {
    assert!(whole(&chars("3")));
    assert!(whole(&chars("3.0")));
    assert!(whole(&chars("1.5e1")));
    assert!(whole(&chars("-0.0")));
    assert!(!whole(&chars("3.5")));
    assert!(!whole(&chars("1e-1")));
    assert!(!whole(&chars("x")));
}

#[test]
fn a_count_is_a_whole_number_from_zero_to_two_to_the_sixty_four() {
    assert_eq!(count_text(&chars("7")), Some(7));
    assert_eq!(count_text(&chars("2.0")), Some(2));
    assert_eq!(count_text(&chars("1e3")), Some(1000));
    assert_eq!(count_text(&chars("-0.0")), Some(0));
    assert_eq!(count_text(&chars("-1")), None);
    assert_eq!(count_text(&chars("1.5")), None);
    assert_eq!(count_text(&chars("18446744073709551615")), Some(u64::MAX));
    assert_eq!(count_text(&chars("18446744073709551616")), Some(u64::MAX));
    assert_eq!(count_text(&chars("18446744073709551617")), None);
}

#[test]
fn a_number_reads_in_plain_decimal_as_a_float_displays() {
    let plain = |s: &str| plain_text(&chars(s)).into_iter().collect::<String>();
    assert_eq!(plain("10.0"), "10");
    assert_eq!(plain("1e21"), "1000000000000000000000");
    assert_eq!(plain("1.5e-7"), "0.00000015");
    assert_eq!(plain("-0.0"), "-0");
    assert_eq!(plain("2.50"), "2.5");
    assert_eq!(plain("007"), "7");
    assert_eq!(plain("nope"), "nope");
}
