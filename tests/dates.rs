use one_thing::date::{day_after, day_before, month_length, Date};
use one_thing::text::{push_decimal, str_less};

fn d(year: u32, month: u8, day: u8) -> Date {
    Date { year, month, day }
}

#[test]
fn month_lengths_follow_leap_years() {
    assert_eq!(month_length(2024, 2), 29);
    assert_eq!(month_length(2023, 2), 28);
    assert_eq!(month_length(1900, 2), 28);
    assert_eq!(month_length(2000, 2), 29);
    assert_eq!(month_length(2023, 4), 30);
    assert_eq!(month_length(2023, 12), 31);
}

#[test]
fn next_and_previous_day() {
    assert_eq!(day_after(d(2024, 2, 28)), d(2024, 2, 29));
    assert_eq!(day_after(d(2024, 2, 29)), d(2024, 3, 1));
    assert_eq!(day_after(d(2023, 12, 31)), d(2024, 1, 1));
    assert_eq!(day_before(d(2024, 3, 1)), d(2024, 2, 29));
    assert_eq!(day_before(d(2024, 1, 1)), d(2023, 12, 31));
    assert_eq!(day_before(d(2024, 5, 20)), d(2024, 5, 19));
    assert!(d(2024, 1, 31).is_before(&d(2024, 2, 1)));
    assert!(!d(2024, 2, 1).is_before(&d(2024, 2, 1)));
}

#[test]
fn decimal_and_byte_order() {
    let mut s = String::from("n=");
    push_decimal(&mut s, 4294967295);
    assert_eq!(s, "n=4294967295");
    let mut z = String::new();
    push_decimal(&mut z, 0);
    assert_eq!(z, "0");
    assert!(str_less("", "a"));
    assert!(str_less("ab", "b"));
    assert!(str_less("Zed", "apple"));
    assert!(!str_less("abc", "abc"));
    assert!(str_less("abc", "abcd"));
    assert!(!str_less("é", "z"));
}
