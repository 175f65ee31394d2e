//! Points in time, and text.

use backtrackd::calendar::civil_from_days;
use backtrackd::paths::{from_root, join};
use backtrackd::text::{parse_signed, precedes, split_at_each, trim_white};
use backtrackd::time::{Span, Timestamp};

#[test]
fn times_add_up() {
    let t = Timestamp::new(5, 999_999_999);
    assert_eq!(t.plus(Span::new(1, 1)), Timestamp::from_secs(7));
    assert_eq!(Timestamp::from_secs(0).minus(Span::from_millis(1)), Timestamp::new(-1, 999_000_000));
    assert_eq!(Timestamp::from_secs(7).since(t), Some(Span::new(1, 1)));
    assert_eq!(t.since(Timestamp::from_secs(7)), None);
    assert_eq!(t.saturating_since(Timestamp::from_secs(7)), Span::zero());
    assert_eq!(Timestamp::new(-1, 5).epoch_secs(), 0);
    assert_eq!(t.epoch_secs(), 5);
    assert_eq!(t.subsec_nanos(), 999_999_999);
    assert_eq!(Span::from_millis(1_500).as_secs(), 1);
    assert_eq!(Span::from_secs(9).at_most(Span::from_secs(3)), Span::from_secs(3));
    assert_eq!(Span::from_secs(1).at_least(Span::from_secs(3)), Span::from_secs(3));
    assert_eq!(Span::new(1, 999_999_999).plus(Span::new(1, 2)), Span::new(3, 1));
    assert_eq!(Span::new(3, 1).saturating_minus(Span::new(1, 2)), Span::new(1, 999_999_999));
    assert_eq!(Span::from_secs(1).saturating_minus(Span::from_secs(2)), Span::zero());
    assert_eq!(Span::from_millis(1_500).subsec_nanos(), 500_000_000);
}

#[test]
fn texts_sort_by_their_first_difference() {
    let texts = ["", "a", "a/b", "ab", "b", "\u{e9}"];
    for (i, a) in texts.iter().enumerate() {
        for (j, b) in texts.iter().enumerate() {
            assert_eq!(precedes(a, b), i < j, "{a:?} and {b:?}");
            assert_eq!(precedes(a, b), a < b, "{a:?} and {b:?}");
        }
    }
}

#[test]
fn dates_before_the_epoch_are_dates_too() {
    assert_eq!(civil_from_days(0), (1970, 1, 1));
    assert_eq!(civil_from_days(-1), (1969, 12, 31));
    assert_eq!(civil_from_days(-719_468), (0, 3, 1));
    assert_eq!(civil_from_days(11_016), (2000, 2, 29));
}

#[test]
fn paths_are_put_together() {
    assert_eq!(join("/a", "b"), "/a/b");
    assert_eq!(join("/a/", "b"), "/a/b");
    assert_eq!(join("/a", "/b"), "/b");
    assert_eq!(join("", "b"), "b");
    assert_eq!(from_root("home/k"), "/home/k");
}

#[test]
fn text_is_taken_apart() {
    assert_eq!(split_at_each("a.b..c", '.'), vec!["a", "b", "", "c"]);
    assert_eq!(split_at_each("", '.'), vec![""]);
    assert_eq!(trim_white("\u{2003} a b\t\n"), "a b");
    assert_eq!(parse_signed("-9223372036854775808"), Some(i64::MIN));
    assert_eq!(parse_signed("9223372036854775807"), Some(i64::MAX));
    assert_eq!(parse_signed("9223372036854775808"), None);
    assert_eq!(parse_signed("-+5"), None);
    assert_eq!(parse_signed("-"), None);
    assert_eq!(parse_signed("+5"), Some(5));
    assert_eq!(parse_signed(""), None);
}
