//! Texts, numbers and orders of records.

use aureus::numbers::{
    parse_integer, print_integer, print_natural, print_padded, saturating_difference,
    saturating_sum,
};
use aureus::order::{arrange, ascending_distinct, select, SortKey};
use aureus::text::{
    chars_of, contains_part, ends_with, is_only_blank, is_sorted_before, same_letters, same_text,
    split, split_words, starts_with, strip_front, text_of, to_lower, to_upper, trim,
};

#[test]
fn letters_are_compared_without_case() {
    assert!(same_letters("vfv.to", "VFV.TO"));
    assert!(same_letters("", ""));
    assert!(!same_letters("VFV", "VFV.TO"));
    assert!(!same_letters("é", "É"));
    assert!(same_text("é", "é"));
    assert!(!same_text("a", "A"));
}

#[test]
fn equal_letters_have_equal_capitals() {
    assert!(same_letters("Brk.b", "bRK.B"));
    assert_eq!(to_upper("Brk.b"), to_upper("bRK.B"));
    assert_eq!(to_upper("Brk.b é"), "BRK.B é");
    assert_eq!(to_lower("BRK.B É"), "brk.b É");
}

#[test]
fn trimming_twice_changes_nothing_more() {
    let once = trim(" \t\u{a0}a b\u{3000}\n");
    assert_eq!(once, "a b");
    assert_eq!(trim(&once), once);
    assert_eq!(trim("  "), "");
    assert!(is_only_blank(" \u{2003}"));
    assert!(is_only_blank(""));
    assert!(!is_only_blank(" x"));
}

#[test]
fn parts_of_a_text_are_found() {
    assert!(contains_part("buy vfv.to", "vfv"));
    assert!(contains_part("abc", ""));
    assert!(!contains_part("abc", "abd"));
    assert!(starts_with("position-7", "position-"));
    assert!(!starts_with("pos", "position-"));
    assert!(ends_with("3|VFV.TO", "|VFV.TO"));
    assert!(!ends_with("TO", "VFV.TO"));
    assert_eq!(strip_front("position-7", "position-").as_deref(), Some("7"));
    assert_eq!(strip_front("account-7", "position-"), None);
}

#[test]
fn a_text_is_split_at_every_separator() {
    assert_eq!(split("2024-02-29", '-'), vec!["2024", "02", "29"]);
    assert_eq!(split("-", '-'), vec!["", ""]);
    assert_eq!(split("", '-'), vec![""]);
    assert_eq!(split_words("  buy \t vfv.to "), vec!["buy", "vfv.to"]);
    assert!(split_words(" \n").is_empty());
}

#[test]
fn texts_are_ordered_by_code_point() {
    assert!(is_sorted_before("AAPL", "MSFT"));
    assert!(is_sorted_before("A", "AA"));
    assert!(!is_sorted_before("AA", "AA"));
    assert!(!is_sorted_before("a", "Z"));
}

#[test]
fn characters_make_up_a_text_again() {
    let chars = chars_of("C$1,234");
    assert_eq!(chars.len(), 7);
    assert_eq!(text_of(&chars, 2, 7), "1,234");
}

#[test]
fn printed_integers_read_back() {
    for n in [0, 7, -7, 1_000, i64::MAX, i64::MIN] {
        assert_eq!(parse_integer(&print_integer(n), true), Some(n));
    }
    assert_eq!(print_natural(u64::MAX), "18446744073709551615");
    assert_eq!(print_integer(i64::MIN), "-9223372036854775808");
}

#[test]
fn numbers_are_padded_with_zeros() {
    assert_eq!(print_padded(7, 2), "07");
    assert_eq!(print_padded(2024, 4), "2024");
    assert_eq!(print_padded(12_345, 4), "12345");
    assert_eq!(print_padded(-5, 4), "-005");
    assert_eq!(parse_integer(&print_padded(42, 6), false), Some(42));
}

#[test]
fn integers_are_read_as_they_are_written() {
    assert_eq!(parse_integer("+12", true), Some(12));
    assert_eq!(parse_integer("007", false), Some(7));
    assert_eq!(parse_integer("", true), None);
    assert_eq!(parse_integer("-", true), None);
    assert_eq!(parse_integer("+", true), None);
    assert_eq!(parse_integer("-3", false), None);
    assert_eq!(parse_integer("3 ", true), None);
    assert_eq!(parse_integer("9223372036854775808", true), None);
    assert_eq!(parse_integer("-9223372036854775808", true), Some(i64::MIN));
}

#[test]
fn sums_stop_at_the_limits() {
    assert_eq!(saturating_difference(5, 7), -2);
    assert_eq!(saturating_difference(i64::MAX, -1), i64::MAX);
    assert_eq!(saturating_difference(i64::MIN, 1), i64::MIN);
    assert_eq!(saturating_sum(i64::MAX, 1), i64::MAX);
    assert_eq!(saturating_sum(2, 3), 5);
}

fn key(first: i128, second: i128) -> SortKey {
    SortKey { first, second, third: 0 }
}

#[test]
fn equal_keys_keep_their_order() {
    let keep = vec![true, true, false, true, true];
    let keys = vec![key(2, 0), key(1, 5), key(0, 0), key(1, 5), key(1, 4)];
    assert_eq!(arrange(&keep, &keys), vec![4, 1, 3, 0]);
    assert_eq!(select(&keep), vec![0, 1, 3, 4]);
}

#[test]
fn times_are_listed_once() {
    assert_eq!(ascending_distinct(&vec![3, -1, 3, 2]), vec![-1, 2, 3]);
    assert!(ascending_distinct(&vec![]).is_empty());
}
