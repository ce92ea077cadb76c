//! Numbers, sizes, bars and answers.

use macdedup::rounding::percent;
use macdedup::text::{
    confirms, decimal, fmt_count, fmt_n, is_yes, padded_left, padded_right, progress_bar, truncate,
};

fn next_number(state: &mut u64) -> u64 {
    *state = state.wrapping_mul(6364136223846793005).wrapping_add(1442695040888963407);
    let shift: u64 = (*state >> 5) % 64;
    *state >> shift
}

#[test]
fn decimal_of_some_numbers() {
    assert_eq!(decimal(0), "0");
    assert_eq!(decimal(9), "9");
    assert_eq!(decimal(10), "10");
    assert_eq!(decimal(u64::MAX), "18446744073709551615");
}

#[test]
fn thousands_are_separated() {
    assert_eq!(fmt_n(0), "0");
    assert_eq!(fmt_n(999), "999");
    assert_eq!(fmt_n(1_000), "1,000");
    assert_eq!(fmt_n(12_345), "12,345");
    assert_eq!(fmt_n(1_234_567), "1,234,567");
    assert_eq!(fmt_n(u64::MAX), "18,446,744,073,709,551,615");
}

#[test]
fn counts_in_thousands_and_millions() {
    assert_eq!(fmt_count(0), "0");
    assert_eq!(fmt_count(999), "999");
    assert_eq!(fmt_count(1_000), "1.0K");
    assert_eq!(fmt_count(1_500), "1.5K");
    assert_eq!(fmt_count(999_999), "1000.0K");
    assert_eq!(fmt_count(1_000_000), "1.0M");
    assert_eq!(fmt_count(2_560_000), "2.6M");
}

#[test]
fn counts_round_halves_to_even() {
    assert_eq!(fmt_count(1_250), "1.2K");
    assert_eq!(fmt_count(1_750), "1.8K");
    assert_eq!(fmt_count(1_350), "1.4K");
    assert_eq!(fmt_count(1_050), "1.1K");
}

#[test]
fn counts_agree_with_floating_point() {
    let mut state: u64 = 7;
    for i in 0..20_000u64 {
        let n: u64 = if i < 10_000 { i * 50 + 1_000 } else { next_number(&mut state) };
        let expected = if n >= 1_000_000 {
            format!("{:.1}M", n as f64 / 1_000_000.0)
        } else if n >= 1_000 {
            format!("{:.1}K", n as f64 / 1_000.0)
        } else {
            format!("{}", n)
        };
        assert_eq!(fmt_count(n), expected, "{}", n);
    }
}

#[test]
fn percent_of_some_shares() {
    assert_eq!(percent(0, 0), 0);
    assert_eq!(percent(5, 0), 0);
    assert_eq!(percent(0, 7), 0);
    assert_eq!(percent(1, 3), 33);
    assert_eq!(percent(7, 7), 100);
    assert_eq!(percent(9, 7), 100);
    assert_eq!(percent(29, 100), 28);
}

#[test]
fn percent_agrees_with_floating_point() {
    let mut state: u64 = 11;
    for i in 0..40_000u64 {
        let (done, total): (u64, u64) = if i < 20_000 {
            (i % 200, i / 200 + 1)
        } else {
            (next_number(&mut state), next_number(&mut state))
        };
        let expected: u16 = if total > 0 {
            ((done as f64 / total as f64) * 100.0) as u16
        } else {
            0
        };
        assert_eq!(percent(done, total), expected.min(100), "{} of {}", done, total);
    }
}

#[test]
fn padding_on_either_side() {
    assert_eq!(padded_left("7", 3), "  7");
    assert_eq!(padded_left("1234", 3), "1234");
    assert_eq!(padded_right("é", 3), "é  ");
    assert_eq!(padded_right("abcd", 3), "abcd");
}

#[test]
fn long_names_are_cut() {
    assert_eq!(truncate("", 3), "");
    assert_eq!(truncate("ab", 3), "ab");
    assert_eq!(truncate("abc", 3), "abc");
    assert_eq!(truncate("abcd", 3), "abc…");
    assert_eq!(truncate("äöüß", 3), "äöü…");
    assert_eq!(truncate("a", 0), "a");
    assert_eq!(truncate("ab", 0), "a…");
}

#[test]
fn bars_fill_from_the_left() {
    assert_eq!(progress_bar(0), format!("[{}]", "░".repeat(30)));
    assert_eq!(progress_bar(3), format!("[{}]", "░".repeat(30)));
    assert_eq!(progress_bar(4), format!("[█{}]", "░".repeat(29)));
    assert_eq!(progress_bar(50), format!("[{}{}]", "█".repeat(15), "░".repeat(15)));
    assert_eq!(progress_bar(99), format!("[{}░]", "█".repeat(29)));
    assert_eq!(progress_bar(100), format!("[{}]", "█".repeat(30)));
    assert_eq!(progress_bar(250), format!("[{}]", "█".repeat(30)));
}

#[test]
fn only_y_and_yes_are_yes() {
    assert!(is_yes("y"));
    assert!(is_yes("yes"));
    assert!(!is_yes("Y"));
    assert!(!is_yes("ye"));
    assert!(!is_yes(""));
}

#[test]
fn answers_are_trimmed_and_lowered() {
    assert!(confirms("y\n"));
    assert!(confirms("  YES \r\n"));
    assert!(confirms("\tYeS"));
    assert!(confirms("\u{a0}Y\u{2003}"));
    assert!(!confirms("\n"));
    assert!(!confirms("no\n"));
    assert!(!confirms("y es"));
    assert!(!confirms("yess"));
}
