use laya_candle::text::{
    chars_of, decimal_text, joined, joined3, replace_all, same_text, text_between, trim_text,
};

#[test]
fn same_text_compares_characters() {
    assert!(same_text("noul", "noul"));
    assert!(!same_text("noul", "Noul"));
    assert!(!same_text("", " "));
}

#[test]
fn characters_come_in_order() {
    assert_eq!(chars_of("a\u{e9}\u{1f600}"), vec!['a', '\u{e9}', '\u{1f600}']);
    let chars = chars_of("abcdef");
    assert_eq!(text_between(&chars, 1, 4), "bcd");
    assert_eq!(text_between(&chars, 6, 6), "");
}

#[test]
fn strings_are_joined() {
    assert_eq!(joined("ab", "cd"), "abcd");
    assert_eq!(joined3("a", "", "c"), "ac");
}

#[test]
fn replacing_goes_from_the_left() {
    assert_eq!(replace_all("aaa", "aa", "b"), "ba");
    assert_eq!(replace_all("convai/laya/x", "/", "--"), "convai--laya--x");
    assert_eq!(replace_all("nothing", "/", "--"), "nothing");
}

#[test]
fn empty_pattern_matches_everywhere() {
    assert_eq!(replace_all("ab", "", "-"), "ab".replace("", "-"));
    assert_eq!(replace_all("", "", "-"), "-");
}

#[test]
fn blanked_pattern_does_not_come_back() {
    assert_eq!(replace_all("[MA[MASK]SK]", "[MASK]", " "), "[MA SK]");
    assert_eq!(replace_all("[MASK][MASK]", "[MASK]", " "), "  ");
    assert!(!replace_all("x[MASK]y[MASK[MASK]", "[MASK]", " ").contains("[MASK]"));
}

#[test]
fn blank_keeps_patterns_apart() {
    let joined = joined3("[MA", " ", "SK]");
    assert!(!joined.contains("[MASK]"));
}

#[test]
fn trimming_takes_white_space_off_both_ends() {
    assert_eq!(trim_text(" \t yes, it is \n"), "yes, it is");
    assert_eq!(trim_text("\u{a0}\u{2003}x\u{3000}"), "x");
    assert_eq!(trim_text(" \r\n "), "");
    assert_eq!(trim_text("\u{b}\u{c}a\u{85}"), "a");
    assert_eq!(trim_text("\u{200b}a"), "\u{200b}a");
}

#[test]
fn decimals_have_no_leading_zeros() {
    assert_eq!(decimal_text(0), "0");
    assert_eq!(decimal_text(7), "7");
    assert_eq!(decimal_text(10), "10");
    assert_eq!(decimal_text(4096), "4096");
    assert_eq!(decimal_text(usize::MAX), format!("{}", usize::MAX));
}

#[test]
fn different_numbers_have_different_digits() {
    let all: Vec<String> = (0..120).map(decimal_text).collect();
    for i in 0..all.len() {
        assert!(!all[i + 1..].contains(&all[i]));
    }
}
