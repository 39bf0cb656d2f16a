use strcursor::pattern::{find_any_of, find_char, find_sub, slice_contains_char, Pattern};
use strcursor::spanner::NoOpSpanner;
use strcursor::StrCursor;

fn chars_of(s: &str) -> Vec<char> {
    s.chars().collect()
}

#[test]
fn char_pattern_finds_first_occurrence() {
    let buf = chars_of("abcabc");
    assert_eq!('b'.find(&buf), Some(1));
    assert_eq!('c'.find(&buf), Some(2));
    assert_eq!('z'.find(&buf), None);
}

#[test]
fn find_char_on_empty_slice() {
    let buf = chars_of("");
    assert_eq!(find_char(&buf, 'a'), None);
}

#[test]
fn str_pattern_is_substring_search() {
    let buf = chars_of("hello world");
    assert_eq!(Pattern::find("world", &buf), Some(6));
    assert_eq!(Pattern::find("lo", &buf), Some(3));
    assert_eq!(Pattern::find("worlds", &buf), None);
    assert_eq!(Pattern::find("", &buf), Some(0));
}

#[test]
fn str_ref_and_string_patterns_agree() {
    let buf = chars_of("hello world");
    let lit = "world";
    assert_eq!((&lit).find(&buf), Some(6));
    let owned = String::from("world");
    assert_eq!((&owned).find(&buf), Some(6));
}

#[test]
fn find_sub_repeated_needle_takes_first() {
    let buf = chars_of("aaab");
    assert_eq!(find_sub(&buf, "aa"), Some(0));
    assert_eq!(find_sub(&buf, "ab"), Some(2));
    assert_eq!(find_sub(&buf, "aaab"), Some(0));
    assert_eq!(find_sub(&buf, "aaaba"), None);
}

#[test]
fn char_set_pattern_matches_any_candidate() {
    let buf = chars_of("xyz");
    let cands = ['q', 'z', 'y'];
    assert_eq!((&cands).find(&buf), Some(1));
    assert_eq!(cands.find(&buf), Some(1));
    let slice: &[char] = &['q', 'w'];
    assert_eq!(slice.find(&buf), None);
}

#[test]
fn find_any_of_first_of_set() {
    let buf = chars_of("one two");
    let cands = chars_of(" o");
    assert_eq!(find_any_of(&buf, &cands), Some(0));
    assert_eq!(find_any_of(&buf, &chars_of("tw")), Some(4));
    assert_eq!(find_any_of(&buf, &chars_of("")), None);
}

#[test]
fn slice_contains_char_reports_membership() {
    let cands = chars_of("abc");
    assert!(slice_contains_char(&cands, 'b'));
    assert!(!slice_contains_char(&cands, 'z'));
}

#[test]
fn predicate_pattern_finds_first_satisfying() {
    let buf = chars_of("abc123");
    let is_digit = |c: char| c.is_ascii_digit();
    assert_eq!(is_digit.find(&buf), Some(3));
    let never = |_c: char| false;
    assert_eq!(never.find(&buf), None);
}

#[test]
fn step_until_with_literal_pattern() {
    let buf = chars_of("name: value");
    let mut c = StrCursor::<NoOpSpanner>::new(&buf);
    let head: String = c.step_until(": ").iter().collect();
    assert_eq!(head, "name");
}

#[test]
fn step_until_with_predicate_pattern() {
    let buf = chars_of("abc123");
    let mut c = StrCursor::<NoOpSpanner>::new(&buf);
    let head: String = c.step_until(|ch: char| ch.is_ascii_digit()).iter().collect();
    assert_eq!(head, "abc");
}

#[test]
fn step_until_with_char_set_pattern() {
    let buf = chars_of("word,next;tail");
    let mut c = StrCursor::<NoOpSpanner>::new(&buf);
    let seps = [',', ';'];
    let head: String = c.step_until(&seps).iter().collect();
    assert_eq!(head, "word");
}
