use myanmar_util::classes::{is_consonant, is_killer_mark, is_stack_marker, is_whitespace};
use myanmar_util::language::{
    break_syllables, create_break_pattern, insert_separators, standalone_ranges, BoundaryPattern,
    CharRange,
};

fn chars(text: &str) -> Vec<char> {
    text.chars().collect()
}

fn text(chars: &[char]) -> String {
    chars.iter().collect()
}

fn matches(line: &str) -> Vec<bool> {
    let pattern = create_break_pattern();
    let line = chars(line);
    (0..line.len()).map(|i| pattern.is_match(&line, i)).collect()
}

#[test]
fn consonant_starts_a_segment() {
    assert_eq!(matches("က"), vec![true]);
    assert_eq!(matches("ကအ"), vec![true, true]);
}

#[test]
fn consonant_before_killer_mark_starts_none() {
    assert_eq!(matches("ကင်"), vec![true, false, false]);
}

#[test]
fn consonant_before_stack_marker_starts_none() {
    assert_eq!(matches("က္"), vec![false, false]);
}

#[test]
fn consonant_after_stack_marker_starts_none() {
    assert_eq!(matches("္ခ"), vec![false, false]);
    assert_eq!(matches("က္ခ"), vec![false, false, false]);
}

#[test]
fn consonant_after_killer_mark_starts_a_segment() {
    assert_eq!(matches("်ခ"), vec![false, true]);
}

#[test]
fn standalone_characters_match_in_any_place() {
    assert_eq!(matches("္a်"), vec![false, true, false]);
    assert_eq!(matches("္ ္"), vec![false, true, false]);
    assert_eq!(matches("္၁္"), vec![false, true, false]);
    assert_eq!(matches("္ဣ်"), vec![false, true, false]);
    assert_eq!(matches("္?်"), vec![false, true, false]);
}

#[test]
fn position_behind_the_text_matches_nothing() {
    let pattern = create_break_pattern();
    assert!(!pattern.is_match(&chars("က"), 1));
    assert!(!pattern.is_match(&chars(""), 0));
}

#[test]
fn pattern_agrees_with_the_classes_on_every_character() {
    let pattern = create_break_pattern();
    for c in (0u32..=0x10FFFF).filter_map(char::from_u32) {
        let latin = c.is_ascii_alphanumeric();
        let punctuation = c.is_ascii_punctuation();
        let other_script = matches!(c, '\u{1023}'..='\u{1027}' | '\u{1029}' | '\u{102A}' | '\u{103F}'
            | '\u{1040}'..='\u{104D}' | '\u{104F}');
        let alone = latin || punctuation || other_script || c.is_whitespace();
        assert_eq!(pattern.is_standalone(c), alone, "{:?}", c);
        assert_eq!(pattern.is_match(&vec![c], 0), alone || is_consonant(c), "{:?}", c);
    }
}

#[test]
fn classes_hold_the_right_characters() {
    for c in (0u32..=0x10FFFF).filter_map(char::from_u32) {
        assert_eq!(is_whitespace(c), c.is_whitespace(), "{:?}", c);
        assert_eq!(is_consonant(c), ('က'..='အ').contains(&c), "{:?}", c);
        assert_eq!(is_stack_marker(c), c == '္', "{:?}", c);
        assert_eq!(is_killer_mark(c), c == '်', "{:?}", c);
    }
    assert!(is_consonant('\u{1000}') && is_consonant('\u{1021}'));
    assert!(!is_consonant('\u{0FFF}') && !is_consonant('\u{1022}'));
}

#[test]
fn standalone_ranges_do_not_hold_consonants_or_marks() {
    for range in standalone_ranges() {
        assert!(range.first <= range.last);
        for c in ['က', 'အ', '္', '်', 'ါ', 'ြ'] {
            assert!(!range.contains(c));
        }
    }
}

#[test]
fn range_holds_its_ends() {
    let range = CharRange { first: 'b', last: 'd' };
    assert!(!range.contains('a'));
    assert!(range.contains('b'));
    assert!(range.contains('c'));
    assert!(range.contains('d'));
    assert!(!range.contains('e'));
}

#[test]
fn separators_go_before_matched_characters() {
    let pattern = create_break_pattern();
    assert_eq!(text(&insert_separators(&chars("ကင်က"), &pattern, &chars("|"))), "|ကင်|က");
    assert_eq!(text(&insert_separators(&chars("ါက"), &pattern, &chars("--"))), "ါ--က");
    assert_eq!(text(&insert_separators(&chars(""), &pattern, &chars("|"))), "");
}

#[test]
fn a_line_is_cut_by_any_pattern() {
    let letters = BoundaryPattern {
        openers: CharRange { first: 'a', last: 'z' },
        stack_marker: '<',
        killer_mark: '>',
        standalone: vec![CharRange { first: '0', last: '9' }],
    };
    assert_eq!(break_syllables("ab<c d>7e", &letters, "/"), "ab<c d>/7/e");
    assert_eq!(break_syllables("7ab", &letters, "/"), "7/a/b");
    assert_eq!(break_syllables("  x  ", &letters, "/"), "x");
    assert_eq!(break_syllables("", &letters, "/"), "");
}

#[test]
fn a_line_is_cut_by_the_syllable_pattern() {
    let pattern = create_break_pattern();
    assert_eq!(break_syllables("မင်္ဂလာပါ", &pattern, "|"), "မင်္ဂ|လာ|ပါ");
    assert_eq!(break_syllables(" မြန်မာ   စာ ", &pattern, "+"), "မြန်+မာ+ +စာ");
}
