use myanmar_util::language::{
    drop_stack_markers, explode_patsint, is_killed_stack_at, is_stack_at, kill_stack_markers,
};

fn chars(text: &str) -> Vec<char> {
    text.chars().collect()
}

fn text(chars: &[char]) -> String {
    chars.iter().collect()
}

#[test]
fn stack_marker_between_consonants_becomes_killer_mark() {
    assert_eq!(text(&kill_stack_markers(&chars("က္ခ"))), "က်ခ");
    assert_eq!(kill_stack_markers(&chars("က္ခ")), vec!['\u{1000}', '\u{103A}', '\u{1001}']);
}

#[test]
fn first_rewriting_reaches_every_other_marker_of_a_long_stack() {
    assert_eq!(text(&kill_stack_markers(&chars("က္ခ္ဂ"))), "က်ခ္ဂ");
    assert_eq!(text(&kill_stack_markers(&chars("က္ခ္ဂ္ဃ"))), "က်ခ္ဂ်ဃ");
}

#[test]
fn first_rewriting_leaves_other_stack_markers() {
    assert_eq!(text(&kill_stack_markers(&chars("င်္ဂ"))), "င်္ဂ");
    assert_eq!(text(&kill_stack_markers(&chars("္က"))), "္က");
    assert_eq!(text(&kill_stack_markers(&chars("က္"))), "က္");
    assert_eq!(text(&kill_stack_markers(&chars("က္a"))), "က္a");
    assert_eq!(text(&kill_stack_markers(&chars("a္က"))), "a္က");
    assert_eq!(text(&kill_stack_markers(&chars(""))), "");
}

#[test]
fn second_rewriting_drops_the_marker_after_a_killed_consonant() {
    assert_eq!(text(&drop_stack_markers(&chars("င်္ဂ"))), "င်ဂ");
}

#[test]
fn second_rewriting_drops_the_marker_after_a_plain_consonant() {
    assert_eq!(text(&drop_stack_markers(&chars("က္ခ"))), "ကခ");
    assert_eq!(text(&drop_stack_markers(&chars("က်ခ္ဂ"))), "က်ခဂ");
}

#[test]
fn second_rewriting_leaves_other_stack_markers() {
    assert_eq!(text(&drop_stack_markers(&chars("်္ဂ"))), "်္ဂ");
    assert_eq!(text(&drop_stack_markers(&chars("က်္"))), "က်္");
    assert_eq!(text(&drop_stack_markers(&chars("က္ါ"))), "က္ါ");
    assert_eq!(text(&drop_stack_markers(&chars(""))), "");
}

#[test]
fn second_rewriting_does_not_overlap() {
    // After KA, stack marker, KHA is rewritten, the scan goes on behind KHA:
    // the stack that begins with KHA is not seen.
    assert_eq!(text(&drop_stack_markers(&chars("က္ခ္ဂ"))), "ကခ္ဂ");
}

#[test]
fn exploding_runs_both_rewritings_in_order() {
    assert_eq!(explode_patsint("က္ခ"), "က်ခ");
    assert_eq!(explode_patsint("က္ခ္ဂ"), "က်ခဂ");
    assert_eq!(explode_patsint("က္ခ္ဂ္ဃ"), "က်ခဂ်ဃ");
    assert_eq!(explode_patsint("မင်္ဂလာပါ"), "မင်ဂလာပါ");
    assert_eq!(explode_patsint(""), "");
}

#[test]
fn exploding_leaves_text_without_stacks() {
    assert_eq!(explode_patsint("မြန်မာ hello  world"), "မြန်မာ hello  world");
    assert_eq!(explode_patsint(" \t"), " \t");
}

#[test]
fn stacks_are_found_at_a_position() {
    let t = chars("aက္ခင်္ဂ");
    assert!(!is_stack_at(&t, 0));
    assert!(is_stack_at(&t, 1));
    assert!(!is_stack_at(&t, 2));
    assert!(!is_stack_at(&t, 4));
    assert!(is_killed_stack_at(&t, 4));
    assert!(!is_killed_stack_at(&t, 1));
    assert!(!is_stack_at(&t, 6));
    assert!(!is_stack_at(&t, 8));
    assert!(!is_killed_stack_at(&t, 8));
    assert!(!is_stack_at(&t, 9));
    assert!(!is_killed_stack_at(&t, 100));
}

#[test]
fn exploding_changes_nothing_but_marks() {
    let plain = |text: &str| text.chars().filter(|c| *c != '္' && *c != '်').collect::<String>();
    for line in ["မင်္ဂလာပါ", "သင်္ဘော၊ တက္ကသိုလ်၊ ဗုဒ္ဓ", "က္ခ္ဂ္ဃ", "္်က်္", "a္b က္ ခ"] {
        assert_eq!(plain(&explode_patsint(line)), plain(line));
    }
}
