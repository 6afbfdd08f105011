use fancy_regex::{NoExpand, Regex};
use myanmar_util::language::{
    create_break_pattern, explode_patsint, syllable_break, SyllableBreakType,
};

const CONSONANTS: &str = "\u{1000}-\u{1021}";
const STACK: &str = "\u{1039}";
const KILLER: &str = "\u{103A}";

fn boundary_regex() -> Regex {
    let latin = "a-zA-Z0-9";
    let other = "ဣဤဥဦဧဩဪဿ၌၍၏၀-၉၊။\\!-\\/\\:-@\\[-`\\{-~\\s";
    let pattern = format!("(?<!{STACK})[{CONSONANTS}](?![{KILLER}{STACK}])|[{latin}{other}]");
    Regex::new(&pattern).unwrap()
}

fn exploded_by_regex(text: &str) -> String {
    let first = Regex::new(&format!("([{CONSONANTS}]){STACK}([{CONSONANTS}])")).unwrap();
    let second = Regex::new(&format!("([{CONSONANTS}]{KILLER}?){STACK}([{CONSONANTS}])")).unwrap();
    let once = first.replace_all(text, format!("${{1}}{KILLER}${{2}}"));
    second.replace_all(&once, "${1}${2}").into_owned()
}

fn segmented_by_regex(boundary: &Regex, text: &str, separator: &str, mode: SyllableBreakType) -> String {
    let text = match mode {
        SyllableBreakType::Phoneme => exploded_by_regex(text),
        SyllableBreakType::Morpheme => text.to_string(),
    };
    let line = text.split_whitespace().collect::<Vec<&str>>().join(" ");
    let mut inserted = String::new();
    let mut last = 0;
    for found in boundary.find_iter(&line) {
        let found = found.unwrap();
        inserted.push_str(&line[last..found.start()]);
        inserted.push_str(separator);
        inserted.push_str(found.as_str());
        last = found.end();
    }
    inserted.push_str(&line[last..]);
    let stripped = match inserted.strip_prefix(separator) {
        Some(rest) => rest.to_string(),
        None => inserted,
    };
    let doubled = format!("{separator}{separator}");
    Regex::new(&fancy_regex::escape(&doubled))
        .unwrap()
        .replace_all(&stripped, NoExpand(" "))
        .into_owned()
}

fn sample(seed: &mut u64, alphabet: &[char], longest: u64) -> String {
    let mut out = String::new();
    *seed = seed.wrapping_mul(6364136223846793005).wrapping_add(1442695040888963407);
    let len = (*seed >> 33) % (longest + 1);
    for _ in 0..len {
        *seed = seed.wrapping_mul(6364136223846793005).wrapping_add(1442695040888963407);
        out.push(alphabet[((*seed >> 33) % alphabet.len() as u64) as usize]);
    }
    out
}

const SENTENCES: [&str; 10] = [
    "မင်္ဂလာပါ",
    "မြန်မာစာ သည် တိဘက်-မြန်မာ ဘာသာစကား ဖြစ်သည်။",
    "ကျွန်တော် Rust 2021 ကို သုံးပါတယ်",
    "သင်္ဘော၊ တက္ကသိုလ်၊ ဗုဒ္ဓ၊ ပစ္စည်း",
    "  leading and   trailing  ",
    "a|b||c",
    "၁၂၃၄ ကျပ် (၅၀%)",
    "ဣန္ဒြေ ဥက္ကဋ္ဌ ဧည့်သည်",
    "\tတစ်\nနှစ်\r\nသုံး\u{3000}လေး",
    "",
];

#[test]
fn sentences_are_cut_as_the_regular_expression_cuts_them() {
    let boundary = boundary_regex();
    for text in SENTENCES {
        for separator in ["|", " ", "--", "||"] {
            for mode in [SyllableBreakType::Morpheme, SyllableBreakType::Phoneme] {
                assert_eq!(
                    syllable_break(text, Some(separator), mode),
                    segmented_by_regex(&boundary, text, separator, mode),
                    "{:?} {:?} {:?}",
                    text,
                    separator,
                    mode
                );
            }
        }
    }
}

#[test]
fn sentences_are_exploded_as_the_regular_expressions_explode_them() {
    for text in SENTENCES {
        assert_eq!(explode_patsint(text), exploded_by_regex(text), "{:?}", text);
    }
}

#[test]
fn random_stacks_are_exploded_as_the_regular_expressions_explode_them() {
    let alphabet = ['က', 'ခ', 'အ', '္', '်', 'ါ', ' ', 'a'];
    let mut seed = 7;
    for _ in 0..3000 {
        let text = sample(&mut seed, &alphabet, 10);
        assert_eq!(explode_patsint(&text), exploded_by_regex(&text), "{:?}", text);
    }
}

#[test]
fn random_texts_are_cut_as_the_regular_expression_cuts_them() {
    let boundary = boundary_regex();
    let alphabet = ['က', 'ခ', 'အ', '္', '်', 'ါ', 'ြ', ' ', '\t', 'a', '7', '|', '-', '။', 'ဣ', 'é'];
    let mut seed = 11;
    for _ in 0..1500 {
        let text = sample(&mut seed, &alphabet, 12);
        for separator in ["|", "--", "-"] {
            for mode in [SyllableBreakType::Morpheme, SyllableBreakType::Phoneme] {
                assert_eq!(
                    syllable_break(&text, Some(separator), mode),
                    segmented_by_regex(&boundary, &text, separator, mode),
                    "{:?} {:?} {:?}",
                    text,
                    separator,
                    mode
                );
            }
        }
    }
}

#[test]
fn every_character_is_matched_where_the_regular_expression_matches_it() {
    let boundary = boundary_regex();
    let pattern = create_break_pattern();
    for c in (0u32..=0x10FFFF).filter_map(char::from_u32) {
        assert_eq!(
            pattern.is_match(&vec![c], 0),
            boundary.is_match(&c.to_string()).unwrap(),
            "{:?}",
            c
        );
    }
}
