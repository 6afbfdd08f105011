//! The syllable rule of Myanmar script: where a segment starts, how stacked
//! consonants are taken apart, and how a text is cut at its segment starts.

use crate::classes::{
    consonant, is_consonant, is_killer_mark, is_stack_marker, killer_mark, stack_marker,
    standalone, KILLER_MARK, SPACE, STACK_MARKER,
};
use crate::text::{
    normalize_whitespace, normalized, push_all, replace_all, replaced, strip_prefix, to_chars,
    to_text, without_prefix,
};
use vstd::prelude::*;

verus! {

/// How stacked consonants are treated when a text is segmented.
#[derive(Clone, Copy, Debug, PartialEq, Eq, Structural)]
pub enum SyllableBreakType {
    /// Stacks are taken apart first, so that a stacked consonant opens a
    /// segment of its own.
    Phoneme,
    /// Stacks stay as they are written, inside one segment.
    Morpheme,
}

/// An inclusive range of characters.
#[derive(Clone, Copy, Debug)]
pub struct CharRange {
    pub first: char,
    pub last: char,
}

impl CharRange {
    /// Whether `c` lies in the range.
    pub open spec fn holds(self, c: char) -> bool {
        self.first <= c <= self.last
    }

    #[verifier::when_used_as_spec(holds)]
    pub fn contains(self, c: char) -> (b: bool)
        ensures
            b == self.holds(c),
    {
        self.first <= c && c <= self.last
    }
}

/// Whether one of the ranges holds `c`.
pub open spec fn in_ranges(ranges: Seq<CharRange>, c: char) -> bool {
    exists|k: int| 0 <= k < ranges.len() && (#[trigger] ranges[k]).holds(c)
}

/// A matcher for the characters that start a segment.
///
/// It matches one character at a time. A character of `standalone` matches
/// wherever it stands. A character of `openers` matches unless `stack_marker`
/// stands directly before it, or `killer_mark` or `stack_marker` directly
/// after it.
#[derive(Debug)]
pub struct BoundaryPattern {
    pub openers: CharRange,
    pub stack_marker: char,
    pub killer_mark: char,
    pub standalone: Vec<CharRange>,
}

impl BoundaryPattern {
    /// Whether the pattern matches the character at position `i` of `text`.
    pub open spec fn matches(&self, text: Seq<char>, i: int) -> bool {
        &&& 0 <= i < text.len()
        &&& {
            ||| in_ranges(self.standalone@, text[i])
            ||| {
                &&& self.openers.holds(text[i])
                &&& !(i > 0 && text[i - 1] == self.stack_marker)
                &&& !(i + 1 < text.len() && (text[i + 1] == self.killer_mark || text[i + 1]
                    == self.stack_marker))
            }
        }
    }

    /// For each position of `text`, whether the pattern matches there.
    pub open spec fn marks(&self, text: Seq<char>) -> Seq<bool> {
        Seq::new(text.len(), |i: int| self.matches(text, i))
    }

    /// Whether one of the standalone ranges holds `c`.
    pub fn is_standalone(&self, c: char) -> (b: bool)
        ensures
            b == in_ranges(self.standalone@, c),
    {
        let mut k: usize = 0;
        while k < self.standalone.len()
            invariant
                k <= self.standalone.len(),
                forall|j: int| 0 <= j < k ==> !(#[trigger] self.standalone@[j]).holds(c),
            decreases self.standalone.len() - k,
        {
            if self.standalone[k].contains(c) {
                return true;
            }
            k += 1;
        }
        false
    }

    /// Tests the character at position `i` of `text`.
    pub fn is_match(&self, text: &Vec<char>, i: usize) -> (b: bool)
        ensures
            b == self.matches(text@, i as int),
    {
        if i >= text.len() {
            return false;
        }
        let c = text[i];
        if self.is_standalone(c) {
            return true;
        }
        if !self.openers.contains(c) {
            return false;
        }
        if i > 0 && text[i - 1] == self.stack_marker {
            return false;
        }
        if i < text.len() - 1 {
            let next = text[i + 1];
            if next == self.killer_mark || next == self.stack_marker {
                return false;
            }
        }
        true
    }
}

/// Whether the character at position `i` of `text` starts a segment: it is a
/// standalone character, or a consonant that is neither stacked beneath the
/// character before it nor killed or stacked upon by the character after it.
pub open spec fn segment_start(text: Seq<char>, i: int) -> bool {
    &&& 0 <= i < text.len()
    &&& {
        ||| standalone(text[i])
        ||| {
            &&& consonant(text[i])
            &&& !(i > 0 && stack_marker(text[i - 1]))
            &&& !(i + 1 < text.len() && (killer_mark(text[i + 1]) || stack_marker(text[i + 1])))
        }
    }
}

/// For each position of `text`, whether a segment starts there.
pub open spec fn segment_starts(text: Seq<char>) -> Seq<bool> {
    Seq::new(text.len(), |i: int| segment_start(text, i))
}

/// The ranges of the characters that always start a segment: ASCII letters
/// and digits, the script's own vowels, digits and signs, ASCII punctuation,
/// and whitespace.
pub fn standalone_ranges() -> (ranges: Vec<CharRange>)
    ensures
        forall|c: char| in_ranges(ranges@, c) == standalone(c),
{
    let ranges = vec![
        CharRange { first: 'a', last: 'z' },
        CharRange { first: 'A', last: 'Z' },
        CharRange { first: '0', last: '9' },
        CharRange { first: '\u{1023}', last: '\u{1027}' },
        CharRange { first: '\u{1029}', last: '\u{102A}' },
        CharRange { first: '\u{103F}', last: '\u{103F}' },
        CharRange { first: '\u{1040}', last: '\u{104D}' },
        CharRange { first: '\u{104F}', last: '\u{104F}' },
        CharRange { first: '!', last: '/' },
        CharRange { first: ':', last: '@' },
        CharRange { first: '[', last: '`' },
        CharRange { first: '{', last: '~' },
        CharRange { first: '\u{0009}', last: '\u{000D}' },
        CharRange { first: '\u{0020}', last: '\u{0020}' },
        CharRange { first: '\u{0085}', last: '\u{0085}' },
        CharRange { first: '\u{00A0}', last: '\u{00A0}' },
        CharRange { first: '\u{1680}', last: '\u{1680}' },
        CharRange { first: '\u{2000}', last: '\u{200A}' },
        CharRange { first: '\u{2028}', last: '\u{2029}' },
        CharRange { first: '\u{202F}', last: '\u{202F}' },
        CharRange { first: '\u{205F}', last: '\u{205F}' },
        CharRange { first: '\u{3000}', last: '\u{3000}' },
    ];
    ranges
}

/// The matcher of the Myanmar syllable rule. It matches exactly where a
/// segment starts.
pub fn create_break_pattern() -> (pattern: BoundaryPattern)
    ensures
        forall|text: Seq<char>, i: int| #[trigger] pattern.matches(text, i) == segment_start(text, i),
        forall|text: Seq<char>| #[trigger] pattern.marks(text) == segment_starts(text),
{
    BoundaryPattern {
        openers: CharRange { first: '\u{1000}', last: '\u{1021}' },
        stack_marker: STACK_MARKER,
        killer_mark: KILLER_MARK,
        standalone: standalone_ranges(),
    }
}

/// Whether the text begins with a stack: consonant, stack marker, consonant.
pub open spec fn stack_ahead(s: Seq<char>) -> bool {
    &&& s.len() >= 3
    &&& consonant(s[0])
    &&& stack_marker(s[1])
    &&& consonant(s[2])
}

/// Whether the text begins with a stack upon a killed consonant: consonant,
/// killer mark, stack marker, consonant.
pub open spec fn killed_stack_ahead(s: Seq<char>) -> bool {
    &&& s.len() >= 4
    &&& consonant(s[0])
    &&& killer_mark(s[1])
    &&& stack_marker(s[2])
    &&& consonant(s[3])
}

/// The first rewriting of stacks: in every stack the stack marker becomes a
/// killer mark. Stacks are taken from the left and do not overlap, so in a
/// stack of three consonants only the first marker is reached.
pub open spec fn killed(s: Seq<char>) -> Seq<char>
    decreases s.len(),
{
    if s.len() == 0 {
        s
    } else if stack_ahead(s) {
        seq![s[0], KILLER_MARK, s[2]] + killed(s.skip(3))
    } else {
        seq![s[0]] + killed(s.skip(1))
    }
}

/// The second rewriting of stacks: in every stack that is left, upon a plain
/// or a killed consonant, the stack marker is dropped. Stacks are taken from
/// the left and do not overlap.
pub open spec fn unstacked(s: Seq<char>) -> Seq<char>
    decreases s.len(),
{
    if s.len() == 0 {
        s
    } else if killed_stack_ahead(s) {
        seq![s[0], s[1], s[3]] + unstacked(s.skip(4))
    } else if stack_ahead(s) {
        seq![s[0], s[2]] + unstacked(s.skip(3))
    } else {
        seq![s[0]] + unstacked(s.skip(1))
    }
}

/// The text with its stacks taken apart: the first rewriting, then the
/// second.
pub open spec fn exploded(s: Seq<char>) -> Seq<char> {
    unstacked(killed(s))
}

/// The characters of a text that are neither stack markers nor killer marks,
/// in order: what taking stacks apart leaves alone.
pub open spec fn without_marks(s: Seq<char>) -> Seq<char> {
    s.filter(|c: char| !stack_marker(c) && !killer_mark(c))
}

/// Whether a stack begins at position `i`. Behind the end of the text none
/// does.
pub fn is_stack_at(s: &Vec<char>, i: usize) -> (b: bool)
    ensures
        b == (i <= s.len() && stack_ahead(s@.skip(i as int))),
{
    i <= s.len() && s.len() - i >= 3 && is_consonant(s[i]) && is_stack_marker(s[i + 1]) && is_consonant(s[i + 2])
}

/// Whether a stack upon a killed consonant begins at position `i`. Behind
/// the end of the text none does.
pub fn is_killed_stack_at(s: &Vec<char>, i: usize) -> (b: bool)
    ensures
        b == (i <= s.len() && killed_stack_ahead(s@.skip(i as int))),
{
    i <= s.len() && s.len() - i >= 4 && is_consonant(s[i]) && is_killer_mark(s[i + 1]) && is_stack_marker(
        s[i + 2],
    ) && is_consonant(s[i + 3])
}

/// Replaces the stack marker of every stack by a killer mark.
pub fn kill_stack_markers(s: &Vec<char>) -> (out: Vec<char>)
    ensures
        out@ == killed(s@),
{
    let mut out: Vec<char> = Vec::new();
    let mut i: usize = 0;
    assert(s@.skip(0) == s@);
    while i < s.len()
        invariant
            i <= s.len(),
            out@ + killed(s@.skip(i as int)) == killed(s@),
        decreases s.len() - i,
    {
        let ghost rest = s@.skip(i as int);
        if is_stack_at(s, i) {
            assert(rest.skip(3) == s@.skip(i + 3));
            out.push(s[i]);
            out.push(KILLER_MARK);
            out.push(s[i + 2]);
            i += 3;
        } else {
            assert(rest.skip(1) == s@.skip(i + 1));
            out.push(s[i]);
            i += 1;
        }
    }
    out
}

/// Drops the stack marker of every stack, upon a plain or a killed
/// consonant.
pub fn drop_stack_markers(s: &Vec<char>) -> (out: Vec<char>)
    ensures
        out@ == unstacked(s@),
{
    let mut out: Vec<char> = Vec::new();
    let mut i: usize = 0;
    assert(s@.skip(0) == s@);
    while i < s.len()
        invariant
            i <= s.len(),
            out@ + unstacked(s@.skip(i as int)) == unstacked(s@),
        decreases s.len() - i,
    {
        let ghost rest = s@.skip(i as int);
        if is_killed_stack_at(s, i) {
            assert(rest.skip(4) == s@.skip(i + 4));
            out.push(s[i]);
            out.push(s[i + 1]);
            out.push(s[i + 3]);
            i += 4;
        } else if is_stack_at(s, i) {
            assert(rest.skip(3) == s@.skip(i + 3));
            out.push(s[i]);
            out.push(s[i + 2]);
            i += 3;
        } else {
            assert(rest.skip(1) == s@.skip(i + 1));
            out.push(s[i]);
            i += 1;
        }
    }
    out
}

/// Takes the stacks of a text apart, so that each stacked consonant can
/// start a segment: first every stack marker between two consonants becomes
/// a killer mark, then every stack marker that is left in a stack is dropped.
pub fn explode_patsint(text: &str) -> (out: String)
    ensures
        out@ == exploded(text@),
{
    let chars = to_chars(text);
    let first = kill_stack_markers(&chars);
    let second = drop_stack_markers(&first);
    to_text(&second)
}

/// The part of `text` from position `from` on, with `separator` put before
/// every marked character.
pub open spec fn separated_from(
    text: Seq<char>,
    marks: Seq<bool>,
    separator: Seq<char>,
    from: int,
) -> Seq<char>
    recommends
        marks.len() == text.len(),
        0 <= from,
    decreases text.len() - from,
{
    if from < 0 || from >= text.len() {
        Seq::empty()
    } else if marks[from] {
        separator + seq![text[from]] + separated_from(text, marks, separator, from + 1)
    } else {
        seq![text[from]] + separated_from(text, marks, separator, from + 1)
    }
}

/// The text with `separator` put before every marked character. No character
/// of the text is changed or left out.
pub open spec fn separated(text: Seq<char>, marks: Seq<bool>, separator: Seq<char>) -> Seq<char>
    recommends
        marks.len() == text.len(),
{
    separated_from(text, marks, separator, 0)
}

/// What is left of a separated text after cleaning: one leading separator is
/// taken away, then every doubled separator becomes a single space.
///
/// The separator is taken literally, whatever it is made of. One that is
/// found in the text itself, one that is whitespace or one that overlaps with
/// itself makes no exception: doubled separators are taken from the left and
/// do not overlap, and what the text held of the separator is cleaned like
/// what was put in.
pub open spec fn cleaned(inserted: Seq<char>, separator: Seq<char>) -> Seq<char> {
    replaced(without_prefix(inserted, separator), separator + separator, seq![SPACE])
}

/// A normalized text cut at its marked characters: separated, then cleaned.
pub open spec fn segmented(text: Seq<char>, marks: Seq<bool>, separator: Seq<char>) -> Seq<char>
    recommends
        marks.len() == text.len(),
{
    cleaned(separated(text, marks, separator), separator)
}

/// The text that is cut in the given mode: its stacks taken apart in phoneme
/// mode, then its whitespace normalized.
pub open spec fn prepared(text: Seq<char>, mode: SyllableBreakType) -> Seq<char> {
    match mode {
        SyllableBreakType::Phoneme => normalized(exploded(text)),
        SyllableBreakType::Morpheme => normalized(text),
    }
}

/// The segmentation of a text: the prepared text, cut where the syllable rule
/// starts a segment.
pub open spec fn segment(text: Seq<char>, separator: Seq<char>, mode: SyllableBreakType) -> Seq<
    char,
> {
    let line = prepared(text, mode);
    segmented(line, segment_starts(line), separator)
}

/// The separator that is used where none is given.
pub open spec fn default_separator() -> Seq<char> {
    seq!['|']
}

/// Puts `separator` before every character of `text` that the pattern
/// matches.
pub fn insert_separators(text: &Vec<char>, pattern: &BoundaryPattern, separator: &Vec<char>) -> (out:
    Vec<char>)
    ensures
        out@ == separated(text@, pattern.marks(text@), separator@),
{
    let ghost marks = pattern.marks(text@);
    let mut out: Vec<char> = Vec::new();
    let mut i: usize = 0;
    while i < text.len()
        invariant
            i <= text.len(),
            marks == pattern.marks(text@),
            out@ + separated_from(text@, marks, separator@, i as int) == separated(
                text@,
                marks,
                separator@,
            ),
        decreases text.len() - i,
    {
        if pattern.is_match(text, i) {
            push_all(&mut out, separator);
        }
        out.push(text[i]);
        i += 1;
    }
    out
}

/// Cuts a line at the characters that the pattern matches.
///
/// The whitespace of the line is normalized, the separator is put before
/// every matched character, one leading separator is taken away, and every
/// doubled separator becomes a single space.
pub fn break_syllables(line: &str, break_pattern: &BoundaryPattern, separator: &str) -> (out:
    String)
    requires
        separator@.len() > 0,
    ensures
        out@ == segmented(
            normalized(line@),
            break_pattern.marks(normalized(line@)),
            separator@,
        ),
{
    let chars = to_chars(line);
    let text = normalize_whitespace(&chars);
    let mark = to_chars(separator);
    let inserted = insert_separators(&text, break_pattern, &mark);
    let stripped = strip_prefix(&inserted, &mark);
    let mut doubled: Vec<char> = Vec::new();
    push_all(&mut doubled, &mark);
    push_all(&mut doubled, &mark);
    let mut space: Vec<char> = Vec::new();
    space.push(SPACE);
    let collapsed = replace_all(&stripped, &doubled, &space);
    to_text(&collapsed)
}

/// Segments a text into syllables.
///
/// In phoneme mode the stacks of the text are taken apart first. Without a
/// separator, `|` is used.
pub fn syllable_break(text: &str, separator: Option<&str>, break_type: SyllableBreakType) -> (out:
    String)
    requires
        separator matches Some(s) ==> s@.len() > 0,
    ensures
        out@ == segment(
            text@,
            match separator {
                Some(s) => s@,
                None => default_separator(),
            },
            break_type,
        ),
        text@.len() == 0 ==> out@.len() == 0,
{
    let break_pattern = create_break_pattern();
    let separator = match separator {
        Some(s) => s,
        None => {
            proof {
                reveal_strlit("|");
            }
            assert("|"@ == default_separator());
            "|"
        },
    };
    match break_type {
        SyllableBreakType::Phoneme => {
            let input = explode_patsint(text);
            break_syllables(input.as_str(), &break_pattern, separator)
        },
        SyllableBreakType::Morpheme => break_syllables(text, &break_pattern, separator),
    }
}

/// The mode that a token names, by its first character alone and in either
/// case: `p` for phoneme, `m` for morpheme. Any other token names none.
pub open spec fn mode_of_token(token: Seq<char>) -> Option<SyllableBreakType> {
    if token.len() == 0 {
        None
    } else if token[0] == 'p' || token[0] == 'P' {
        Some(SyllableBreakType::Phoneme)
    } else if token[0] == 'm' || token[0] == 'M' {
        Some(SyllableBreakType::Morpheme)
    } else {
        None
    }
}

impl SyllableBreakType {
    /// Reads a mode from a token such as `p`, `Phoneme`, `M` or `morpheme`.
    /// A token that names no mode gives `None`: no mode is guessed.
    pub fn from_token(token: &str) -> (mode: Option<SyllableBreakType>)
        ensures
            mode == mode_of_token(token@),
    {
        let chars = to_chars(token);
        if chars.len() == 0 {
            return None;
        }
        let first = chars[0];
        if first == 'p' || first == 'P' {
            Some(SyllableBreakType::Phoneme)
        } else if first == 'm' || first == 'M' {
            Some(SyllableBreakType::Morpheme)
        } else {
            None
        }
    }
}

} // verus!
