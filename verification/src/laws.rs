//! What holds of every segmentation, proved from the definitions.

use crate::classes::stack_marker;
use crate::language::{
    exploded, killed, prepared, segment, segment_starts, unstacked, without_marks,
    SyllableBreakType,
};
use crate::lemmas::{
    lemma_exploded_commutes, lemma_exploded_without_stack_marker, lemma_killed_keeps_letters,
    lemma_normalized_form, lemma_normalized_idempotent, lemma_normalized_keeps_words,
    lemma_segmented_first, lemma_segmented_keeps_content, lemma_unstacked_keeps_letters,
};
use crate::text::{is_normalized, normalized, replaced, without_whitespace};
use vstd::prelude::*;

verus! {

/// The segmentation of the empty text is empty, whatever the separator and
/// the mode.
pub proof fn law_empty_input(separator: Seq<char>, mode: SyllableBreakType)
    ensures
        segment(Seq::empty(), separator, mode) == Seq::<char>::empty(),
{
}

/// A text without stack markers is segmented alike in both modes.
pub proof fn law_mode_independence(text: Seq<char>, separator: Seq<char>)
    requires
        forall|i: int| 0 <= i < text.len() ==> !stack_marker(text[i]),
    ensures
        segment(text, separator, SyllableBreakType::Phoneme) == segment(
            text,
            separator,
            SyllableBreakType::Morpheme,
        ),
{
    lemma_exploded_without_stack_marker(text);
}

/// The segmentation of a text does not begin with the separator, as long as
/// the text that is cut does not begin with the first character of the
/// separator.
pub proof fn law_no_leading_separator(
    text: Seq<char>,
    separator: Seq<char>,
    mode: SyllableBreakType,
)
    requires
        separator.len() > 0,
        prepared(text, mode).len() > 0 ==> prepared(text, mode)[0] != separator[0],
    ensures
        !separator.is_prefix_of(segment(text, separator, mode)),
{
    let line = prepared(text, mode);
    if line.len() > 0 {
        lemma_segmented_first(line, segment_starts(line), separator);
    }
}

/// Segmenting a text whose whitespace was normalized beforehand gives what
/// segmenting the text itself gives.
pub proof fn law_normalization_idempotent(
    text: Seq<char>,
    separator: Seq<char>,
    mode: SyllableBreakType,
)
    ensures
        segment(normalized(text), separator, mode) == segment(text, separator, mode),
{
    lemma_normalized_idempotent(text);
    lemma_exploded_commutes(text);
    lemma_normalized_idempotent(exploded(text));
}

/// Whether the first character of `separator` occurs nowhere in `text`.
pub open spec fn first_apart(separator: Seq<char>, text: Seq<char>) -> bool {
    forall|j: int| 0 <= j < text.len() ==> text[j] != separator[0]
}

/// No character is lost or moved: taking every separator out of the
/// segmentation of a text and normalizing the whitespace of what is left
/// gives the text that was cut, as long as the first character of the
/// separator does not occur in that text.
pub proof fn law_content_preserved(text: Seq<char>, separator: Seq<char>, mode: SyllableBreakType)
    requires
        separator.len() > 0,
        first_apart(separator, prepared(text, mode)),
    ensures
        normalized(replaced(segment(text, separator, mode), separator, Seq::empty())) == prepared(
            text,
            mode,
        ),
{
    let line = prepared(text, mode);
    lemma_segmented_keeps_content(line, segment_starts(line), separator);
    match mode {
        SyllableBreakType::Phoneme => lemma_normalized_idempotent(exploded(text)),
        SyllableBreakType::Morpheme => lemma_normalized_idempotent(text),
    }
}

/// Taking stacks apart changes nothing but marks: what the text holds besides
/// stack markers and killer marks is the same before and after, in the same
/// order.
pub proof fn law_exploding_touches_marks_only(text: Seq<char>)
    ensures
        without_marks(exploded(text)) == without_marks(text),
{
    lemma_killed_keeps_letters(text);
    lemma_unstacked_keeps_letters(killed(text));
}

/// The text that is cut is in normal form, and holds the characters of the
/// text that was given, or of that text with its stacks taken apart, that are
/// no whitespace, in the same order.
pub proof fn law_prepared_text(text: Seq<char>, mode: SyllableBreakType)
    ensures
        is_normalized(prepared(text, mode)),
        without_whitespace(prepared(text, mode)) == without_whitespace(
            match mode {
                SyllableBreakType::Phoneme => exploded(text),
                SyllableBreakType::Morpheme => text,
            },
        ),
{
    match mode {
        SyllableBreakType::Phoneme => {
            lemma_normalized_form(exploded(text));
            lemma_normalized_keeps_words(exploded(text));
        },
        SyllableBreakType::Morpheme => {
            lemma_normalized_form(text);
            lemma_normalized_keeps_words(text);
        },
    }
}

} // verus!
