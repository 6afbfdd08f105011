//! Syllable segmentation of Myanmar text.
//!
//! A text is cut into syllables by putting a separator before every
//! character that starts a segment. In morpheme mode stacked consonants stay
//! inside one segment; in phoneme mode the stacks are taken apart first, so
//! that each stacked consonant starts a segment of its own.
//!
//! - [`classes`]: the character classes of the syllable rule.
//! - [`text`]: character sequences, whitespace normalization, replacement.
//! - [`language`]: the matcher, the rewriting of stacks and the segmenter,
//!   each with the function that states what it computes.
//! - [`laws`]: what holds of every segmentation.
//! - [`lemmas`]: the proofs that the laws rest on.

use crate::language::{default_separator, segment, SyllableBreakType};
use vstd::prelude::*;

pub mod classes;
pub mod language;
pub mod laws;
pub mod lemmas;
pub mod text;

verus! {

/// Sum of two numbers whose sum fits in 64 bits.
pub fn add(left: u64, right: u64) -> (sum: u64)
    requires
        left + right <= u64::MAX,
    ensures
        sum == left + right,
{
    left + right
}

/// Segments a text into syllables, with `|` between them. Stacked consonants
/// stay inside their segment.
pub fn syllable_break(text: &str) -> (out: String)
    ensures
        out@ == segment(text@, default_separator(), SyllableBreakType::Morpheme),
        text@.len() == 0 ==> out@.len() == 0,
{
    language::syllable_break(text, None, SyllableBreakType::Morpheme)
}

/// Segments a text into syllables, with `|` between them. Stacks are taken
/// apart, and each stacked consonant starts a segment.
pub fn syllable_break_phoneme(text: &str) -> (out: String)
    ensures
        out@ == segment(text@, default_separator(), SyllableBreakType::Phoneme),
        text@.len() == 0 ==> out@.len() == 0,
{
    language::syllable_break(text, None, SyllableBreakType::Phoneme)
}

} // verus!
