//! The character classes of the Myanmar syllable rule.
//!
//! Every class is a fixed set of Unicode scalar values. Each one is given
//! twice: as a specification predicate, and as an executable test that is
//! proved to compute that predicate.

use vstd::prelude::*;

verus! {

/// The sign that stacks the following consonant beneath the preceding one.
pub const STACK_MARKER: char = '\u{1039}';

/// The asat: it takes the inherent vowel from the consonant before it.
pub const KILLER_MARK: char = '\u{103A}';

/// The space that stands for a whole run of whitespace.
pub const SPACE: char = ' ';

/// A letter of the Myanmar consonant block, from KA to A.
pub open spec fn consonant(c: char) -> bool {
    '\u{1000}' <= c <= '\u{1021}'
}

/// The stacking sign.
pub open spec fn stack_marker(c: char) -> bool {
    c == STACK_MARKER
}

/// The asat.
pub open spec fn killer_mark(c: char) -> bool {
    c == KILLER_MARK
}

/// Independent vowels, GREAT SA, the Myanmar digits and the punctuation and
/// abbreviation signs of the script.
pub open spec fn other_script(c: char) -> bool {
    ||| '\u{1023}' <= c <= '\u{1027}'
    ||| '\u{1029}' <= c <= '\u{102A}'
    ||| c == '\u{103F}'
    ||| '\u{1040}' <= c <= '\u{104D}'
    ||| c == '\u{104F}'
}

/// An ASCII letter or digit.
pub open spec fn latin(c: char) -> bool {
    ||| 'a' <= c <= 'z'
    ||| 'A' <= c <= 'Z'
    ||| '0' <= c <= '9'
}

/// An ASCII punctuation mark or symbol.
pub open spec fn punctuation(c: char) -> bool {
    ||| '!' <= c <= '/'
    ||| ':' <= c <= '@'
    ||| '[' <= c <= '`'
    ||| '{' <= c <= '~'
}

/// A character with the Unicode property White_Space.
pub open spec fn whitespace(c: char) -> bool {
    ||| '\u{0009}' <= c <= '\u{000D}'
    ||| c == '\u{0020}'
    ||| c == '\u{0085}'
    ||| c == '\u{00A0}'
    ||| c == '\u{1680}'
    ||| '\u{2000}' <= c <= '\u{200A}'
    ||| '\u{2028}' <= c <= '\u{2029}'
    ||| c == '\u{202F}'
    ||| c == '\u{205F}'
    ||| c == '\u{3000}'
}

/// A character that always opens a segment of its own, whatever stands
/// around it.
pub open spec fn standalone(c: char) -> bool {
    latin(c) || other_script(c) || punctuation(c) || whitespace(c)
}

#[verifier::when_used_as_spec(consonant)]
pub fn is_consonant(c: char) -> (b: bool)
    ensures
        b == consonant(c),
{
    '\u{1000}' <= c && c <= '\u{1021}'
}

#[verifier::when_used_as_spec(stack_marker)]
pub fn is_stack_marker(c: char) -> (b: bool)
    ensures
        b == stack_marker(c),
{
    c == STACK_MARKER
}

#[verifier::when_used_as_spec(killer_mark)]
pub fn is_killer_mark(c: char) -> (b: bool)
    ensures
        b == killer_mark(c),
{
    c == KILLER_MARK
}

#[verifier::when_used_as_spec(whitespace)]
pub fn is_whitespace(c: char) -> (b: bool)
    ensures
        b == whitespace(c),
{
    ('\u{0009}' <= c && c <= '\u{000D}') || c == '\u{0020}' || c == '\u{0085}' || c == '\u{00A0}'
        || c == '\u{1680}' || ('\u{2000}' <= c && c <= '\u{200A}') || ('\u{2028}' <= c && c
        <= '\u{2029}') || c == '\u{202F}' || c == '\u{205F}' || c == '\u{3000}'
}

} // verus!
