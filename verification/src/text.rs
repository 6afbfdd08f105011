//! Character sequences: the passage between strings and vectors of
//! characters, whitespace normalization, prefixes and literal replacement.

use crate::classes::{is_whitespace, whitespace, SPACE};
use vstd::prelude::*;

verus! {

/// Trusted, not proved: what `String::push` of the standard library does. The
/// call appends `ch` to the end of the string and leaves the characters
/// before it as they were.
pub assume_specification[ String::push ](s: &mut String, ch: char)
    ensures
        final(s)@ == old(s)@.push(ch),
;

/// The characters of a string slice, in order.
pub fn to_chars(s: &str) -> (out: Vec<char>)
    ensures
        out@ == s@,
{
    let mut out: Vec<char> = Vec::new();
    for c in it: s.chars()
        invariant
            out@ == it.seq().take(it.index()),
            it.seq() == s@,
    {
        out.push(c);
    }
    out
}

/// The string made of the given characters, in order.
pub fn to_text(chars: &Vec<char>) -> (out: String)
    ensures
        out@ == chars@,
{
    let mut out = String::new();
    let mut i: usize = 0;
    while i < chars.len()
        invariant
            i <= chars.len(),
            out@ == chars@.take(i as int),
        decreases chars.len() - i,
    {
        out.push(chars[i]);
        i += 1;
    }
    out
}

/// Appends every character of `items` to `out`.
pub fn push_all(out: &mut Vec<char>, items: &Vec<char>)
    ensures
        final(out)@ == old(out)@ + items@,
{
    let mut i: usize = 0;
    while i < items.len()
        invariant
            i <= items.len(),
            out@ == old(out)@ + items@.take(i as int),
        decreases items.len() - i,
    {
        out.push(items[i]);
        i += 1;
    }
}

/// The text with its leading and trailing whitespace removed and every inner
/// run of whitespace replaced by one space.
///
/// Read from the right: a whitespace character adds nothing by itself; any
/// other character is appended, after one space if whitespace stands directly
/// before it and something has been written already.
pub open spec fn normalized(s: Seq<char>) -> Seq<char>
    decreases s.len(),
{
    if s.len() == 0 {
        s
    } else {
        let before = s.drop_last();
        let c = s.last();
        let head = normalized(before);
        if whitespace(c) {
            head
        } else if head.len() > 0 && whitespace(before.last()) {
            head.push(SPACE).push(c)
        } else {
            head.push(c)
        }
    }
}

/// Whether a text is in normal form: it holds no whitespace but single
/// spaces, each between two other characters.
pub open spec fn is_normalized(s: Seq<char>) -> bool {
    forall|i: int|
        0 <= i < s.len() && whitespace(#[trigger] s[i]) ==> {
            &&& s[i] == SPACE
            &&& 0 < i < s.len() - 1
            &&& !whitespace(s[i - 1])
        }
}

/// The characters of a text that are no whitespace, in order.
pub open spec fn without_whitespace(s: Seq<char>) -> Seq<char> {
    s.filter(|c: char| !whitespace(c))
}

/// Trims the text and collapses each run of whitespace to one space.
pub fn normalize_whitespace(s: &Vec<char>) -> (out: Vec<char>)
    ensures
        out@ == normalized(s@),
{
    let mut out: Vec<char> = Vec::new();
    let mut i: usize = 0;
    while i < s.len()
        invariant
            i <= s.len(),
            out@ == normalized(s@.take(i as int)),
        decreases s.len() - i,
    {
        let c = s[i];
        assert(s@.take(i + 1).drop_last() == s@.take(i as int));
        if !is_whitespace(c) {
            if out.len() > 0 && is_whitespace(s[i - 1]) {
                out.push(SPACE);
            }
            out.push(c);
        }
        i += 1;
    }
    assert(s@.take(s.len() as int) == s@);
    out
}

/// Whether `prefix` stands in `s` at position `at`. Behind the end of `s`
/// nothing stands.
pub fn starts_with_at(s: &Vec<char>, prefix: &Vec<char>, at: usize) -> (found: bool)
    ensures
        found == (at <= s.len() && prefix@.is_prefix_of(s@.skip(at as int))),
{
    if at > s.len() || prefix.len() > s.len() - at {
        return false;
    }
    let ghost rest = s@.skip(at as int);
    let mut k: usize = 0;
    while k < prefix.len()
        invariant
            k <= prefix.len(),
            at + prefix.len() <= s.len(),
            rest == s@.skip(at as int),
            forall|j: int| 0 <= j < k ==> prefix@[j] == rest[j],
        decreases prefix.len() - k,
    {
        if s[at + k] != prefix[k] {
            return false;
        }
        k += 1;
    }
    true
}

/// The text without `prefix` at its start, where it starts with it; else the
/// text itself.
pub open spec fn without_prefix(s: Seq<char>, prefix: Seq<char>) -> Seq<char> {
    if prefix.is_prefix_of(s) {
        s.skip(prefix.len() as int)
    } else {
        s
    }
}

/// Removes one leading occurrence of `prefix`.
pub fn strip_prefix(s: &Vec<char>, prefix: &Vec<char>) -> (out: Vec<char>)
    ensures
        out@ == without_prefix(s@, prefix@),
{
    let from: usize = if starts_with_at(s, prefix, 0) {
        prefix.len()
    } else {
        0
    };
    let mut out: Vec<char> = Vec::new();
    let mut i: usize = from;
    while i < s.len()
        invariant
            from <= i <= s.len(),
            out@ == s@.subrange(from as int, i as int),
        decreases s.len() - i,
    {
        out.push(s[i]);
        i += 1;
    }
    out
}

/// The text in which every occurrence of `pattern` is replaced by
/// `replacement`. Occurrences are taken from the left and do not overlap; an
/// empty pattern occurs nowhere.
pub open spec fn replaced(s: Seq<char>, pattern: Seq<char>, replacement: Seq<char>) -> Seq<char>
    decreases s.len(),
{
    if pattern.len() == 0 || s.len() < pattern.len() {
        s
    } else if pattern.is_prefix_of(s) {
        replacement + replaced(s.skip(pattern.len() as int), pattern, replacement)
    } else {
        seq![s[0]] + replaced(s.skip(1), pattern, replacement)
    }
}

/// Replaces every occurrence of `pattern`, from the left.
pub fn replace_all(s: &Vec<char>, pattern: &Vec<char>, replacement: &Vec<char>) -> (out: Vec<char>)
    ensures
        out@ == replaced(s@, pattern@, replacement@),
{
    let mut out: Vec<char> = Vec::new();
    if pattern.len() == 0 {
        push_all(&mut out, s);
        return out;
    }
    let mut i: usize = 0;
    assert(s@.skip(0) == s@);
    while i < s.len()
        invariant
            i <= s.len(),
            pattern.len() > 0,
            out@ + replaced(s@.skip(i as int), pattern@, replacement@) == replaced(
                s@,
                pattern@,
                replacement@,
            ),
        decreases s.len() - i,
    {
        let ghost rest = s@.skip(i as int);
        if starts_with_at(s, pattern, i) {
            assert(rest.skip(pattern.len() as int) == s@.skip(i + pattern.len()));
            push_all(&mut out, replacement);
            i += pattern.len();
        } else {
            assert(rest.skip(1) == s@.skip(i + 1));
            out.push(s[i]);
            i += 1;
        }
    }
    out
}

} // verus!
