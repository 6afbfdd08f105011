//! Lemmas on normalized whitespace and on the rewriting of stacks, on which
//! the laws of segmentation rest.

use crate::classes::{killer_mark, stack_marker, whitespace, KILLER_MARK, SPACE};
use crate::language::{
    exploded, killed, killed_stack_ahead, segmented, separated, separated_from, stack_ahead,
    unstacked, without_marks,
};
use crate::text::{is_normalized, normalized, replaced, without_prefix, without_whitespace};
use vstd::prelude::*;

verus! {

/// A normalized text does not end in whitespace.
pub proof fn lemma_normalized_ends_in_word(s: Seq<char>)
    ensures
        normalized(s).len() > 0 ==> !whitespace(normalized(s).last()),
    decreases s.len(),
{
    if s.len() > 0 {
        lemma_normalized_ends_in_word(s.drop_last());
    }
}

/// Normalizing twice gives what normalizing once gives.
pub proof fn lemma_normalized_idempotent(s: Seq<char>)
    ensures
        normalized(normalized(s)) == normalized(s),
    decreases s.len(),
{
    if s.len() > 0 {
        let before = s.drop_last();
        let c = s.last();
        let head = normalized(before);
        lemma_normalized_idempotent(before);
        lemma_normalized_ends_in_word(before);
        if whitespace(c) {
        } else if head.len() > 0 && whitespace(before.last()) {
            let spaced = head.push(SPACE);
            assert(spaced.push(c).drop_last() == spaced);
            assert(spaced.drop_last() == head);
            assert(normalized(spaced) == head);
        } else {
            assert(head.push(c).drop_last() == head);
        }
    }
}

/// A text whose normal form is empty is made of whitespace.
pub proof fn lemma_normalized_empty(s: Seq<char>)
    requires
        normalized(s).len() == 0,
    ensures
        forall|i: int| 0 <= i < s.len() ==> whitespace(s[i]),
    decreases s.len(),
{
    if s.len() > 0 {
        lemma_normalized_empty(s.drop_last());
        assert forall|i: int| 0 <= i < s.len() implies whitespace(s[i]) by {
            if i < s.len() - 1 {
                assert(s[i] == s.drop_last()[i]);
            }
        }
    }
}

/// The normal form of what follows a character that is no whitespace: the
/// normal form of the rest, after one space where the rest begins with
/// whitespace and holds more than that.
pub open spec fn joined(s: Seq<char>) -> Seq<char> {
    if s.len() > 0 && whitespace(s[0]) && normalized(s).len() > 0 {
        seq![SPACE] + normalized(s)
    } else {
        normalized(s)
    }
}

/// Whitespace at the start of a text adds nothing to its normal form.
pub proof fn lemma_normalized_after_whitespace(c: char, s: Seq<char>)
    requires
        whitespace(c),
    ensures
        normalized(seq![c] + s) == normalized(s),
    decreases s.len(),
{
    let whole = seq![c] + s;
    assert(normalized(Seq::<char>::empty()).len() == 0);
    if s.len() == 0 {
        assert(whole.drop_last() == Seq::<char>::empty());
    } else {
        lemma_normalized_after_whitespace(c, s.drop_last());
        assert(whole.drop_last() == seq![c] + s.drop_last());
    }
}

/// A character that is no whitespace stays at the start of the normal form,
/// and the rest is joined to it.
pub proof fn lemma_normalized_after_word_char(c: char, s: Seq<char>)
    requires
        !whitespace(c),
    ensures
        normalized(seq![c] + s) == seq![c] + joined(s),
    decreases s.len(),
{
    let whole = seq![c] + s;
    assert(normalized(Seq::<char>::empty()).len() == 0);
    if s.len() == 0 {
        assert(whole.drop_last() == Seq::<char>::empty());
    } else {
        let before = s.drop_last();
        lemma_normalized_after_word_char(c, before);
        assert(whole.drop_last() == seq![c] + before);
        if before.len() > 0 {
            assert(s[0] == before[0]);
            if normalized(before).len() == 0 {
                lemma_normalized_empty(before);
            }
        }
    }
}

/// The normal form of a text that begins with `n` characters that are no
/// whitespace begins with them, and what follows is joined to them.
pub proof fn lemma_normalized_word_start(t: Seq<char>, n: int)
    requires
        1 <= n <= t.len(),
        forall|i: int| 0 <= i < n ==> !whitespace(t[i]),
    ensures
        normalized(t) == t.take(n) + joined(t.skip(n)),
    decreases n,
{
    let rest = t.skip(1);
    assert(seq![t[0]] + rest == t);
    lemma_normalized_after_word_char(t[0], rest);
    if n > 1 {
        lemma_normalized_word_start(rest, n - 1);
        assert(rest.skip(n - 1) == t.skip(n));
    }
}

/// Where the normal form of a text that does not begin with whitespace
/// begins with `n` characters that are no whitespace, the text begins with
/// the same characters.
pub proof fn lemma_normalized_word_start_back(t: Seq<char>, n: int)
    requires
        t.len() > 0,
        !whitespace(t[0]),
        1 <= n <= normalized(t).len(),
        forall|i: int| 0 <= i < n ==> !whitespace(normalized(t)[i]),
    ensures
        n <= t.len(),
        t.take(n) == normalized(t).take(n),
    decreases n,
{
    let rest = t.skip(1);
    let form = normalized(t);
    assert(seq![t[0]] + rest == t);
    lemma_normalized_after_word_char(t[0], rest);
    if n > 1 {
        assert(joined(rest)[0] == form[1]);
        assert forall|i: int| 0 <= i < n - 1 implies !whitespace(normalized(rest)[i]) by {
            assert(normalized(rest)[i] == form[i + 1]);
        }
        lemma_normalized_word_start_back(rest, n - 1);
        assert(t.take(n) == seq![t[0]] + rest.take(n - 1));
    }
}

/// The first rewriting keeps the length of a text and its first character.
pub proof fn lemma_killed_first(s: Seq<char>)
    ensures
        killed(s).len() == s.len(),
        s.len() > 0 ==> killed(s)[0] == s[0],
    decreases s.len(),
{
    if s.len() > 0 {
        if stack_ahead(s) {
            lemma_killed_first(s.skip(3));
        } else {
            lemma_killed_first(s.skip(1));
        }
    }
}

/// The second rewriting keeps the first character of a text.
pub proof fn lemma_unstacked_first(s: Seq<char>)
    ensures
        (unstacked(s).len() > 0) == (s.len() > 0),
        s.len() > 0 ==> unstacked(s)[0] == s[0],
    decreases s.len(),
{
}

/// The first rewriting goes through the joint after a character that is no
/// whitespace, where it goes through normalization.
proof fn lemma_killed_joined(r: Seq<char>)
    requires
        killed(normalized(r)) == normalized(killed(r)),
    ensures
        killed(joined(r)) == joined(killed(r)),
{
    lemma_killed_first(r);
    lemma_killed_first(normalized(r));
    if r.len() > 0 && whitespace(r[0]) && normalized(r).len() > 0 {
        let spaced = seq![SPACE] + normalized(r);
        assert(spaced.skip(1) == normalized(r));
    }
}

/// The second rewriting goes through the joint after a character that is no
/// whitespace, where it goes through normalization.
proof fn lemma_unstacked_joined(r: Seq<char>)
    requires
        unstacked(normalized(r)) == normalized(unstacked(r)),
    ensures
        unstacked(joined(r)) == joined(unstacked(r)),
{
    lemma_unstacked_first(r);
    lemma_unstacked_first(normalized(r));
    if r.len() > 0 && whitespace(r[0]) && normalized(r).len() > 0 {
        let spaced = seq![SPACE] + normalized(r);
        assert(spaced.skip(1) == normalized(r));
    }
}

/// The first rewriting and the normalization of whitespace can be done in
/// either order.
pub proof fn lemma_killed_commutes(t: Seq<char>)
    ensures
        killed(normalized(t)) == normalized(killed(t)),
    decreases t.len(),
{
    if t.len() == 0 {
        // Both sides are empty.
    } else if whitespace(t[0]) {
        let r = t.skip(1);
        assert(seq![t[0]] + r == t);
        lemma_killed_commutes(r);
        lemma_normalized_after_whitespace(t[0], r);
        lemma_normalized_after_whitespace(t[0], killed(r));
    } else if stack_ahead(t) {
        let r = t.skip(3);
        let after = seq![t[0], KILLER_MARK, t[2]] + killed(r);
        lemma_killed_commutes(r);
        lemma_killed_joined(r);
        lemma_normalized_word_start(t, 3);
        let form = t.take(3) + joined(r);
        assert(form.skip(3) == joined(r));
        lemma_normalized_word_start(after, 3);
        assert(after.skip(3) == killed(r));
    } else {
        let r = t.skip(1);
        assert(seq![t[0]] + r == t);
        lemma_killed_commutes(r);
        lemma_killed_joined(r);
        lemma_normalized_after_word_char(t[0], r);
        lemma_normalized_after_word_char(t[0], killed(r));
        let form = seq![t[0]] + joined(r);
        assert(form.skip(1) == joined(r));
        if stack_ahead(form) {
            lemma_normalized_word_start_back(t, 3);
            assert(t.take(3)[1] == form.take(3)[1]);
            assert(t.take(3)[2] == form.take(3)[2]);
        }
    }
}

/// The second rewriting and the normalization of whitespace can be done in
/// either order.
pub proof fn lemma_unstacked_commutes(t: Seq<char>)
    ensures
        unstacked(normalized(t)) == normalized(unstacked(t)),
    decreases t.len(),
{
    if t.len() == 0 {
        // Both sides are empty.
    } else if whitespace(t[0]) {
        let r = t.skip(1);
        assert(seq![t[0]] + r == t);
        lemma_unstacked_commutes(r);
        lemma_normalized_after_whitespace(t[0], r);
        lemma_normalized_after_whitespace(t[0], unstacked(r));
    } else if killed_stack_ahead(t) {
        let r = t.skip(4);
        let after = seq![t[0], t[1], t[3]] + unstacked(r);
        lemma_unstacked_commutes(r);
        lemma_unstacked_joined(r);
        lemma_normalized_word_start(t, 4);
        let form = t.take(4) + joined(r);
        assert(form.skip(4) == joined(r));
        lemma_normalized_word_start(after, 3);
        assert(after.skip(3) == unstacked(r));
    } else if stack_ahead(t) {
        let r = t.skip(3);
        let after = seq![t[0], t[2]] + unstacked(r);
        lemma_unstacked_commutes(r);
        lemma_unstacked_joined(r);
        lemma_normalized_word_start(t, 3);
        let form = t.take(3) + joined(r);
        assert(form.skip(3) == joined(r));
        lemma_normalized_word_start(after, 2);
        assert(after.skip(2) == unstacked(r));
    } else {
        let r = t.skip(1);
        assert(seq![t[0]] + r == t);
        lemma_unstacked_commutes(r);
        lemma_unstacked_joined(r);
        lemma_normalized_after_word_char(t[0], r);
        lemma_normalized_after_word_char(t[0], unstacked(r));
        let form = seq![t[0]] + joined(r);
        assert(form.skip(1) == joined(r));
        if killed_stack_ahead(form) {
            lemma_normalized_word_start_back(t, 4);
            assert(t.take(4)[1] == form.take(4)[1]);
            assert(t.take(4)[2] == form.take(4)[2]);
            assert(t.take(4)[3] == form.take(4)[3]);
        }
        if stack_ahead(form) {
            lemma_normalized_word_start_back(t, 3);
            assert(t.take(3)[1] == form.take(3)[1]);
            assert(t.take(3)[2] == form.take(3)[2]);
        }
    }
}

/// Taking stacks apart and normalizing whitespace can be done in either
/// order.
pub proof fn lemma_exploded_commutes(t: Seq<char>)
    ensures
        exploded(normalized(t)) == normalized(exploded(t)),
{
    lemma_killed_commutes(t);
    lemma_unstacked_commutes(killed(t));
}

/// A text without stack markers has no stack to take apart.
pub proof fn lemma_exploded_without_stack_marker(s: Seq<char>)
    requires
        forall|i: int| 0 <= i < s.len() ==> !stack_marker(s[i]),
    ensures
        killed(s) == s,
        unstacked(s) == s,
        exploded(s) == s,
    decreases s.len(),
{
    if s.len() > 0 {
        lemma_exploded_without_stack_marker(s.skip(1));
    }
}

/// A cut text begins with the first character of the text, where that
/// character is not the first of the separator.
pub proof fn lemma_segmented_first(text: Seq<char>, marks: Seq<bool>, separator: Seq<char>)
    requires
        separator.len() > 0,
        marks.len() == text.len(),
        text.len() > 0,
        text[0] != separator[0],
    ensures
        segmented(text, marks, separator).len() > 0,
        segmented(text, marks, separator)[0] == text[0],
{
    let doubled = separator + separator;
    assert(doubled[0] == separator[0]);
}

/// A prefix agrees with the sequence at each of its positions.
proof fn lemma_prefix_at(prefix: Seq<char>, s: Seq<char>, x: int)
    requires
        prefix.is_prefix_of(s),
        0 <= x < prefix.len(),
    ensures
        prefix[x] == s[x],
{
}

/// What is left of a prefix is a prefix of what is left of the sequence.
proof fn lemma_prefix_skip(prefix: Seq<char>, s: Seq<char>, n: int)
    requires
        prefix.is_prefix_of(s),
        0 <= n <= prefix.len(),
    ensures
        prefix.skip(n).is_prefix_of(s.skip(n)),
{
    assert forall|x: int| 0 <= x < prefix.len() - n implies prefix.skip(n)[x] == s.skip(n)[x] by {
        lemma_prefix_at(prefix, s, x + n);
    }
}

/// Where an end piece of the separator and then the whole separator stand at
/// a point between two entries of a separated text, the end piece is made of
/// the next characters of the text.
proof fn lemma_end_piece_is_text(
    text: Seq<char>,
    marks: Seq<bool>,
    separator: Seq<char>,
    i: int,
    piece: Seq<char>,
)
    requires
        separator.len() > 0,
        marks.len() == text.len(),
        forall|x: int| 0 <= x < text.len() ==> text[x] != separator[0],
        0 <= i <= text.len(),
        piece.len() < separator.len(),
        piece == separator.skip(separator.len() - piece.len()),
        (piece + separator).is_prefix_of(separated_from(text, marks, separator, i)),
    ensures
        i + piece.len() <= text.len(),
        forall|x: int| 0 <= x < piece.len() ==> piece[x] == text[i + x],
    decreases piece.len(),
{
    let k = separator.len() as int;
    let here = separated_from(text, marks, separator, i);
    let sought = piece + separator;
    lemma_prefix_at(sought, here, 0);
    if piece.len() > 0 {
        if marks[i] {
            lemma_prefix_at(sought, here, k);
        } else {
            let shorter = piece.skip(1);
            lemma_prefix_skip(sought, here, 1);
            assert(sought.skip(1) == shorter + separator);
            assert(shorter == separator.skip(k - shorter.len()));
            lemma_end_piece_is_text(text, marks, separator, i + 1, shorter);
            assert forall|x: int| 0 <= x < piece.len() implies piece[x] == text[i + x] by {
                if x > 0 {
                    assert(piece[x] == shorter[x - 1]);
                }
            }
        }
    }
}

/// Where a separator repeats itself at a distance, its first character
/// occurs again among its last characters, within that distance of its end.
proof fn lemma_period_reaches_end(separator: Seq<char>, period: int, at: int)
    requires
        0 < period < separator.len(),
        0 <= at < separator.len(),
        separator[at] == separator[0],
        forall|x: int|
            0 <= x < separator.len() - period ==> #[trigger] separator[x] == separator[x + period],
    ensures
        exists|x: int|
            separator.len() - period <= x < separator.len() && #[trigger] separator[x]
                == separator[0],
    decreases separator.len() - at,
{
    if at < separator.len() - period {
        lemma_period_reaches_end(separator, period, at + period);
    }
}

/// A separated text, entered at any point of one of its separators, holds no
/// doubled separator, so that nothing in it is collapsed.
proof fn lemma_nothing_doubled(
    text: Seq<char>,
    marks: Seq<bool>,
    separator: Seq<char>,
    i: int,
    j: int,
)
    requires
        separator.len() > 0,
        marks.len() == text.len(),
        forall|x: int| 0 <= x < text.len() ==> text[x] != separator[0],
        0 <= i < text.len(),
        0 <= j <= separator.len(),
    ensures
        ({
            let here = separator.skip(j) + seq![text[i]] + separated_from(
                text,
                marks,
                separator,
                i + 1,
            );
            replaced(here, separator + separator, seq![SPACE]) == here
        }),
    decreases text.len() - i, separator.len() - j,
{
    let tail = separated_from(text, marks, separator, i + 1);
    let here = separator.skip(j) + seq![text[i]] + tail;
    let doubled = separator + separator;
    let k = separator.len() as int;
    if here.len() >= doubled.len() {
        assert(!doubled.is_prefix_of(here)) by {
            if doubled.is_prefix_of(here) {
                lemma_prefix_at(doubled, here, k - j);
                if 0 < j < k {
                    let piece = separator.skip(k - j + 1);
                    lemma_prefix_skip(doubled, here, k - j + 1);
                    assert(doubled.skip(k - j + 1) == piece + separator);
                    lemma_end_piece_is_text(text, marks, separator, i + 1, piece);
                    assert forall|x: int| 0 <= x < k - j implies #[trigger] separator[x]
                        == separator[x + j] by {
                        lemma_prefix_at(doubled, here, x);
                    }
                    lemma_period_reaches_end(separator, j, 0);
                    let x = choose|x: int| k - j <= x < k && #[trigger] separator[x] == separator[0];
                    if x > k - j {
                        assert(separator[x] == piece[x - (k - j + 1)]);
                    }
                }
            }
        }
        if j < k {
            lemma_nothing_doubled(text, marks, separator, i, j + 1);
            assert(here.skip(1) == separator.skip(j + 1) + seq![text[i]] + tail);
        } else {
            assert(here.skip(1) == tail);
            if i + 1 < text.len() {
                if marks[i + 1] {
                    lemma_nothing_doubled(text, marks, separator, i + 1, 0);
                    assert(separator.skip(0) == separator);
                } else {
                    lemma_nothing_doubled(text, marks, separator, i + 1, k);
                }
            }
        }
    }
}

/// Taking the separators out of a separated text gives the text back.
proof fn lemma_separators_removed(
    text: Seq<char>,
    marks: Seq<bool>,
    separator: Seq<char>,
    i: int,
)
    requires
        separator.len() > 0,
        marks.len() == text.len(),
        forall|x: int| 0 <= x < text.len() ==> text[x] != separator[0],
        0 <= i <= text.len(),
    ensures
        replaced(separated_from(text, marks, separator, i), separator, Seq::empty()) == text.skip(
            i,
        ),
        i < text.len() ==> replaced(
            seq![text[i]] + separated_from(text, marks, separator, i + 1),
            separator,
            Seq::empty(),
        ) == text.skip(i),
    decreases text.len() - i,
{
    let none = Seq::<char>::empty();
    if i < text.len() {
        let tail = separated_from(text, marks, separator, i + 1);
        let kept = seq![text[i]] + tail;
        lemma_separators_removed(text, marks, separator, i + 1);
        assert(kept.skip(1) == tail);
        assert(!separator.is_prefix_of(kept));
        assert(replaced(kept, separator, none) == text.skip(i));
        if marks[i] {
            let here = separator + kept;
            assert(separated_from(text, marks, separator, i) == here);
            assert(here.skip(separator.len() as int) == kept);
        }
    }
}

/// Taking the separators out of a cut text gives the text back, as long as
/// the first character of the separator does not occur in the text.
pub proof fn lemma_segmented_keeps_content(
    text: Seq<char>,
    marks: Seq<bool>,
    separator: Seq<char>,
)
    requires
        separator.len() > 0,
        marks.len() == text.len(),
        forall|x: int| 0 <= x < text.len() ==> text[x] != separator[0],
    ensures
        replaced(segmented(text, marks, separator), separator, Seq::empty()) == text,
{
    if text.len() > 0 {
        let tail = separated_from(text, marks, separator, 1);
        let inserted = separated(text, marks, separator);
        let kept = seq![text[0]] + tail;
        if marks[0] {
            assert(inserted.skip(separator.len() as int) == kept);
        }
        lemma_nothing_doubled(text, marks, separator, 0, separator.len() as int);
        lemma_separators_removed(text, marks, separator, 0);
    }
}

/// What is left of a single character without the marks.
proof fn lemma_without_marks_one(c: char)
    ensures
        without_marks(seq![c]) == if stack_marker(c) || killer_mark(c) {
            Seq::<char>::empty()
        } else {
            seq![c]
        },
{
    reveal_with_fuel(Seq::filter, 2);
}

/// What is left of a text without the marks, from its first character on.
proof fn lemma_without_marks_first(s: Seq<char>)
    requires
        s.len() > 0,
    ensures
        without_marks(s) == without_marks(seq![s[0]]) + without_marks(s.skip(1)),
{
    assert(seq![s[0]] + s.skip(1) == s);
    Seq::filter_distributes_over_add(
        seq![s[0]],
        s.skip(1),
        |c: char| !stack_marker(c) && !killer_mark(c),
    );
}

/// The first rewriting changes stack markers into killer marks and nothing
/// else.
pub proof fn lemma_killed_keeps_letters(s: Seq<char>)
    ensures
        without_marks(killed(s)) == without_marks(s),
    decreases s.len(),
{
    if s.len() > 0 {
        let after = killed(s);
        lemma_without_marks_first(s);
        lemma_without_marks_first(after);
        lemma_without_marks_one(s[0]);
        if stack_ahead(s) {
            lemma_killed_keeps_letters(s.skip(3));
            let s1 = s.skip(1);
            let s2 = s1.skip(1);
            let a1 = after.skip(1);
            let a2 = a1.skip(1);
            assert(s2.skip(1) == s.skip(3));
            assert(a2.skip(1) == killed(s.skip(3)));
            lemma_without_marks_first(s1);
            lemma_without_marks_first(s2);
            lemma_without_marks_first(a1);
            lemma_without_marks_first(a2);
            lemma_without_marks_one(s[1]);
            lemma_without_marks_one(s[2]);
            lemma_without_marks_one(KILLER_MARK);
        } else {
            lemma_killed_keeps_letters(s.skip(1));
        }
    }
}

/// The second rewriting drops stack markers and nothing else.
pub proof fn lemma_unstacked_keeps_letters(s: Seq<char>)
    ensures
        without_marks(unstacked(s)) == without_marks(s),
    decreases s.len(),
{
    if s.len() > 0 {
        let after = unstacked(s);
        lemma_without_marks_first(s);
        lemma_without_marks_first(after);
        lemma_without_marks_one(s[0]);
        if killed_stack_ahead(s) {
            lemma_unstacked_keeps_letters(s.skip(4));
            let s1 = s.skip(1);
            let s2 = s1.skip(1);
            let s3 = s2.skip(1);
            let a1 = after.skip(1);
            let a2 = a1.skip(1);
            assert(s3.skip(1) == s.skip(4));
            assert(a2.skip(1) == unstacked(s.skip(4)));
            lemma_without_marks_first(s1);
            lemma_without_marks_first(s2);
            lemma_without_marks_first(s3);
            lemma_without_marks_first(a1);
            lemma_without_marks_first(a2);
            lemma_without_marks_one(s[1]);
            lemma_without_marks_one(s[2]);
            lemma_without_marks_one(s[3]);
        } else if stack_ahead(s) {
            lemma_unstacked_keeps_letters(s.skip(3));
            let s1 = s.skip(1);
            let s2 = s1.skip(1);
            let a1 = after.skip(1);
            assert(s2.skip(1) == s.skip(3));
            assert(a1.skip(1) == unstacked(s.skip(3)));
            lemma_without_marks_first(s1);
            lemma_without_marks_first(s2);
            lemma_without_marks_first(a1);
            lemma_without_marks_one(s[1]);
            lemma_without_marks_one(s[2]);
        } else {
            lemma_unstacked_keeps_letters(s.skip(1));
        }
    }
}

/// A normal form holds no whitespace but single spaces between other
/// characters.
pub proof fn lemma_normalized_form(s: Seq<char>)
    ensures
        is_normalized(normalized(s)),
    decreases s.len(),
{
    if s.len() > 0 {
        let before = s.drop_last();
        let head = normalized(before);
        let form = normalized(s);
        lemma_normalized_form(before);
        lemma_normalized_ends_in_word(before);
        assert forall|i: int| 0 <= i < form.len() && whitespace(#[trigger] form[i]) implies form[i]
            == SPACE && 0 < i < form.len() - 1 && !whitespace(form[i - 1]) by {
            if i < head.len() {
                assert(form[i] == head[i]);
            }
        }
    }
}

/// What is left of a text and one more character without the whitespace.
proof fn lemma_without_whitespace_push(s: Seq<char>, c: char)
    ensures
        without_whitespace(s.push(c)) == if whitespace(c) {
            without_whitespace(s)
        } else {
            without_whitespace(s).push(c)
        },
{
    reveal(Seq::filter);
    assert(s.push(c).drop_last() == s);
}

/// Normalizing keeps every character that is no whitespace, in order.
pub proof fn lemma_normalized_keeps_words(s: Seq<char>)
    ensures
        without_whitespace(normalized(s)) == without_whitespace(s),
    decreases s.len(),
{
    if s.len() > 0 {
        let before = s.drop_last();
        let c = s.last();
        let head = normalized(before);
        lemma_normalized_keeps_words(before);
        assert(before.push(c) == s);
        lemma_without_whitespace_push(before, c);
        lemma_without_whitespace_push(head, c);
        lemma_without_whitespace_push(head, SPACE);
        lemma_without_whitespace_push(head.push(SPACE), c);
    }
}

} // verus!
