//! Text as sequences of characters: the few operations the scanner needs.

use vstd::prelude::*;
use vstd::std_specs::iter::IteratorSpec;
use vstd::string::group_string_axioms;

verus! {

/// `String::push` appends one character.
pub assume_specification[ String::push ](text: &mut String, ch: char)
    ensures
        final(text)@ == old(text)@.push(ch),
;

/// `String::pop` takes the last character off, if there is one.
pub assume_specification[ String::pop ](text: &mut String) -> (r: Option<char>)
    ensures
        old(text)@.len() == 0 ==> r is None && final(text)@ == old(text)@,
        old(text)@.len() > 0 ==> r == Some(old(text)@.last()) && final(text)@ == old(
            text,
        )@.drop_last(),
;

/// The characters of an optional text.
pub open spec fn text_view(text: Option<String>) -> Option<Seq<char>> {
    match text {
        Some(t) => Some(t@),
        None => None,
    }
}

/// The characters of `text`, in order.
pub fn chars_of(text: &str) -> (chars: Vec<char>)
    ensures
        chars@ == text@,
{
    broadcast use group_string_axioms;

    let mut chars: Vec<char> = Vec::new();
    let mut rest = text.chars();
    loop
        invariant
            rest.obeys_prophetic_iter_laws(),
            chars@ + rest.remaining() == text@,
        ensures
            chars@ == text@,
        decreases text@.len() - chars@.len(),
    {
        match rest.next() {
            Some(c) => {
                chars.push(c);
            },
            None => {
                break ;
            },
        }
    }
    chars
}

/// The text made of `chars`, in order.
pub fn text_of(chars: &Vec<char>) -> (text: String)
    ensures
        text@ == chars@,
{
    let mut text = String::new();
    let mut i: usize = 0;
    while i < chars.len()
        invariant
            i <= chars.len(),
            text@ == chars@.take(i as int),
        decreases chars.len() - i,
    {
        text.push(chars[i]);
        i += 1;
    }
    text
}

/// `text` with every occurrence of `pattern` taken out, found from the left
/// and never overlapping. An empty pattern occurs nowhere.
pub open spec fn without(text: Seq<char>, pattern: Seq<char>) -> Seq<char>
    decreases text.len(),
{
    if pattern.len() == 0 || text.len() == 0 {
        text
    } else if pattern.is_prefix_of(text) {
        without(text.skip(pattern.len() as int), pattern)
    } else {
        seq![text[0]] + without(text.skip(1), pattern)
    }
}

/// What follows the first `mark` in `text`; `None` if there is no `mark`.
pub open spec fn after_first(text: Seq<char>, mark: char) -> Option<Seq<char>>
    decreases text.len(),
{
    if text.len() == 0 {
        None
    } else if text[0] == mark {
        Some(text.skip(1))
    } else {
        after_first(text.skip(1), mark)
    }
}

/// The characters with Unicode's White_Space property.
pub open spec fn is_white_space(c: char) -> bool {
    ||| c == ' '
    ||| '\u{9}' <= c <= '\u{d}'
    ||| c == '\u{85}'
    ||| c == '\u{a0}'
    ||| c == '\u{1680}'
    ||| '\u{2000}' <= c <= '\u{200a}'
    ||| c == '\u{2028}'
    ||| c == '\u{2029}'
    ||| c == '\u{202f}'
    ||| c == '\u{205f}'
    ||| c == '\u{3000}'
}

/// `text` from its first character that is not white space.
pub open spec fn without_leading_space(text: Seq<char>) -> Seq<char>
    decreases text.len(),
{
    if text.len() > 0 && is_white_space(text[0]) {
        without_leading_space(text.skip(1))
    } else {
        text
    }
}

/// `text` up to its last character that is not white space.
pub open spec fn without_trailing_space(text: Seq<char>) -> Seq<char>
    decreases text.len(),
{
    if text.len() > 0 && is_white_space(text.last()) {
        without_trailing_space(text.drop_last())
    } else {
        text
    }
}

/// `text` without the white space at either end.
pub open spec fn trimmed(text: Seq<char>) -> Seq<char> {
    without_trailing_space(without_leading_space(text))
}

/// The value an annotation carries: what follows its first colon, without
/// the white space around it. `None` if the annotation has no colon.
pub open spec fn payload(annotation: Seq<char>) -> Option<Seq<char>> {
    match after_first(annotation, ':') {
        Some(rest) => Some(trimmed(rest)),
        None => None,
    }
}

/// Whether `c` is white space.
pub fn is_space(c: char) -> (r: bool)
    ensures
        r == is_white_space(c),
{
    c == ' ' || ('\u{9}' <= c && c <= '\u{d}') || c == '\u{85}' || c == '\u{a0}' || c
        == '\u{1680}' || ('\u{2000}' <= c && c <= '\u{200a}') || c == '\u{2028}' || c
        == '\u{2029}' || c == '\u{202f}' || c == '\u{205f}' || c == '\u{3000}'
}

/// Whether `pattern` stands in `text` at position `at`.
fn stands_at(text: &Vec<char>, at: usize, pattern: &Vec<char>) -> (r: bool)
    requires
        at <= text.len(),
    ensures
        r == pattern@.is_prefix_of(text@.skip(at as int)),
{
    if pattern.len() > text.len() - at {
        return false;
    }
    let mut j: usize = 0;
    while j < pattern.len()
        invariant
            j <= pattern.len(),
            at + pattern.len() <= text.len(),
            forall|k: int| 0 <= k < j ==> text[at + k] == pattern[k],
        decreases pattern.len() - j,
    {
        if text[at + j] != pattern[j] {
            assert(text@.skip(at as int).subrange(0, pattern@.len() as int)[j as int]
                != pattern@[j as int]);
            return false;
        }
        j += 1;
    }
    assert(pattern@ =~= text@.skip(at as int).subrange(0, pattern@.len() as int));
    true
}

/// The characters of `text` without the occurrences of `pattern`.
fn remove_chars(text: &Vec<char>, pattern: &Vec<char>) -> (r: Vec<char>)
    ensures
        r@ == without(text@, pattern@),
{
    let mut kept: Vec<char> = Vec::new();
    let mut i: usize = 0;
    assert(text@.skip(0) == text@);
    while i < text.len()
        invariant
            i <= text.len(),
            kept@ + without(text@.skip(i as int), pattern@) == without(text@, pattern@),
        decreases text.len() - i,
    {
        let ghost rest = text@.skip(i as int);
        if pattern.len() == 0 {
            assert(rest.skip(1) == text@.skip(i + 1));
            assert(without(rest, pattern@) == seq![text[i as int]] + without(
                rest.skip(1),
                pattern@,
            )) by {
                lemma_without_nothing(rest);
                lemma_without_nothing(rest.skip(1));
            }
            kept.push(text[i]);
            i += 1;
        } else if stands_at(text, i, pattern) {
            assert(rest.skip(pattern@.len() as int) == text@.skip(i + pattern@.len()));
            i += pattern.len();
        } else {
            assert(rest.skip(1) == text@.skip(i + 1));
            kept.push(text[i]);
            i += 1;
        }
    }
    assert(text@.skip(i as int).len() == 0);
    kept
}

/// Whether `pattern` occurs in `text` at position `at`.
pub open spec fn occurs_at(text: Seq<char>, pattern: Seq<char>, at: int) -> bool {
    0 <= at <= text.len() && pattern.is_prefix_of(text.skip(at))
}

/// A text in which the pattern does not occur is left as it is.
pub proof fn lemma_without_absent(text: Seq<char>, pattern: Seq<char>)
    requires
        forall|at: int| !occurs_at(text, pattern, at),
    ensures
        without(text, pattern) == text,
    decreases text.len(),
{
    if pattern.len() > 0 && text.len() > 0 {
        assert(!occurs_at(text, pattern, 0));
        assert(text.skip(0) =~= text);
        let rest = text.skip(1);
        assert forall|at: int| !occurs_at(rest, pattern, at) by {
            if 0 <= at <= rest.len() {
                assert(!occurs_at(text, pattern, at + 1));
                assert(rest.skip(at) =~= text.skip(at + 1));
            }
        }
        lemma_without_absent(rest, pattern);
        assert(seq![text[0]] + rest =~= text);
    }
}

/// A pattern that occurs once is taken out, and nothing else is.
///
/// Let a text be `before`, then `pattern`, then `after`, where the pattern
/// is not empty, occurs nowhere earlier in the text and does not occur in
/// `after`. Without the pattern, the text is `before` followed by `after`.
pub proof fn lemma_without_single(before: Seq<char>, pattern: Seq<char>, after: Seq<char>)
    requires
        pattern.len() > 0,
        forall|at: int|
            0 <= at < before.len() ==> !occurs_at(before + pattern + after, pattern, at),
        forall|at: int| !occurs_at(after, pattern, at),
    ensures
        without(before + pattern + after, pattern) == before + after,
    decreases before.len(),
{
    let text = before + pattern + after;
    if before.len() == 0 {
        assert(text.subrange(0, pattern.len() as int) =~= pattern);
        assert(text.skip(pattern.len() as int) =~= after);
        lemma_without_absent(after, pattern);
        assert(before + after =~= after);
    } else {
        assert(!occurs_at(text, pattern, 0));
        assert(text.skip(0) =~= text);
        let shorter = before.skip(1);
        assert(text.skip(1) =~= shorter + pattern + after);
        assert forall|at: int| 0 <= at < shorter.len() implies !occurs_at(
            shorter + pattern + after,
            pattern,
            at,
        ) by {
            assert(!occurs_at(text, pattern, at + 1));
            assert((shorter + pattern + after).skip(at) =~= text.skip(at + 1));
        }
        lemma_without_single(shorter, pattern, after);
        assert(seq![text[0]] + (shorter + after) =~= before + after);
    }
}

/// Taking out the empty pattern leaves a text as it is.
pub proof fn lemma_without_nothing(text: Seq<char>)
    ensures
        without(text, Seq::<char>::empty()) == text,
{
}

/// `text` without the occurrences of `pattern`.
pub fn remove_all(text: &str, pattern: &str) -> (r: String)
    ensures
        r@ == without(text@, pattern@),
{
    let kept = remove_chars(&chars_of(text), &chars_of(pattern));
    text_of(&kept)
}

/// The value that `annotation` carries after its first colon.
pub fn payload_of(annotation: &str) -> (r: Option<String>)
    ensures
        text_view(r) == payload(annotation@),
{
    let chars = chars_of(annotation);
    let mut colon: usize = 0;
    assert(chars@.skip(0) == chars@);
    while colon < chars.len() && chars[colon] != ':'
        invariant
            colon <= chars.len(),
            after_first(chars@.skip(colon as int), ':') == after_first(chars@, ':'),
        decreases chars.len() - colon,
    {
        assert(chars@.skip(colon as int).skip(1) == chars@.skip(colon + 1));
        colon += 1;
    }
    if colon == chars.len() {
        return None;
    }
    let ghost rest = chars@.skip(colon + 1);
    assert(chars@.skip(colon as int).skip(1) == rest);
    let mut from: usize = colon + 1;
    while from < chars.len() && is_space(chars[from])
        invariant
            colon < from <= chars.len(),
            without_leading_space(chars@.skip(from as int)) == without_leading_space(rest),
        decreases chars.len() - from,
    {
        assert(chars@.skip(from as int).skip(1) == chars@.skip(from + 1));
        from += 1;
    }
    let mut to: usize = chars.len();
    while to > from && is_space(chars[to - 1])
        invariant
            from <= to <= chars.len(),
            without_trailing_space(chars@.subrange(from as int, to as int))
                == without_trailing_space(chars@.skip(from as int)),
        decreases to,
    {
        assert(chars@.subrange(from as int, to as int).drop_last() == chars@.subrange(
            from as int,
            to - 1,
        ));
        to -= 1;
    }
    let mut value = String::new();
    let mut i: usize = from;
    while i < to
        invariant
            from <= i <= to <= chars.len(),
            value@ == chars@.subrange(from as int, i as int),
        decreases to - i,
    {
        value.push(chars[i]);
        i += 1;
    }
    Some(value)
}

} // verus!
