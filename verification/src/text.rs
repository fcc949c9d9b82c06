//! Occurrences of one text inside another, as the statements about a rendered page need them.

use vstd::prelude::*;

verus! {

/// `needle` stands in `hay`, its first character at index `at`.
pub open spec fn occurs_at(hay: Seq<char>, needle: Seq<char>, at: int) -> bool {
    &&& 0 <= at
    &&& at + needle.len() <= hay.len()
    &&& hay.subrange(at, at + needle.len()) == needle
}

/// `needle` stands somewhere in `hay`.
pub open spec fn occurs(hay: Seq<char>, needle: Seq<char>) -> bool {
    exists|at: int| occurs_at(hay, needle, at)
}

/// `hay` ends with `tail`.
pub open spec fn ends_with(hay: Seq<char>, tail: Seq<char>) -> bool {
    occurs_at(hay, tail, hay.len() - tail.len())
}

/// A text that is put between two others stands right behind the first.
pub proof fn lemma_occurs_between(before: Seq<char>, needle: Seq<char>, after: Seq<char>)
    ensures
        occurs_at(before + needle + after, needle, before.len() as int),
        occurs(before + needle + after, needle),
{
    let hay = before + needle + after;
    let at: int = before.len() as int;
    assert(hay.subrange(at, at + needle.len()) =~= needle);
}

/// An occurrence stays one when text is put before and behind, and moves by the length of what
/// was put before.
pub proof fn lemma_occurs_at_inside(
    before: Seq<char>,
    hay: Seq<char>,
    after: Seq<char>,
    needle: Seq<char>,
    at: int,
)
    requires
        occurs_at(hay, needle, at),
    ensures
        occurs_at(before + hay + after, needle, before.len() + at),
{
    let wide = before + hay + after;
    assert(wide.subrange(before.len() + at, before.len() + at + needle.len()) =~= hay.subrange(
        at,
        at + needle.len(),
    ));
}

/// What occurs in a text occurs in every text that holds it.
pub proof fn lemma_occurs_inside(
    before: Seq<char>,
    hay: Seq<char>,
    after: Seq<char>,
    needle: Seq<char>,
)
    requires
        occurs(hay, needle),
    ensures
        occurs(before + hay + after, needle),
{
    let at: int = choose|at: int| occurs_at(hay, needle, at);
    lemma_occurs_at_inside(before, hay, after, needle, at);
}

/// What occurs in a text that occurs in another occurs in the other.
pub proof fn lemma_occurs_within(hay: Seq<char>, part: Seq<char>, needle: Seq<char>)
    requires
        occurs(hay, part),
        occurs(part, needle),
    ensures
        occurs(hay, needle),
{
    let at: int = choose|at: int| occurs_at(hay, part, at);
    let before = hay.take(at);
    let after = hay.skip(at + part.len());
    assert(hay =~= before + part + after);
    lemma_occurs_inside(before, part, after, needle);
}

/// An occurrence of a text that is not empty begins with that text's first character.
pub proof fn lemma_occurrence_starts(hay: Seq<char>, needle: Seq<char>)
    requires
        occurs(hay, needle),
        needle.len() > 0,
    ensures
        hay.contains(needle[0]),
{
    let at: int = choose|at: int| occurs_at(hay, needle, at);
    assert(hay.subrange(at, at + needle.len())[0] == needle[0]);
    assert(hay[at] == needle[0]);
}

/// The two texts meet at a character that `needle` does not hold, or one of them is empty: no
/// occurrence of `needle` can then lie across the place where they meet.
pub open spec fn parted(left: Seq<char>, right: Seq<char>, needle: Seq<char>) -> bool {
    ||| left.len() == 0
    ||| right.len() == 0
    ||| !needle.contains(left.last())
    ||| !needle.contains(right.first())
}

/// Where two texts are parted, what occurs in them joined occurs in one of them.
pub proof fn lemma_occurs_in_one_part(left: Seq<char>, right: Seq<char>, needle: Seq<char>)
    requires
        occurs(left + right, needle),
        parted(left, right, needle),
    ensures
        occurs(left, needle) || occurs(right, needle),
{
    let hay = left + right;
    let at: int = choose|at: int| occurs_at(hay, needle, at);
    let found = hay.subrange(at, at + needle.len());
    if at + needle.len() <= left.len() {
        assert(left.subrange(at, at + needle.len()) =~= found);
        assert(occurs_at(left, needle, at));
    } else if at >= left.len() {
        assert(right.subrange(at - left.len(), at - left.len() + needle.len()) =~= found);
        assert(occurs_at(right, needle, at - left.len()));
    } else {
        // The occurrence holds the last character of `left` and the first of `right`.
        assert(found[left.len() - 1 - at] == left.last());
        assert(found[left.len() - at] == right.first());
        assert(needle.contains(needle[left.len() - 1 - at]));
        assert(needle.contains(needle[left.len() - at]));
        assert(false);
    }
}

} // verus!
