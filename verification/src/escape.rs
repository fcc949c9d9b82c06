//! HTML escaping of the texts that a page shows.

use crate::text::{ends_with, lemma_occurs_between, lemma_occurs_inside, occurs, occurs_at};
use vstd::prelude::*;

verus! {

/// The characters that HTML reads as markup, and that a page therefore shows as entities.
pub open spec fn is_markup(c: char) -> bool {
    c == '"' || c == '&' || c == '\'' || c == '<' || c == '>'
}

/// No character of `text` is markup.
pub open spec fn is_plain(text: Seq<char>) -> bool {
    forall|i: int| 0 <= i < text.len() ==> !is_markup(#[trigger] text[i])
}

/// What a page holds in place of `c`: the entity of a markup character, any other character
/// itself.
pub open spec fn escaped_char(c: char) -> Seq<char> {
    if c == '"' {
        seq!['&', 'q', 'u', 'o', 't', ';']
    } else if c == '&' {
        seq!['&', 'a', 'm', 'p', ';']
    } else if c == '\'' {
        seq!['&', '#', '0', '3', '9', ';']
    } else if c == '<' {
        seq!['&', 'l', 't', ';']
    } else if c == '>' {
        seq!['&', 'g', 't', ';']
    } else {
        seq![c]
    }
}

/// What a page holds in place of `text`: its characters in order, each one escaped.
pub open spec fn escaped(text: Seq<char>) -> Seq<char>
    decreases text.len(),
{
    if text.len() == 0 {
        Seq::empty()
    } else {
        escaped(text.drop_last()) + escaped_char(text.last())
    }
}

/// Escaping cannot bring about an occurrence of `needle`: it is not empty, holds neither of the
/// two characters that frame an entity, and stands inside no entity.
pub open spec fn survives_escaping(needle: Seq<char>) -> bool {
    &&& needle.len() > 0
    &&& !needle.contains('&')
    &&& !needle.contains(';')
    &&& forall|c: char| is_markup(c) ==> !occurs(#[trigger] escaped_char(c), needle)
}

/// Appends `text` to `out`, escaped.
///
/// Trusted: the body calls `sailfish::runtime::escape::escape_to_string`, which appends to its
/// second argument the bytes of the first, with each of `"`, `&`, `'`, `<` and `>` replaced by
/// `&quot;`, `&amp;`, `&#039;`, `&lt;` and `&gt;`. All five are ASCII, so no byte of a longer
/// character is touched, and the replacement is the same character by character.
#[verifier::external_body]
pub(crate) fn push_escaped(out: &mut String, text: &str)
    ensures
        final(out)@ == old(out)@ + escaped(text@),
{
    sailfish::runtime::escape::escape_to_string(text, out)
}

/// Escaping two texts one after the other is escaping them joined.
pub proof fn lemma_escaped_joined(first: Seq<char>, second: Seq<char>)
    ensures
        escaped(first + second) == escaped(first) + escaped(second),
    decreases second.len(),
{
    if second.len() == 0 {
        assert(first + second =~= first);
        assert(escaped(first) + escaped(second) =~= escaped(first));
    } else {
        let joined = first + second;
        assert(joined.drop_last() =~= first + second.drop_last());
        assert(joined.last() == second.last());
        lemma_escaped_joined(first, second.drop_last());
        assert(escaped(joined) =~= escaped(first) + (escaped(second.drop_last()) + escaped_char(
            second.last(),
        )));
    }
}

/// Escaping leaves a text without markup as it is.
pub proof fn lemma_plain_unchanged(text: Seq<char>)
    requires
        is_plain(text),
    ensures
        escaped(text) == text,
    decreases text.len(),
{
    if text.len() > 0 {
        lemma_plain_unchanged(text.drop_last());
        assert(!is_markup(text[text.len() - 1]));
        assert(escaped(text) =~= text.drop_last() + seq![text.last()]);
        assert(text.drop_last() + seq![text.last()] =~= text);
    }
}

/// What occurs in a text occurs in the escaped text, if it holds no markup.
pub proof fn lemma_escaping_keeps_plain_occurrence(text: Seq<char>, needle: Seq<char>)
    requires
        is_plain(needle),
        occurs(text, needle),
    ensures
        occurs(escaped(text), needle),
{
    let at: int = choose|at: int| occurs_at(text, needle, at);
    let before = text.take(at);
    let after = text.skip(at + needle.len());
    assert(text =~= before + needle + after);
    lemma_escaped_joined(before + needle, after);
    lemma_escaped_joined(before, needle);
    lemma_plain_unchanged(needle);
    lemma_occurs_between(escaped(before), needle, escaped(after));
}

/// Where the escaped text ends with the first `k` characters of `needle`, and `needle` holds no
/// `;`, the text itself ends with them.
proof fn lemma_escaped_tail(text: Seq<char>, needle: Seq<char>, k: int)
    requires
        0 <= k <= needle.len(),
        !needle.contains(';'),
        ends_with(escaped(text), needle.take(k)),
    ensures
        ends_with(text, needle.take(k)),
    decreases k,
{
    let part = needle.take(k);
    if k == 0 {
        assert(text.subrange(text.len() as int, text.len() as int) =~= part);
    } else {
        let shown = escaped(text);
        assert(shown.len() >= k);
        assert(text.len() > 0);
        let rest = text.drop_last();
        let c = text.last();
        let unit = escaped_char(c);
        assert(shown == escaped(rest) + unit);
        assert(shown.subrange(shown.len() - k, shown.len() as int)[k - 1] == part[k - 1]);
        assert(shown.last() == needle[k - 1]);
        assert(needle.contains(needle[k - 1]));
        assert(unit.last() == shown.last());
        assert(!is_markup(c));
        assert(unit =~= seq![c]);
        assert(escaped(rest) =~= shown.drop_last());
        assert(escaped(rest).subrange(escaped(rest).len() - (k - 1), escaped(rest).len() as int)
            =~= shown.subrange(shown.len() - k, shown.len() as int).drop_last());
        assert(part.drop_last() =~= needle.take(k - 1));
        lemma_escaped_tail(rest, needle, k - 1);
        assert(text.subrange(text.len() - k, text.len() as int) =~= rest.subrange(
            rest.len() - (k - 1),
            rest.len() as int,
        ) + seq![c]);
        assert(needle.take(k - 1) + seq![c] =~= part);
    }
}

/// Escaping brings about no occurrence of a text that survives it: what occurs in the escaped
/// text occurs in the text.
pub proof fn lemma_escaping_adds_no_occurrence(text: Seq<char>, needle: Seq<char>)
    requires
        survives_escaping(needle),
        occurs(escaped(text), needle),
    ensures
        occurs(text, needle),
    decreases text.len(),
{
    let shown = escaped(text);
    let at: int = choose|at: int| occurs_at(shown, needle, at);
    let found = shown.subrange(at, at + needle.len());
    assert(text.len() > 0);
    let rest = text.drop_last();
    let c = text.last();
    let head = escaped(rest);
    let unit = escaped_char(c);
    assert(shown == head + unit);
    if at + needle.len() <= head.len() {
        assert(head.subrange(at, at + needle.len()) =~= found);
        assert(occurs_at(head, needle, at));
        lemma_escaping_adds_no_occurrence(rest, needle);
        lemma_occurs_inside(Seq::empty(), rest, seq![c], needle);
        assert(Seq::empty() + rest + seq![c] =~= text);
    } else if is_markup(c) {
        if at >= head.len() {
            assert(unit.subrange(at - head.len(), at - head.len() + needle.len()) =~= found);
            assert(occurs_at(unit, needle, at - head.len()));
        } else {
            assert(found[head.len() - at] == unit[0]);
            assert(unit[0] == '&');
            assert(needle.contains(needle[head.len() - at]));
        }
        assert(false);
    } else {
        assert(unit =~= seq![c]);
        assert(needle.take(needle.len() as int) =~= needle);
        lemma_escaped_tail(text, needle, needle.len() as int);
        assert(occurs_at(text, needle, text.len() - needle.len()));
    }
}

/// A text of five characters or more, none of them `&` or `;`, survives escaping: the entities
/// hold at most four characters between the two.
pub proof fn lemma_long_word_survives(needle: Seq<char>)
    requires
        needle.len() >= 5,
        !needle.contains('&'),
        !needle.contains(';'),
    ensures
        survives_escaping(needle),
{
    assert forall|c: char| is_markup(c) implies !occurs(#[trigger] escaped_char(c), needle) by {
        let unit = escaped_char(c);
        if occurs(unit, needle) {
            let at: int = choose|at: int| occurs_at(unit, needle, at);
            let found = unit.subrange(at, at + needle.len());
            if at == 0 {
                assert(found[0] == unit[0]);
                assert(needle.contains(needle[0]));
            } else {
                assert(found[unit.len() - 1 - at] == unit[unit.len() - 1]);
                assert(needle.contains(needle[unit.len() - 1 - at]));
            }
            assert(false);
        }
    }
}

} // verus!
