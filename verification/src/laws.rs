//! What holds of every page, and of the page for every request.

use crate::escape::{
    escaped, is_plain, lemma_escaping_adds_no_occurrence, lemma_escaping_keeps_plain_occurrence,
    lemma_long_word_survives, lemma_plain_unchanged, survives_escaping,
};
use crate::handler::{context_of, DEFAULT_NAME, DEFAULT_PLACE, NAME_KEY, PLACE_KEY};
use crate::request::first_value;
use crate::template::{
    header_row, header_rows, message_row, message_rows, page, shown_value, Context, HEADER_CLOSE,
    HEADER_MIDDLE, HEADER_OPEN, LIST_OPEN, MESSAGE_CLOSE, MESSAGE_OPEN, PAGE_CLOSE, PAGE_OPEN,
};
use crate::text::{
    lemma_occurrence_starts, lemma_occurs_at_inside, lemma_occurs_between, lemma_occurs_in_one_part,
    lemma_occurs_within, occurs, occurs_at, parted,
};
use vstd::prelude::*;

verus! {

/// Where the line of message `i` begins in the page.
pub open spec fn message_row_start(context: Context, i: int) -> int {
    PAGE_OPEN@.len() + message_rows(context.messages.take(i)).len() as int
}

/// Where the line of header `i` begins in the page.
pub open spec fn header_row_start(context: Context, i: int) -> int {
    PAGE_OPEN@.len() + message_rows(context.messages).len() + LIST_OPEN@.len() + header_rows(
        context.headers.take(i),
    ).len() as int
}

/// `piece` is one of the fixed texts that the page is framed with.
pub open spec fn is_frame_piece(piece: Seq<char>) -> bool {
    ||| piece == PAGE_OPEN@
    ||| piece == MESSAGE_OPEN@
    ||| piece == MESSAGE_CLOSE@
    ||| piece == LIST_OPEN@
    ||| piece == HEADER_OPEN@
    ||| piece == HEADER_MIDDLE@
    ||| piece == HEADER_CLOSE@
    ||| piece == PAGE_CLOSE@
}

/// The frame of the page can neither hold `needle` nor a part of it: `needle` holds none of
/// the characters with which the fixed texts begin and end, and stands in none of them.
pub open spec fn foreign_to_frame(needle: Seq<char>) -> bool {
    &&& !needle.contains(' ')
    &&& !needle.contains('\n')
    &&& !needle.contains('<')
    &&& !needle.contains('>')
    &&& forall|piece: Seq<char>| is_frame_piece(piece) ==> !occurs(piece, needle)
}

/// `needle` stands in one of the texts that the page shows: a message, the name of a header or
/// the value of one.
pub open spec fn occurs_in_shown(context: Context, needle: Seq<char>) -> bool {
    ||| exists|i: int| 0 <= i < context.messages.len() && occurs(#[trigger] context.messages[i], needle)
    ||| exists|j: int|
        0 <= j < context.headers.len() && (occurs((#[trigger] context.headers[j]).0, needle)
            || occurs(context.headers[j].1, needle))
}

/// The characters with which the fixed texts of the page begin and end.
proof fn lemma_frame_edges()
    ensures
        PAGE_OPEN@.len() > 0 && PAGE_OPEN@.last() == '\n',
        MESSAGE_OPEN@.len() > 0 && MESSAGE_OPEN@.first() == ' ' && MESSAGE_OPEN@.last() == '>',
        MESSAGE_CLOSE@.len() > 0 && MESSAGE_CLOSE@.first() == '<',
        LIST_OPEN@.len() > 0 && LIST_OPEN@.first() == ' ' && LIST_OPEN@.last() == '\n',
        HEADER_OPEN@.len() > 0 && HEADER_OPEN@.first() == ' ' && HEADER_OPEN@.last() == '>',
        HEADER_MIDDLE@.len() > 0 && HEADER_MIDDLE@.first() == '<' && HEADER_MIDDLE@.last() == '>',
        HEADER_CLOSE@.len() > 0 && HEADER_CLOSE@.first() == '<',
        PAGE_CLOSE@.len() > 0 && PAGE_CLOSE@.first() == ' ',
{
    reveal_strlit("<!DOCTYPE html>\n<html>\n  <body>\n");
    reveal_strlit("    <div>");
    reveal_strlit("</div>\n");
    reveal_strlit("    <dl>\n");
    reveal_strlit("      <dt>");
    reveal_strlit("</dt><dd>");
    reveal_strlit("</dd>\n");
    reveal_strlit("    </dl>\n  </body>\n</html>\n");
}

/// The lines of two runs of messages, one after the other, are the lines of the joined run.
pub proof fn lemma_message_rows_joined(first: Seq<Seq<char>>, second: Seq<Seq<char>>)
    ensures
        message_rows(first + second) == message_rows(first) + message_rows(second),
    decreases second.len(),
{
    if second.len() == 0 {
        assert(first + second =~= first);
        assert(message_rows(first) + message_rows(second) =~= message_rows(first));
    } else {
        let joined = first + second;
        assert(joined.drop_last() =~= first + second.drop_last());
        assert(joined.last() == second.last());
        lemma_message_rows_joined(first, second.drop_last());
        assert(message_rows(joined) =~= message_rows(first) + (message_rows(second.drop_last())
            + message_row(second.last())));
    }
}

/// The lines of two runs of headers, one after the other, are the lines of the joined run.
pub proof fn lemma_header_rows_joined(
    first: Seq<(Seq<char>, Seq<char>)>,
    second: Seq<(Seq<char>, Seq<char>)>,
)
    ensures
        header_rows(first + second) == header_rows(first) + header_rows(second),
    decreases second.len(),
{
    if second.len() == 0 {
        assert(first + second =~= first);
        assert(header_rows(first) + header_rows(second) =~= header_rows(first));
    } else {
        let joined = first + second;
        assert(joined.drop_last() =~= first + second.drop_last());
        assert(joined.last() == second.last());
        lemma_header_rows_joined(first, second.drop_last());
        assert(header_rows(joined) =~= header_rows(first) + (header_rows(second.drop_last())
            + header_row(second.last())));
    }
}

/// The page shows the messages in their order: the line of each message stands in the page,
/// the first right behind the opening of the page, each other where the line before it ends;
/// and in its line stands the message, escaped.
pub proof fn lemma_messages_in_order(context: Context, i: int)
    requires
        0 <= i < context.messages.len(),
    ensures
        message_row_start(context, 0) == PAGE_OPEN@.len(),
        occurs_at(page(context), message_row(context.messages[i]), message_row_start(context, i)),
        message_row_start(context, i + 1) == message_row_start(context, i) + message_row(
            context.messages[i],
        ).len(),
        occurs_at(
            page(context),
            escaped(context.messages[i]),
            message_row_start(context, i) + MESSAGE_OPEN@.len(),
        ),
        occurs(page(context), escaped(context.messages[i])),
{
    let messages = context.messages;
    let before = messages.take(i);
    let after = messages.skip(i + 1);
    let row = message_row(messages[i]);
    assert(messages.take(0) =~= Seq::<Seq<char>>::empty());
    assert(messages.take(i + 1).drop_last() =~= before);
    assert(messages.take(i + 1).last() == messages[i]);
    assert(messages =~= messages.take(i + 1) + after);
    lemma_message_rows_joined(messages.take(i + 1), after);
    let left = PAGE_OPEN@ + message_rows(before);
    let right = message_rows(after) + LIST_OPEN@ + header_rows(context.headers) + PAGE_CLOSE@;
    assert(page(context) =~= left + row + right);
    lemma_occurs_between(left, row, right);
    lemma_occurs_between(MESSAGE_OPEN@, escaped(messages[i]), MESSAGE_CLOSE@);
    lemma_occurs_at_inside(left, row, right, escaped(messages[i]), MESSAGE_OPEN@.len() as int);
}

/// The page lists the headers in their order: the line of each header stands in the page, the
/// first right behind the opening of the list, each other where the line before it ends; and in
/// its line stand the name of the header and, behind it, the value, both escaped.
pub proof fn lemma_headers_in_order(context: Context, i: int)
    requires
        0 <= i < context.headers.len(),
    ensures
        header_row_start(context, 0) == PAGE_OPEN@.len() + message_rows(context.messages).len()
            + LIST_OPEN@.len(),
        occurs_at(page(context), header_row(context.headers[i]), header_row_start(context, i)),
        header_row_start(context, i + 1) == header_row_start(context, i) + header_row(
            context.headers[i],
        ).len(),
        occurs_at(
            page(context),
            escaped(context.headers[i].0),
            header_row_start(context, i) + HEADER_OPEN@.len(),
        ),
        occurs_at(
            page(context),
            escaped(context.headers[i].1),
            header_row_start(context, i) + HEADER_OPEN@.len() + escaped(context.headers[i].0).len()
                + HEADER_MIDDLE@.len(),
        ),
        occurs(page(context), escaped(context.headers[i].0)),
        occurs(page(context), escaped(context.headers[i].1)),
{
    let headers = context.headers;
    let before = headers.take(i);
    let after = headers.skip(i + 1);
    let name = escaped(headers[i].0);
    let value = escaped(headers[i].1);
    let row = header_row(headers[i]);
    assert(headers.take(0) =~= Seq::<(Seq<char>, Seq<char>)>::empty());
    assert(headers.take(i + 1).drop_last() =~= before);
    assert(headers.take(i + 1).last() == headers[i]);
    assert(headers =~= headers.take(i + 1) + after);
    lemma_header_rows_joined(headers.take(i + 1), after);
    let left = PAGE_OPEN@ + message_rows(context.messages) + LIST_OPEN@ + header_rows(before);
    let right = header_rows(after) + PAGE_CLOSE@;
    assert(page(context) =~= left + row + right);
    lemma_occurs_between(left, row, right);
    assert(row =~= HEADER_OPEN@ + name + (HEADER_MIDDLE@ + value + HEADER_CLOSE@));
    lemma_occurs_between(HEADER_OPEN@, name, HEADER_MIDDLE@ + value + HEADER_CLOSE@);
    lemma_occurs_at_inside(left, row, right, name, HEADER_OPEN@.len() as int);
    assert(row =~= (HEADER_OPEN@ + name + HEADER_MIDDLE@) + value + HEADER_CLOSE@);
    lemma_occurs_between(HEADER_OPEN@ + name + HEADER_MIDDLE@, value, HEADER_CLOSE@);
    lemma_occurs_at_inside(
        left,
        row,
        right,
        value,
        (HEADER_OPEN@.len() + name.len() + HEADER_MIDDLE@.len()) as int,
    );
}

/// A text without markup that stands in one of the texts shown stands in the page.
pub proof fn lemma_plain_occurrence_is_shown(context: Context, needle: Seq<char>)
    requires
        is_plain(needle),
        occurs_in_shown(context, needle),
    ensures
        occurs(page(context), needle),
{
    let page = page(context);
    if exists|i: int| 0 <= i < context.messages.len() && occurs(#[trigger] context.messages[i], needle) {
        let i: int = choose|i: int|
            0 <= i < context.messages.len() && occurs(#[trigger] context.messages[i], needle);
        let shown = escaped(context.messages[i]);
        lemma_escaping_keeps_plain_occurrence(context.messages[i], needle);
        lemma_messages_in_order(context, i);
        lemma_occurs_within(page, shown, needle);
    } else {
        let j: int = choose|j: int|
            0 <= j < context.headers.len() && (occurs((#[trigger] context.headers[j]).0, needle)
                || occurs(context.headers[j].1, needle));
        lemma_headers_in_order(context, j);
        if occurs(context.headers[j].0, needle) {
            lemma_escaping_keeps_plain_occurrence(context.headers[j].0, needle);
            lemma_occurs_within(page, escaped(context.headers[j].0), needle);
        } else {
            lemma_escaping_keeps_plain_occurrence(context.headers[j].1, needle);
            lemma_occurs_within(page, escaped(context.headers[j].1), needle);
        }
    }
}

/// What occurs in the line of a message occurs in the message.
proof fn lemma_message_row_adds_no_occurrence(message: Seq<char>, needle: Seq<char>)
    requires
        survives_escaping(needle),
        foreign_to_frame(needle),
        occurs(message_row(message), needle),
    ensures
        occurs(message, needle),
{
    lemma_frame_edges();
    let open = MESSAGE_OPEN@;
    let close = MESSAGE_CLOSE@;
    let shown = escaped(message);
    assert(is_frame_piece(open) && is_frame_piece(close));
    assert(parted(open + shown, close, needle));
    lemma_occurs_in_one_part(open + shown, close, needle);
    assert(parted(open, shown, needle));
    lemma_occurs_in_one_part(open, shown, needle);
    lemma_escaping_adds_no_occurrence(message, needle);
}

/// What occurs in the lines of the messages occurs in one of the messages.
proof fn lemma_message_rows_add_no_occurrence(messages: Seq<Seq<char>>, needle: Seq<char>)
    requires
        survives_escaping(needle),
        foreign_to_frame(needle),
        occurs(message_rows(messages), needle),
    ensures
        exists|i: int| 0 <= i < messages.len() && occurs(#[trigger] messages[i], needle),
    decreases messages.len(),
{
    lemma_frame_edges();
    if messages.len() == 0 {
        let at: int = choose|at: int| occurs_at(message_rows(messages), needle, at);
        assert(false);
    } else {
        let before = message_rows(messages.drop_last());
        let row = message_row(messages.last());
        assert(row.first() == MESSAGE_OPEN@.first());
        assert(parted(before, row, needle));
        lemma_occurs_in_one_part(before, row, needle);
        if occurs(row, needle) {
            lemma_message_row_adds_no_occurrence(messages.last(), needle);
            assert(occurs(messages[messages.len() - 1], needle));
        } else {
            lemma_message_rows_add_no_occurrence(messages.drop_last(), needle);
            let i: int = choose|i: int|
                0 <= i < messages.drop_last().len() && occurs(
                    #[trigger] messages.drop_last()[i],
                    needle,
                );
            assert(occurs(messages[i], needle));
        }
    }
}

/// What occurs in the line of a header occurs in its name or in its value.
proof fn lemma_header_row_adds_no_occurrence(header: (Seq<char>, Seq<char>), needle: Seq<char>)
    requires
        survives_escaping(needle),
        foreign_to_frame(needle),
        occurs(header_row(header), needle),
    ensures
        occurs(header.0, needle) || occurs(header.1, needle),
{
    lemma_frame_edges();
    let open = HEADER_OPEN@;
    let middle = HEADER_MIDDLE@;
    let close = HEADER_CLOSE@;
    let name = escaped(header.0);
    let value = escaped(header.1);
    assert(is_frame_piece(open) && is_frame_piece(middle) && is_frame_piece(close));
    assert(parted(open + name + middle + value, close, needle));
    lemma_occurs_in_one_part(open + name + middle + value, close, needle);
    assert((open + name + middle).last() == middle.last());
    assert(parted(open + name + middle, value, needle));
    lemma_occurs_in_one_part(open + name + middle, value, needle);
    if occurs(value, needle) {
        lemma_escaping_adds_no_occurrence(header.1, needle);
    } else {
        assert(parted(open + name, middle, needle));
        lemma_occurs_in_one_part(open + name, middle, needle);
        assert(parted(open, name, needle));
        lemma_occurs_in_one_part(open, name, needle);
        lemma_escaping_adds_no_occurrence(header.0, needle);
    }
}

/// What occurs in the lines of the headers occurs in the name or the value of one of them.
proof fn lemma_header_rows_add_no_occurrence(
    headers: Seq<(Seq<char>, Seq<char>)>,
    needle: Seq<char>,
)
    requires
        survives_escaping(needle),
        foreign_to_frame(needle),
        occurs(header_rows(headers), needle),
    ensures
        exists|j: int|
            0 <= j < headers.len() && (occurs((#[trigger] headers[j]).0, needle) || occurs(
                headers[j].1,
                needle,
            )),
    decreases headers.len(),
{
    lemma_frame_edges();
    if headers.len() == 0 {
        let at: int = choose|at: int| occurs_at(header_rows(headers), needle, at);
        assert(false);
    } else {
        let before = header_rows(headers.drop_last());
        let row = header_row(headers.last());
        assert(row.first() == HEADER_OPEN@.first());
        assert(parted(before, row, needle));
        lemma_occurs_in_one_part(before, row, needle);
        if occurs(row, needle) {
            lemma_header_row_adds_no_occurrence(headers.last(), needle);
            let j: int = headers.len() - 1;
            assert(occurs(headers[j].0, needle) || occurs(headers[j].1, needle));
        } else {
            lemma_header_rows_add_no_occurrence(headers.drop_last(), needle);
            let j: int = choose|j: int|
                0 <= j < headers.drop_last().len() && (occurs(
                    (#[trigger] headers.drop_last()[j]).0,
                    needle,
                ) || occurs(headers.drop_last()[j].1, needle));
            assert(occurs(headers[j].0, needle) || occurs(headers[j].1, needle));
        }
    }
}

/// The page brings nothing with it: a text that survives escaping and is foreign to the frame
/// stands in the page only if it stands in one of the texts shown.
pub proof fn lemma_page_adds_no_occurrence(context: Context, needle: Seq<char>)
    requires
        survives_escaping(needle),
        foreign_to_frame(needle),
        occurs(page(context), needle),
    ensures
        occurs_in_shown(context, needle),
{
    lemma_frame_edges();
    let open = PAGE_OPEN@;
    let messages = message_rows(context.messages);
    let list = LIST_OPEN@;
    let headers = header_rows(context.headers);
    let close = PAGE_CLOSE@;
    assert(is_frame_piece(open) && is_frame_piece(list) && is_frame_piece(close));
    assert(parted(open + messages + list + headers, close, needle));
    lemma_occurs_in_one_part(open + messages + list + headers, close, needle);
    assert((open + messages + list).last() == list.last());
    assert(parted(open + messages + list, headers, needle));
    lemma_occurs_in_one_part(open + messages + list, headers, needle);
    if occurs(headers, needle) {
        lemma_header_rows_add_no_occurrence(context.headers, needle);
    } else {
        assert(parted(open + messages, list, needle));
        lemma_occurs_in_one_part(open + messages, list, needle);
        assert(parted(open, messages, needle));
        lemma_occurs_in_one_part(open, messages, needle);
        lemma_message_rows_add_no_occurrence(context.messages, needle);
    }
}

/// The name and the place that are shown by default hold no markup, survive escaping and are
/// foreign to the frame of the page.
pub proof fn lemma_defaults_are_foreign()
    ensures
        is_plain(DEFAULT_NAME@),
        survives_escaping(DEFAULT_NAME@),
        foreign_to_frame(DEFAULT_NAME@),
        is_plain(DEFAULT_PLACE@),
        survives_escaping(DEFAULT_PLACE@),
        foreign_to_frame(DEFAULT_PLACE@),
{
    reveal_strlit("jared");
    reveal_strlit("world");
    reveal_strlit("<!DOCTYPE html>\n<html>\n  <body>\n");
    reveal_strlit("    <div>");
    reveal_strlit("</div>\n");
    reveal_strlit("    <dl>\n");
    reveal_strlit("      <dt>");
    reveal_strlit("</dt><dd>");
    reveal_strlit("</dd>\n");
    reveal_strlit("    </dl>\n  </body>\n</html>\n");
    lemma_long_word_survives(DEFAULT_NAME@);
    lemma_long_word_survives(DEFAULT_PLACE@);
    assert forall|piece: Seq<char>| is_frame_piece(piece) implies !occurs(piece, DEFAULT_NAME@) by {
        assert(!piece.contains('j'));
        if occurs(piece, DEFAULT_NAME@) {
            lemma_occurrence_starts(piece, DEFAULT_NAME@);
        }
    }
    assert forall|piece: Seq<char>| is_frame_piece(piece) implies !occurs(piece, DEFAULT_PLACE@) by {
        assert(!piece.contains('w'));
        if occurs(piece, DEFAULT_PLACE@) {
            lemma_occurrence_starts(piece, DEFAULT_PLACE@);
        }
    }
}

/// Where a request names nobody the page greets `jared`, and where it names no place the page
/// says `world`.
pub proof fn lemma_defaults_are_shown(
    query: Map<Seq<char>, Seq<Seq<char>>>,
    entries: Seq<(Seq<char>, Seq<u8>)>,
)
    ensures
        first_value(query, NAME_KEY@) is None ==> occurs(
            page(context_of(query, entries)),
            DEFAULT_NAME@,
        ),
        first_value(query, PLACE_KEY@) is None ==> occurs(
            page(context_of(query, entries)),
            DEFAULT_PLACE@,
        ),
{
    let context = context_of(query, entries);
    lemma_defaults_are_foreign();
    lemma_plain_unchanged(DEFAULT_NAME@);
    lemma_plain_unchanged(DEFAULT_PLACE@);
    lemma_messages_in_order(context, 0);
    lemma_messages_in_order(context, 1);
}

/// The page shows the name and the place that a request gives: each stands in the page,
/// escaped, and so as it was given where it holds no markup.
pub proof fn lemma_given_texts_are_shown(
    query: Map<Seq<char>, Seq<Seq<char>>>,
    entries: Seq<(Seq<char>, Seq<u8>)>,
)
    ensures
        first_value(query, NAME_KEY@) matches Some(name) ==> occurs(
            page(context_of(query, entries)),
            escaped(name),
        ),
        first_value(query, NAME_KEY@) matches Some(name) ==> (is_plain(name) ==> occurs(
            page(context_of(query, entries)),
            name,
        )),
        first_value(query, PLACE_KEY@) matches Some(place) ==> occurs(
            page(context_of(query, entries)),
            escaped(place),
        ),
        first_value(query, PLACE_KEY@) matches Some(place) ==> (is_plain(place) ==> occurs(
            page(context_of(query, entries)),
            place,
        )),
{
    let context = context_of(query, entries);
    lemma_messages_in_order(context, 0);
    lemma_messages_in_order(context, 1);
    if is_plain(context.messages[0]) {
        lemma_plain_unchanged(context.messages[0]);
    }
    if is_plain(context.messages[1]) {
        lemma_plain_unchanged(context.messages[1]);
    }
}

/// The default name stands in a page exactly if it stands in one of the texts shown, and so
/// does the default place.
pub proof fn lemma_defaults_only_where_shown(context: Context)
    ensures
        occurs(page(context), DEFAULT_NAME@) <==> occurs_in_shown(context, DEFAULT_NAME@),
        occurs(page(context), DEFAULT_PLACE@) <==> occurs_in_shown(context, DEFAULT_PLACE@),
{
    lemma_defaults_are_foreign();
    if occurs(page(context), DEFAULT_NAME@) {
        lemma_page_adds_no_occurrence(context, DEFAULT_NAME@);
    }
    if occurs_in_shown(context, DEFAULT_NAME@) {
        lemma_plain_occurrence_is_shown(context, DEFAULT_NAME@);
    }
    if occurs(page(context), DEFAULT_PLACE@) {
        lemma_page_adds_no_occurrence(context, DEFAULT_PLACE@);
    }
    if occurs_in_shown(context, DEFAULT_PLACE@) {
        lemma_plain_occurrence_is_shown(context, DEFAULT_PLACE@);
    }
}

/// A name that the request gives takes the place of the default: where `jared` stands neither
/// in the name given, nor in the place shown, nor in the name or the shown value of a header,
/// it does not stand in the page.
pub proof fn lemma_given_name_replaces_default(
    query: Map<Seq<char>, Seq<Seq<char>>>,
    entries: Seq<(Seq<char>, Seq<u8>)>,
)
    requires
        first_value(query, NAME_KEY@) matches Some(name) && !occurs(name, DEFAULT_NAME@),
        !occurs(first_value(query, PLACE_KEY@).unwrap_or(DEFAULT_PLACE@), DEFAULT_NAME@),
        forall|j: int|
            0 <= j < entries.len() ==> !occurs((#[trigger] entries[j]).0, DEFAULT_NAME@) && !occurs(
                shown_value(entries[j].1),
                DEFAULT_NAME@,
            ),
    ensures
        !occurs(page(context_of(query, entries)), DEFAULT_NAME@),
{
    let context = context_of(query, entries);
    lemma_defaults_only_where_shown(context);
    if occurs_in_shown(context, DEFAULT_NAME@) {
        if exists|i: int|
            0 <= i < context.messages.len() && occurs(#[trigger] context.messages[i], DEFAULT_NAME@) {
            let i: int = choose|i: int|
                0 <= i < context.messages.len() && occurs(
                    #[trigger] context.messages[i],
                    DEFAULT_NAME@,
                );
            assert(i == 0 || i == 1);
        } else {
            let j: int = choose|j: int|
                0 <= j < context.headers.len() && (occurs(
                    (#[trigger] context.headers[j]).0,
                    DEFAULT_NAME@,
                ) || occurs(context.headers[j].1, DEFAULT_NAME@));
            assert(context.headers[j] == (entries[j].0, shown_value(entries[j].1)));
        }
        assert(false);
    }
}

/// The page for a request lists the headers of the request in their order: the line of each
/// header stands in the page, the first right behind the opening of the list, each other where
/// the line before it ends. In its line stand the name of the header and, behind it, the value
/// as it is shown, both escaped, and so as they are where they hold no markup.
pub proof fn lemma_headers_are_listed_in_order(
    query: Map<Seq<char>, Seq<Seq<char>>>,
    entries: Seq<(Seq<char>, Seq<u8>)>,
    i: int,
)
    requires
        0 <= i < entries.len(),
    ensures
        context_of(query, entries).headers.len() == entries.len(),
        context_of(query, entries).headers[i] == (entries[i].0, shown_value(entries[i].1)),
        occurs_at(
            page(context_of(query, entries)),
            header_row((entries[i].0, shown_value(entries[i].1))),
            header_row_start(context_of(query, entries), i),
        ),
        header_row_start(context_of(query, entries), i + 1) == header_row_start(
            context_of(query, entries),
            i,
        ) + header_row((entries[i].0, shown_value(entries[i].1))).len(),
        occurs_at(
            page(context_of(query, entries)),
            escaped(entries[i].0),
            header_row_start(context_of(query, entries), i) + HEADER_OPEN@.len(),
        ),
        occurs_at(
            page(context_of(query, entries)),
            escaped(shown_value(entries[i].1)),
            header_row_start(context_of(query, entries), i) + HEADER_OPEN@.len() + escaped(
                entries[i].0,
            ).len() + HEADER_MIDDLE@.len(),
        ),
        is_plain(entries[i].0) ==> occurs(page(context_of(query, entries)), entries[i].0),
        is_plain(shown_value(entries[i].1)) ==> occurs(
            page(context_of(query, entries)),
            shown_value(entries[i].1),
        ),
{
    let context = context_of(query, entries);
    lemma_headers_in_order(context, i);
    if is_plain(entries[i].0) {
        lemma_plain_unchanged(entries[i].0);
    }
    if is_plain(shown_value(entries[i].1)) {
        lemma_plain_unchanged(shown_value(entries[i].1));
    }
}

} // verus!
