//! The handler: one request in, one page out.

use crate::request::{
    first_value, header_pairs, headers, name_text, query_string_parameters, request_headers,
    request_query, value_bytes,
};
use crate::response::{
    can_build, response_headers, response_status, response_text, text_response, two_headers,
};
use crate::template::{page, shown_value, Context, HelloTemplate, TemplateHeader};
use lambda_http::http::Error;
use lambda_http::{Body, Request, Response};
use vstd::prelude::*;

verus! {

/// The query string parameter that says who is greeted.
pub const NAME_KEY: &'static str = "name";

/// Who is greeted where the request does not say.
pub const DEFAULT_NAME: &'static str = "jared";

/// The query string parameter that says where.
pub const PLACE_KEY: &'static str = "place";

/// The place where the request names none.
pub const DEFAULT_PLACE: &'static str = "world";

/// The status of every response.
pub const STATUS: u16 = 200;

/// The header that says what the body is.
pub const CONTENT_TYPE: (&'static str, &'static str) = ("content-type", "text/html");

/// The header that says which request header the page depends on.
pub const VARY: (&'static str, &'static str) = ("vary", "hx-request");

/// Why no response was built.
pub enum HandlerError {
    /// The response builder refused the status or a header.
    Rejected(Error),
}

/// The two messages of a page: who is greeted, and where; `DEFAULT_NAME` and `DEFAULT_PLACE`
/// where the one or the other is not given.
pub open spec fn messages_for(name: Option<Seq<char>>, place: Option<Seq<char>>) -> Seq<Seq<char>> {
    seq![name.unwrap_or(DEFAULT_NAME@), place.unwrap_or(DEFAULT_PLACE@)]
}

/// The two messages of the page for a query: the first value of `NAME_KEY` and the first of
/// `PLACE_KEY`, with their defaults.
pub open spec fn shown_messages(query: Map<Seq<char>, Seq<Seq<char>>>) -> Seq<Seq<char>> {
    messages_for(first_value(query, NAME_KEY@), first_value(query, PLACE_KEY@))
}

/// The headers of a request as the page shows them: in the same order, each value as text.
pub open spec fn shown_headers(entries: Seq<(Seq<char>, Seq<u8>)>) -> Seq<(Seq<char>, Seq<char>)> {
    entries.map_values(|entry: (Seq<char>, Seq<u8>)| (entry.0, shown_value(entry.1)))
}

/// What the page for a request is rendered from.
pub open spec fn context_of(
    query: Map<Seq<char>, Seq<Seq<char>>>,
    entries: Seq<(Seq<char>, Seq<u8>)>,
) -> Context {
    Context { messages: shown_messages(query), headers: shown_headers(entries) }
}

/// The headers of every response.
pub open spec fn page_headers() -> Seq<(Seq<char>, Seq<u8>)> {
    two_headers((CONTENT_TYPE.0@, CONTENT_TYPE.1@), (VARY.0@, VARY.1@))
}

/// The status and the headers of every response are ones that the response builder takes.
pub proof fn lemma_response_can_be_built()
    ensures
        can_build(STATUS, (CONTENT_TYPE.0@, CONTENT_TYPE.1@), (VARY.0@, VARY.1@)),
{
    reveal_strlit("content-type");
    reveal_strlit("text/html");
    reveal_strlit("vary");
    reveal_strlit("hx-request");
}

/// The text of an optional string slice.
pub open spec fn text_of(given: Option<&str>) -> Option<Seq<char>> {
    match given {
        Some(text) => Some(text@),
        None => None,
    }
}

/// What a page is rendered from: the name and the place that were given, each with its default
/// where it was not, and the headers in their order.
pub fn context<'a>(
    name: Option<&'a str>,
    place: Option<&'a str>,
    headers: Vec<TemplateHeader<'a>>,
) -> (ctx: HelloTemplate<'a>)
    ensures
        ctx@.messages == messages_for(text_of(name), text_of(place)),
        ctx@.headers == headers@.map_values(|header: TemplateHeader| header@),
{
    let who = name.unwrap_or(DEFAULT_NAME);
    let whereabouts = place.unwrap_or(DEFAULT_PLACE);
    let ctx = HelloTemplate { messages: vec![who, whereabouts], headers };
    assert(ctx@.messages =~= messages_for(text_of(name), text_of(place)));
    ctx
}

/// Answers a request with the page that greets whom its query string names and lists its
/// headers.
///
/// The response is always built: status 200, the headers `content-type: text/html` and
/// `vary: hx-request`, and as its body the page for the first `name` and the first `place` of
/// the query string, `jared` and `world` where one is missing, and for all the headers of the
/// request in their order.
pub fn handler(event: Request) -> (result: Result<Response<Body>, HandlerError>)
    ensures
        result matches Ok(response) && {
            &&& response_status(response) == STATUS
            &&& response_headers(response) == page_headers()
            &&& response_text(response) == Some(
                page(context_of(request_query(event), request_headers(event))),
            )
        },
{
    let (who, place) = match query_string_parameters(&event) {
        Some(parameters) => (parameters.first(NAME_KEY), parameters.first(PLACE_KEY)),
        None => (None, None),
    };
    let pairs = header_pairs(headers(&event));
    let mut listed: Vec<TemplateHeader> = Vec::new();
    let mut i: usize = 0;
    while i < pairs.len()
        invariant
            i <= pairs.len(),
            pairs@.len() == request_headers(event).len(),
            forall|k: int|
                0 <= k < pairs@.len() ==> (
                    name_text(*(#[trigger] pairs@[k]).0),
                    value_bytes(*pairs@[k].1),
                ) == request_headers(event)[k],
            listed@.len() == i,
            forall|k: int|
                0 <= k < i ==> (#[trigger] listed@[k])@ == shown_headers(
                    request_headers(event),
                )[k],
        decreases pairs.len() - i,
    {
        listed.push(TemplateHeader::from(pairs[i]));
        i += 1;
    }
    let ctx = context(who, place, listed);
    assert(ctx@.messages =~= shown_messages(request_query(event)));
    assert(ctx@.headers =~= shown_headers(request_headers(event)));
    let html = ctx.render_once();
    proof {
        lemma_response_can_be_built();
    }
    match text_response(STATUS, CONTENT_TYPE, VARY, html) {
        Ok(response) => Ok(response),
        Err(error) => Err(HandlerError::Rejected(error)),
    }
}

} // verus!
