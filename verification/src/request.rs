//! The request as the handler reads it.
//!
//! The request, its query string parameters and its headers are values of `lambda_http` and
//! of the crates behind it, `http` and `query_map`. Nothing in them is open to proof, so this
//! file names what they hold and states, without proof, what the calls that read them return.

use lambda_http::aws_lambda_events::query_map::QueryMap;
use lambda_http::http::header::{HeaderMap, HeaderName, HeaderValue, ToStrError};
use lambda_http::{Body, Request, RequestExt};
use vstd::prelude::*;

verus! {

/// `http::Request`: a request with a body of type `T`. Its inside is closed to proof.
#[verifier::external_type_specification]
#[verifier::external_body]
#[verifier::reject_recursive_types(T)]
pub struct ExRequest<T>(lambda_http::http::Request<T>);

/// `lambda_http::Body`: the body of a request or of a response. Its inside is closed to proof.
#[verifier::external_type_specification]
#[verifier::external_body]
pub struct ExBody(Body);

/// `query_map::QueryMap`: query string parameters. Its inside is closed to proof.
#[verifier::external_type_specification]
#[verifier::external_body]
pub struct ExQueryMap(QueryMap);

/// `http::HeaderMap`: headers with values of type `T`. Its inside is closed to proof.
#[verifier::external_type_specification]
#[verifier::external_body]
#[verifier::reject_recursive_types(T)]
pub struct ExHeaderMap<T>(HeaderMap<T>);

/// `http::HeaderName`: the name of a header. Its inside is closed to proof.
#[verifier::external_type_specification]
#[verifier::external_body]
pub struct ExHeaderName(HeaderName);

/// `http::HeaderValue`: one value of a header. Its inside is closed to proof.
#[verifier::external_type_specification]
#[verifier::external_body]
pub struct ExHeaderValue(HeaderValue);

/// `http::header::ToStrError`: says that a header value is not text, and nothing more.
#[verifier::external_type_specification]
#[verifier::external_body]
pub struct ExToStrError(ToStrError);

/// What a map of query string parameters holds: each name with its values, in the order in
/// which they were given.
pub uninterp spec fn query_values(parameters: QueryMap) -> Map<Seq<char>, Seq<Seq<char>>>;

/// The query string parameters that a request carries. A request without any has the empty
/// map.
pub uninterp spec fn request_query(event: Request) -> Map<Seq<char>, Seq<Seq<char>>>;

/// What a header map holds, in the order in which it yields it: each name with the bytes of one
/// value.
pub uninterp spec fn header_entries(headers: HeaderMap<HeaderValue>) -> Seq<(Seq<char>, Seq<u8>)>;

/// The headers of a request, as `header_entries` gives them for its header map.
pub uninterp spec fn request_headers(event: Request) -> Seq<(Seq<char>, Seq<u8>)>;

/// The text of a header name.
pub uninterp spec fn name_text(name: HeaderName) -> Seq<char>;

/// The bytes of a header value.
pub uninterp spec fn value_bytes(value: HeaderValue) -> Seq<u8>;

/// The first value that `query` holds for `key`, if it holds one.
pub open spec fn first_value(query: Map<Seq<char>, Seq<Seq<char>>>, key: Seq<char>) -> Option<
    Seq<char>,
> {
    if query.dom().contains(key) && query[key].len() > 0 {
        Some(query[key][0])
    } else {
        None
    }
}

/// A byte that a header value can show as text: a visible ASCII character, a space or a tab.
pub open spec fn is_visible_byte(byte: u8) -> bool {
    32 <= byte < 127 || byte == 9
}

/// Every byte of `bytes` can be shown as text.
pub open spec fn is_visible_text(bytes: Seq<u8>) -> bool {
    forall|i: int| 0 <= i < bytes.len() ==> is_visible_byte(#[trigger] bytes[i])
}

/// The characters that ASCII bytes stand for.
pub open spec fn as_text(bytes: Seq<u8>) -> Seq<char> {
    Seq::new(bytes.len(), |i: int| bytes[i] as char)
}

/// The query string parameters of the request, unless it has none.
///
/// Trusted: the body calls `RequestExt::query_string_parameters_ref` of `lambda_http`, which
/// looks for the parameters that came with the request and gives them if there is at least
/// one.
#[verifier::external_body]
pub(crate) fn query_string_parameters<'a>(event: &'a Request) -> (found: Option<&'a QueryMap>)
    ensures
        match found {
            Some(parameters) => query_values(*parameters) == request_query(*event),
            None => request_query(*event) == Map::<Seq<char>, Seq<Seq<char>>>::empty(),
        },
{
    event.query_string_parameters_ref()
}

/// `QueryMap::first` of `query_map` gives the first of the values stored under `key`, and
/// nothing where the map has no such key or no value under it.
pub assume_specification<'a>[ QueryMap::first ](parameters: &'a QueryMap, key: &str) -> (value:
    Option<&'a str>)
    ensures
        match value {
            Some(text) => first_value(query_values(*parameters), key@) == Some(text@),
            None => first_value(query_values(*parameters), key@) is None,
        },
;

/// The header map of the request.
///
/// Trusted: the body calls `Request::headers` of `http`, which hands out the map that the
/// request holds.
#[verifier::external_body]
pub(crate) fn headers<'a>(event: &'a Request) -> (found: &'a HeaderMap<HeaderValue>)
    ensures
        header_entries(*found) == request_headers(*event),
{
    event.headers()
}

/// The entries of a header map, one pair for each value, in the order of the map.
///
/// Trusted: the body calls `HeaderMap::iter` of `http`; the iterator yields a reference to the
/// name and to the value of each entry, and the same name again with each further value stored
/// under it. The contract only says that these are the pairs which `header_entries` names.
#[verifier::external_body]
pub(crate) fn header_pairs<'a>(headers: &'a HeaderMap<HeaderValue>) -> (pairs: Vec<
    (&'a HeaderName, &'a HeaderValue),
>)
    ensures
        pairs@.len() == header_entries(*headers).len(),
        forall|i: int|
            0 <= i < pairs@.len() ==> (name_text(*(#[trigger] pairs@[i]).0), value_bytes(*pairs@[i].1))
                == header_entries(*headers)[i],
{
    headers.iter().collect()
}

/// `HeaderName::as_str` of `http` gives the name's text (always in lower case, which the
/// contract does not need).
pub assume_specification<'a>[ HeaderName::as_str ](name: &'a HeaderName) -> (text: &'a str)
    ensures
        text@ == name_text(*name),
;

/// `HeaderValue::to_str` of `http` scans the value and gives it as a string slice over the same
/// bytes if each of them is a visible ASCII character, a space or a tab; it fails on any other
/// byte.
pub assume_specification<'a>[ HeaderValue::to_str ](value: &'a HeaderValue) -> (text: Result<
    &'a str,
    ToStrError,
>)
    ensures
        text is Ok <==> is_visible_text(value_bytes(*value)),
        text matches Ok(shown) ==> shown@ == as_text(value_bytes(*value)),
;

} // verus!
