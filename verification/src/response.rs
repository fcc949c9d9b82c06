//! The response as the handler builds it.
//!
//! A response is a value of the `http` crate with a body of `lambda_http`. This file names what
//! it holds and states, without proof, what building one gives.

use lambda_http::http::Error;
use lambda_http::{Body, Response};
use vstd::prelude::*;

verus! {

/// `http::Response`: a response with a body of type `T`. Its inside is closed to proof.
#[verifier::external_type_specification]
#[verifier::external_body]
#[verifier::reject_recursive_types(T)]
pub struct ExResponse<T>(Response<T>);

/// `http::Error`: why the response builder refused a status or a header.
#[verifier::external_type_specification]
#[verifier::external_body]
pub struct ExError(Error);

/// The status code of a response.
pub uninterp spec fn response_status(response: Response<Body>) -> u16;

/// The headers of a response, in the order in which its header map yields them: each name with
/// the bytes of one value.
pub uninterp spec fn response_headers(response: Response<Body>) -> Seq<(Seq<char>, Seq<u8>)>;

/// The text of a response's body, where the body is text.
pub uninterp spec fn response_text(response: Response<Body>) -> Option<Seq<char>>;

/// The longest header name that `http` takes.
pub const MAX_NAME_LEN: usize = 65535;

/// A character that a header name written in lower case may hold. (The `http` crate takes a
/// few more signs, and capital letters, which it turns into small ones.)
pub open spec fn is_name_char(c: char) -> bool {
    ('a' <= c && c <= 'z') || ('0' <= c && c <= '9') || c == '-' || c == '_'
}

/// `name` can stand as a header name, and is stored as it is written.
pub open spec fn is_header_name(name: Seq<char>) -> bool {
    &&& 0 < name.len() <= MAX_NAME_LEN
    &&& forall|i: int| 0 <= i < name.len() ==> is_name_char(#[trigger] name[i])
}

/// `value` can stand as a header value: visible ASCII characters and spaces.
pub open spec fn is_header_text(value: Seq<char>) -> bool {
    forall|i: int| 0 <= i < value.len() ==> ' ' <= #[trigger] value[i] && value[i] <= '~'
}

/// The bytes of an ASCII text.
pub open spec fn as_bytes(text: Seq<char>) -> Seq<u8> {
    Seq::new(text.len(), |i: int| text[i] as u8)
}

/// The builder of `http` takes this status and these two headers, and stores the names as they
/// are written here.
pub open spec fn can_build(
    status: u16,
    first: (Seq<char>, Seq<char>),
    second: (Seq<char>, Seq<char>),
) -> bool {
    &&& 100 <= status <= 999
    &&& is_header_name(first.0)
    &&& is_header_text(first.1)
    &&& is_header_name(second.0)
    &&& is_header_text(second.1)
}

/// Two headers as a header map holds them: each name with the bytes of its value.
pub open spec fn two_headers(first: (Seq<char>, Seq<char>), second: (Seq<char>, Seq<char>)) -> Seq<
    (Seq<char>, Seq<u8>),
> {
    seq![(first.0, as_bytes(first.1)), (second.0, as_bytes(second.1))]
}

/// A response with the given status, two headers and a text body.
///
/// Trusted: the body runs the response builder of `http`. `status` takes a number from 100 to
/// 999. `header` parses the name and the value, fails on a character that neither may hold, and
/// appends the pair to a header map that was empty at first, so that the map yields the two
/// pairs in the order given here. `body` ends the builder, with the error of the first step that
/// failed if one did. `Body::from` on a `String` gives a text body that holds it.
#[verifier::external_body]
pub(crate) fn text_response(
    status: u16,
    first: (&str, &str),
    second: (&str, &str),
    text: String,
) -> (built: Result<Response<Body>, Error>)
    ensures
        can_build(status, (first.0@, first.1@), (second.0@, second.1@)) ==> built is Ok,
        can_build(status, (first.0@, first.1@), (second.0@, second.1@)) ==> (built matches Ok(
            response,
        ) ==> response_status(response) == status),
        can_build(status, (first.0@, first.1@), (second.0@, second.1@)) ==> (built matches Ok(
            response,
        ) ==> response_headers(response) == two_headers(
            (first.0@, first.1@),
            (second.0@, second.1@),
        )),
        can_build(status, (first.0@, first.1@), (second.0@, second.1@)) ==> (built matches Ok(
            response,
        ) ==> response_text(response) == Some(text@)),
{
    Response::builder().status(status).header(first.0, first.1).header(second.0, second.1).body(
        Body::from(text),
    )
}

} // verus!
