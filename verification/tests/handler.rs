use hello_page::handler::{
    context, handler, HandlerError, CONTENT_TYPE, DEFAULT_NAME, DEFAULT_PLACE, NAME_KEY, PLACE_KEY,
    STATUS, VARY,
};
use hello_page::template::TemplateHeader;
use lambda_http::http::header::{HeaderName, HeaderValue};
use lambda_http::{Body, Request, RequestExt, Response};
use std::collections::HashMap;

fn request(query: &[(&str, &[&str])], headers: &[(&str, &[u8])]) -> Request {
    let mut event = Request::new(Body::Empty);
    for (name, value) in headers {
        event.headers_mut().append(
            HeaderName::from_bytes(name.as_bytes()).unwrap(),
            HeaderValue::from_bytes(value).unwrap(),
        );
    }
    if query.is_empty() {
        return event;
    }
    let mut parameters: HashMap<String, Vec<String>> = HashMap::new();
    for (name, values) in query {
        parameters.insert(name.to_string(), values.iter().map(|value| value.to_string()).collect());
    }
    event.with_query_string_parameters(parameters)
}

fn answer(event: Request) -> Response<Body> {
    match handler(event) {
        Ok(response) => response,
        Err(HandlerError::Rejected(error)) => panic!("no response: {}", error),
    }
}

fn text(response: &Response<Body>) -> &str {
    match response.body() {
        Body::Text(text) => text,
        _ => panic!("the body is not text"),
    }
}

#[test]
fn defaults_greet_jared_and_world() {
    let response = answer(request(&[], &[]));
    assert_eq!(response.status().as_u16(), 200);
    assert!(text(&response).contains("<div>jared</div>"));
    assert!(text(&response).contains("<div>world</div>"));
}

#[test]
fn whole_page_without_query_and_headers() {
    let response = answer(request(&[], &[]));
    assert_eq!(
        text(&response),
        "<!DOCTYPE html>\n<html>\n  <body>\n    <div>jared</div>\n    <div>world</div>\n    <dl>\n    </dl>\n  </body>\n</html>\n"
    );
}

#[test]
fn name_replaces_default() {
    let response = answer(request(&[("name", &["Alice"])], &[]));
    assert!(text(&response).contains("Alice"));
    assert!(!text(&response).contains("jared"));
    assert!(text(&response).contains("world"));
}

#[test]
fn place_and_name_are_shown() {
    let response = answer(request(&[("place", &["Paris"]), ("name", &["Bob"])], &[]));
    assert!(text(&response).contains("Bob"));
    assert!(text(&response).contains("Paris"));
    assert!(!text(&response).contains("world"));
}

#[test]
fn first_value_of_a_repeated_parameter_counts() {
    let response = answer(request(&[("name", &["Ann", "Ben"])], &[]));
    assert!(text(&response).contains("<div>Ann</div>"));
    assert!(!text(&response).contains("Ben"));
}

#[test]
fn parameter_without_value_falls_back() {
    let response = answer(request(&[("name", &[]), ("other", &["x"])], &[]));
    assert!(text(&response).contains("<div>jared</div>"));
}

#[test]
fn other_parameters_are_ignored() {
    let response = answer(request(&[("who", &["Carl"])], &[]));
    assert!(text(&response).contains("<div>jared</div>"));
    assert!(text(&response).contains("<div>world</div>"));
    assert!(!text(&response).contains("Carl"));
}

#[test]
fn query_and_header_scenario() {
    let response =
        answer(request(&[("name", &["Zoe"]), ("place", &["Berlin"])], &[("x-test", b"123")]));
    assert_eq!(response.status().as_u16(), 200);
    let body = text(&response);
    assert!(body.contains("Zoe"));
    assert!(body.contains("Berlin"));
    assert!(body.contains("x-test"));
    assert!(body.contains("123"));
    assert!(body.contains("      <dt>x-test</dt><dd>123</dd>\n"));
}

#[test]
fn undecodable_header_value_shows_placeholder() {
    let response = answer(request(&[], &[("x-raw", &[0xff, 0xfe])]));
    assert!(text(&response).contains("<dt>x-raw</dt><dd>Invalid header value</dd>"));
}

#[test]
fn header_value_with_tab_is_text() {
    let response = answer(request(&[], &[("x-tab", b"a\tb")]));
    assert!(text(&response).contains("<dt>x-tab</dt><dd>a\tb</dd>"));
}

#[test]
fn headers_are_listed_in_order() {
    let response = answer(request(
        &[],
        &[("x-first", b"1"), ("accept", b"text/plain"), ("x-first", b"2"), ("x-last", b"3")],
    ));
    assert!(text(&response).contains(
        "    <dl>\n      <dt>x-first</dt><dd>1</dd>\n      <dt>x-first</dt><dd>2</dd>\n      <dt>accept</dt><dd>text/plain</dd>\n      <dt>x-last</dt><dd>3</dd>\n    </dl>\n"
    ));
}

#[test]
fn response_headers_are_fixed() {
    let response = answer(request(&[("name", &["<i>"])], &[("vary", b"accept")]));
    assert_eq!(response.headers().len(), 2);
    assert_eq!(response.headers().get("content-type").unwrap(), "text/html");
    assert_eq!(response.headers().get("vary").unwrap(), "hx-request");
    let names: Vec<&str> = response.headers().keys().map(|name| name.as_str()).collect();
    assert_eq!(names, vec!["content-type", "vary"]);
}

#[test]
fn markup_in_a_parameter_is_escaped() {
    let response = answer(request(&[("name", &["<b>\"Tom\" & 'Jerry'</b>"])], &[]));
    assert!(text(&response)
        .contains("<div>&lt;b&gt;&quot;Tom&quot; &amp; &#039;Jerry&#039;&lt;/b&gt;</div>"));
    assert!(!text(&response).contains("<b>"));
}

#[test]
fn markup_in_a_header_is_escaped() {
    let response = answer(request(&[], &[("x-a&b", b"1 < 2")]));
    assert!(text(&response).contains("<dt>x-a&amp;b</dt><dd>1 &lt; 2</dd>"));
}

#[test]
fn empty_parameters_are_no_parameters() {
    let parameters: HashMap<String, Vec<String>> = HashMap::new();
    let event = Request::new(Body::Empty).with_query_string_parameters(parameters);
    let response = answer(event);
    assert!(text(&response).contains("<div>jared</div>"));
    assert!(text(&response).contains("<div>world</div>"));
}

#[test]
fn place_alone_keeps_default_name() {
    let response = answer(request(&[("place", &["Rome"])], &[]));
    assert!(text(&response).contains("    <div>jared</div>\n    <div>Rome</div>\n"));
}

#[test]
fn default_name_can_come_from_the_place() {
    let response = answer(request(&[("name", &["Alice"]), ("place", &["jared"])], &[]));
    assert!(text(&response).contains("    <div>Alice</div>\n    <div>jared</div>\n"));
}

#[test]
fn default_name_can_come_from_a_header() {
    let response = answer(request(&[("name", &["Alice"])], &[("x-user", b"jared")]));
    assert!(text(&response).contains("<div>Alice</div>"));
    assert!(text(&response).contains("<dd>jared</dd>"));
}

#[test]
fn name_before_place_whatever_the_order_given() {
    let response = answer(request(&[("place", &["Paris"]), ("name", &["Bob"])], &[]));
    assert!(text(&response).contains("    <div>Bob</div>\n    <div>Paris</div>\n"));
}

#[test]
fn constants_of_the_handler() {
    assert_eq!(NAME_KEY, "name");
    assert_eq!(PLACE_KEY, "place");
    assert_eq!(DEFAULT_NAME, "jared");
    assert_eq!(DEFAULT_PLACE, "world");
    assert_eq!(STATUS, 200);
    assert_eq!(CONTENT_TYPE, ("content-type", "text/html"));
    assert_eq!(VARY, ("vary", "hx-request"));
}

#[test]
fn context_with_defaults() {
    let ctx = context(None, None, vec![]);
    assert_eq!(ctx.messages, vec!["jared", "world"]);
    assert!(ctx.headers.is_empty());
}

#[test]
fn context_with_given_texts() {
    let ctx = context(
        Some("Zoe"),
        Some("Berlin"),
        vec![TemplateHeader { name: "x-test", value: "123" }],
    );
    assert_eq!(ctx.messages, vec!["Zoe", "Berlin"]);
    assert_eq!(ctx.headers.len(), 1);
    assert_eq!(ctx.headers[0].name, "x-test");
    assert_eq!(ctx.headers[0].value, "123");
    let ctx = context(Some(""), None, vec![]);
    assert_eq!(ctx.messages, vec!["", "world"]);
}

#[test]
fn body_is_text_whatever_the_request_body() {
    let mut event = Request::new(Body::Binary(vec![1, 2, 3]));
    event.headers_mut().insert("host", HeaderValue::from_static("example.com"));
    let response = answer(event);
    assert!(text(&response).contains("<dt>host</dt><dd>example.com</dd>"));
}

#[test]
fn many_headers_keep_their_order() {
    let names: Vec<String> = (0..40).map(|i| format!("x-h{}", i)).collect();
    let mut event = Request::new(Body::Empty);
    for (i, name) in names.iter().enumerate() {
        event.headers_mut().append(
            HeaderName::from_bytes(name.as_bytes()).unwrap(),
            HeaderValue::from_bytes(i.to_string().as_bytes()).unwrap(),
        );
    }
    let response = answer(event);
    let body = text(&response);
    let mut last = 0;
    for (i, name) in names.iter().enumerate() {
        let row = format!("      <dt>{}</dt><dd>{}</dd>\n", name, i);
        let at = body.find(&row).unwrap();
        assert!(at > last);
        last = at;
    }
}
