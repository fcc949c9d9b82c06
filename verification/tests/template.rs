use hello_page::template::{
    HelloTemplate, TemplateHeader, HEADER_CLOSE, HEADER_MIDDLE, HEADER_OPEN, INVALID_VALUE,
    LIST_OPEN, MESSAGE_CLOSE, MESSAGE_OPEN, PAGE_CLOSE, PAGE_OPEN,
};
use lambda_http::http::header::{HeaderName, HeaderValue};

#[test]
fn header_from_text_value() {
    let name = HeaderName::from_static("x-test");
    let value = HeaderValue::from_static("123");
    let header = TemplateHeader::from((&name, &value));
    assert_eq!(header.name, "x-test");
    assert_eq!(header.value, "123");
}

#[test]
fn header_from_opaque_value() {
    let name = HeaderName::from_static("x-test");
    let value = HeaderValue::from_bytes(&[b'a', 0x80]).unwrap();
    let header = TemplateHeader::from((&name, &value));
    assert_eq!(header.name, "x-test");
    assert_eq!(header.value, "Invalid header value");
}

#[test]
fn header_name_is_lower_case() {
    let name = HeaderName::from_bytes(b"X-Upper").unwrap();
    let value = HeaderValue::from_static("");
    let header = TemplateHeader::from((&name, &value));
    assert_eq!(header.name, "x-upper");
    assert_eq!(header.value, "");
}

#[test]
fn empty_page() {
    let page = HelloTemplate { messages: vec![], headers: vec![] }.render_once();
    assert_eq!(page, "<!DOCTYPE html>\n<html>\n  <body>\n    <dl>\n    </dl>\n  </body>\n</html>\n");
}

#[test]
fn page_with_messages_and_headers() {
    let page = HelloTemplate {
        messages: vec!["one", "two", "three"],
        headers: vec![
            TemplateHeader { name: "host", value: "example.com" },
            TemplateHeader { name: "accept", value: "*/*" },
        ],
    }
    .render_once();
    assert_eq!(
        page,
        "<!DOCTYPE html>\n<html>\n  <body>\n    <div>one</div>\n    <div>two</div>\n    <div>three</div>\n    <dl>\n      <dt>host</dt><dd>example.com</dd>\n      <dt>accept</dt><dd>*/*</dd>\n    </dl>\n  </body>\n</html>\n"
    );
}

#[test]
fn page_escapes_every_text() {
    let page = HelloTemplate {
        messages: vec!["a<b", "\"q\""],
        headers: vec![TemplateHeader { name: "it's", value: "x>y&z" }],
    }
    .render_once();
    assert!(page.contains("<div>a&lt;b</div>"));
    assert!(page.contains("<div>&quot;q&quot;</div>"));
    assert!(page.contains("<dt>it&#039;s</dt><dd>x&gt;y&amp;z</dd>"));
}

#[test]
fn page_escapes_long_and_unicode_text() {
    let page = HelloTemplate {
        messages: vec!["0123456789abcdef<0123456789abcdef>", "gr\u{fc}\u{df}e & k\u{fc}sse \u{1f600}"],
        headers: vec![],
    }
    .render_once();
    assert!(page.contains("<div>0123456789abcdef&lt;0123456789abcdef&gt;</div>"));
    assert!(page.contains("<div>gr\u{fc}\u{df}e &amp; k\u{fc}sse \u{1f600}</div>"));
}

#[test]
fn new_header_keeps_a_value() {
    let header = TemplateHeader::new::<()>("accept", Ok("text/html"));
    assert_eq!(header.name, "accept");
    assert_eq!(header.value, "text/html");
}

#[test]
fn new_header_replaces_a_missing_value() {
    let header = TemplateHeader::new("accept", Err(7u8));
    assert_eq!(header.name, "accept");
    assert_eq!(header.value, "Invalid header value");
    assert_eq!(header.value, INVALID_VALUE);
}

#[test]
fn header_value_with_space_and_tilde_is_text() {
    let name = HeaderName::from_static("x-edge");
    let value = HeaderValue::from_bytes(b" ~").unwrap();
    assert_eq!(TemplateHeader::from((&name, &value)).value, " ~");
}

#[test]
fn header_value_with_high_byte_is_not_text() {
    let name = HeaderName::from_static("x-edge");
    let value = HeaderValue::from_bytes(&[b'o', b'k', 0x80]).unwrap();
    assert_eq!(TemplateHeader::from((&name, &value)).value, "Invalid header value");
    let value = HeaderValue::from_bytes(&[0xc3, 0xa9]).unwrap();
    assert_eq!(TemplateHeader::from((&name, &value)).value, "Invalid header value");
}

#[test]
fn page_is_frame_and_rows() {
    let page = HelloTemplate {
        messages: vec!["m"],
        headers: vec![TemplateHeader { name: "n", value: "v" }],
    }
    .render_once();
    let expected = [
        PAGE_OPEN,
        MESSAGE_OPEN,
        "m",
        MESSAGE_CLOSE,
        LIST_OPEN,
        HEADER_OPEN,
        "n",
        HEADER_MIDDLE,
        "v",
        HEADER_CLOSE,
        PAGE_CLOSE,
    ]
    .concat();
    assert_eq!(page, expected);
}

#[test]
fn rows_start_where_the_row_before_ends() {
    let page = HelloTemplate {
        messages: vec!["first", "<second>"],
        headers: vec![
            TemplateHeader { name: "a", value: "1" },
            TemplateHeader { name: "b&c", value: "2" },
            TemplateHeader { name: "a", value: "3" },
        ],
    }
    .render_once();
    let first_message = "    <div>first</div>\n";
    let second_message = "    <div>&lt;second&gt;</div>\n";
    let rows = [
        "      <dt>a</dt><dd>1</dd>\n",
        "      <dt>b&amp;c</dt><dd>2</dd>\n",
        "      <dt>a</dt><dd>3</dd>\n",
    ];
    let mut at = PAGE_OPEN.len();
    assert_eq!(&page[at..at + first_message.len()], first_message);
    at += first_message.len();
    assert_eq!(&page[at..at + second_message.len()], second_message);
    at += second_message.len();
    assert_eq!(&page[at..at + LIST_OPEN.len()], LIST_OPEN);
    at += LIST_OPEN.len();
    for row in rows {
        assert_eq!(&page[at..at + row.len()], row);
        at += row.len();
    }
    assert_eq!(&page[at..], PAGE_CLOSE);
}

#[test]
fn plain_text_is_shown_as_it_is() {
    let text = "plain text: (1 + 2) * 3 = 9; #ok!";
    let page = HelloTemplate { messages: vec![text], headers: vec![] }.render_once();
    assert!(page.contains("<div>plain text: (1 + 2) * 3 = 9; #ok!</div>"));
}

#[test]
fn each_markup_character_has_its_entity() {
    let page = HelloTemplate { messages: vec!["\"", "&", "'", "<", ">"], headers: vec![] }
        .render_once();
    assert!(page.contains(
        "    <div>&quot;</div>\n    <div>&amp;</div>\n    <div>&#039;</div>\n    <div>&lt;</div>\n    <div>&gt;</div>\n"
    ));
}

#[test]
fn escaping_brings_no_new_word() {
    let page = HelloTemplate { messages: vec!["<1>"], headers: vec![] }.render_once();
    assert!(page.contains("&lt;1&gt;"));
    assert!(!page.contains("jared"));
    assert!(!page.contains("world"));
}
