//! The page, and what it is rendered from.

use crate::escape::{escaped, push_escaped};
use crate::request::{as_text, is_visible_text, name_text, value_bytes};
use lambda_http::http::header::{HeaderName, HeaderValue};
use vstd::prelude::*;
use vstd::string::StringExecFns;

verus! {

/// What the page begins with.
pub const PAGE_OPEN: &'static str = "<!DOCTYPE html>\n<html>\n  <body>\n";

/// What stands before each message.
pub const MESSAGE_OPEN: &'static str = "    <div>";

/// What stands behind each message.
pub const MESSAGE_CLOSE: &'static str = "</div>\n";

/// What stands between the messages and the headers.
pub const LIST_OPEN: &'static str = "    <dl>\n";

/// What stands before the name of each header.
pub const HEADER_OPEN: &'static str = "      <dt>";

/// What stands between the name of a header and its value.
pub const HEADER_MIDDLE: &'static str = "</dt><dd>";

/// What stands behind the value of each header.
pub const HEADER_CLOSE: &'static str = "</dd>\n";

/// What the page ends with.
pub const PAGE_CLOSE: &'static str = "    </dl>\n  </body>\n</html>\n";

/// What the page shows for a header value that is not text.
pub const INVALID_VALUE: &'static str = "Invalid header value";

/// One header as the page shows it: its name and its value, both as text.
pub struct TemplateHeader<'a> {
    pub name: &'a str,
    pub value: &'a str,
}

/// What one page is rendered from: the messages and the headers, each in the order in which the
/// page shows them.
pub struct HelloTemplate<'a> {
    pub messages: Vec<&'a str>,
    pub headers: Vec<TemplateHeader<'a>>,
}

/// What a `HelloTemplate` holds.
pub struct Context {
    pub messages: Seq<Seq<char>>,
    pub headers: Seq<(Seq<char>, Seq<char>)>,
}

/// The text that the page shows for the bytes of a header value: the bytes as text, or
/// `INVALID_VALUE` where a byte is no visible ASCII character, space or tab.
pub open spec fn shown_value(bytes: Seq<u8>) -> Seq<char> {
    if is_visible_text(bytes) {
        as_text(bytes)
    } else {
        INVALID_VALUE@
    }
}

/// The line of the page that shows one message.
pub open spec fn message_row(message: Seq<char>) -> Seq<char> {
    MESSAGE_OPEN@ + escaped(message) + MESSAGE_CLOSE@
}

/// The lines of the page that show the messages, one line each, in their order.
pub open spec fn message_rows(messages: Seq<Seq<char>>) -> Seq<char>
    decreases messages.len(),
{
    if messages.len() == 0 {
        Seq::empty()
    } else {
        message_rows(messages.drop_last()) + message_row(messages.last())
    }
}

/// The line of the page that shows one header: its name, then its value.
pub open spec fn header_row(header: (Seq<char>, Seq<char>)) -> Seq<char> {
    HEADER_OPEN@ + escaped(header.0) + HEADER_MIDDLE@ + escaped(header.1) + HEADER_CLOSE@
}

/// The lines of the page that show the headers, one line each, in their order.
pub open spec fn header_rows(headers: Seq<(Seq<char>, Seq<char>)>) -> Seq<char>
    decreases headers.len(),
{
    if headers.len() == 0 {
        Seq::empty()
    } else {
        header_rows(headers.drop_last()) + header_row(headers.last())
    }
}

/// The page: the messages, then the headers, all escaped, in a fixed frame.
pub open spec fn page(context: Context) -> Seq<char> {
    PAGE_OPEN@ + message_rows(context.messages) + LIST_OPEN@ + header_rows(context.headers)
        + PAGE_CLOSE@
}

impl<'a> View for TemplateHeader<'a> {
    type V = (Seq<char>, Seq<char>);

    open spec fn view(&self) -> (Seq<char>, Seq<char>) {
        (self.name@, self.value@)
    }
}

/// One header as a request holds it: its name and one of its values.
pub type Header<'a> = (&'a HeaderName, &'a HeaderValue);

impl<'a> TemplateHeader<'a> {
    /// The header with this name, and with this value if there is one, else with
    /// `INVALID_VALUE` in its place.
    pub fn new<E>(name: &'a str, value: Result<&'a str, E>) -> (header: TemplateHeader<'a>)
        ensures
            header@.0 == name@,
            header@.1 == match value {
                Ok(text) => text@,
                Err(_) => INVALID_VALUE@,
            },
    {
        TemplateHeader {
            name,
            value: match value {
                Ok(text) => text,
                Err(_) => INVALID_VALUE,
            },
        }
    }

    /// The header as the page shows it: the name as it is, and the value if it is text, else
    /// `INVALID_VALUE` in its place.
    pub fn from(header_package: Header<'a>) -> (header: TemplateHeader<'a>)
        ensures
            header@ == (
                name_text(*header_package.0),
                shown_value(value_bytes(*header_package.1)),
            ),
    {
        TemplateHeader::new(header_package.0.as_str(), header_package.1.to_str())
    }
}

impl<'a> View for HelloTemplate<'a> {
    type V = Context;

    open spec fn view(&self) -> Context {
        Context {
            messages: self.messages@.map_values(|message: &str| message@),
            headers: self.headers@.map_values(|header: TemplateHeader| header@),
        }
    }
}

impl<'a> HelloTemplate<'a> {
    /// The page for these messages and headers.
    pub fn render_once(self) -> (html: String)
        ensures
            html@ == page(self@),
    {
        let ghost context = self@;
        let mut out = String::new();
        out.append(PAGE_OPEN);
        let mut i: usize = 0;
        while i < self.messages.len()
            invariant
                i <= self.messages.len(),
                context == self@,
                out@ == PAGE_OPEN@ + message_rows(context.messages.take(i as int)),
            decreases self.messages.len() - i,
        {
            out.append(MESSAGE_OPEN);
            push_escaped(&mut out, self.messages[i]);
            out.append(MESSAGE_CLOSE);
            proof {
                let shown = context.messages.take(i + 1);
                assert(shown.drop_last() =~= context.messages.take(i as int));
                assert(shown.last() == self.messages[i as int]@);
            }
            i += 1;
        }
        assert(context.messages.take(i as int) =~= context.messages);
        out.append(LIST_OPEN);
        let ghost above = out@;
        let mut j: usize = 0;
        while j < self.headers.len()
            invariant
                j <= self.headers.len(),
                context == self@,
                out@ == above + header_rows(context.headers.take(j as int)),
            decreases self.headers.len() - j,
        {
            out.append(HEADER_OPEN);
            push_escaped(&mut out, self.headers[j].name);
            out.append(HEADER_MIDDLE);
            push_escaped(&mut out, self.headers[j].value);
            out.append(HEADER_CLOSE);
            proof {
                let shown = context.headers.take(j + 1);
                assert(shown.drop_last() =~= context.headers.take(j as int));
                assert(shown.last() == self.headers[j as int]@);
            }
            j += 1;
        }
        assert(context.headers.take(j as int) =~= context.headers);
        out.append(PAGE_CLOSE);
        out
    }
}

} // verus!
