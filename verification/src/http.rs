//! The web server's side of HTTP: its address, its responses, and when it gives up waiting.

use vstd::prelude::*;

use crate::number;
use crate::number::{count_text, decimal_text};
use crate::text;

verus! {

/// The seconds without a sign of life from the page after which the server ends.
pub const HEARTBEAT_TIMEOUT_SECS: u64 = 300;

/// The seconds between two looks at the last sign of life.
pub const WATCHDOG_INTERVAL_SECS: u64 = 10;

/// The address of the server on the given port.
pub fn base_url(port: u16) -> (r: String)
    ensures
        r@ == "http://[::1]:"@ + number::decimal(port as nat),
{
    let mut out = "http://[::1]:".to_owned();
    let p = decimal_text(port as u64);
    out.append(p.as_str());
    out
}

/// The page that is opened in the browser once the server runs, if one is.
pub fn opened_page(port: u16, no_show: bool) -> (r: Option<String>)
    ensures
        text::opt_view(r) == (if no_show {
            None
        } else {
            Some("http://[::1]:"@ + number::decimal(port as nat) + "/view"@)
        }),
{
    if no_show {
        None
    } else {
        let mut out = base_url(port);
        out.append("/view");
        Some(out)
    }
}

/// Whether the page has been silent for too long. `last` is the time of its last sign of life, or
/// 0 before the first one: the server does not end before a page has been opened.
pub fn heartbeat_expired(last: u64, now: u64) -> (r: bool)
    ensures
        r == (last > 0 && now - last >= HEARTBEAT_TIMEOUT_SECS),
{
    last > 0 && now >= last && now - last >= HEARTBEAT_TIMEOUT_SECS
}

/// A response.
#[derive(Debug)]
pub struct Response {
    pub status: u16,
    pub content_type: String,
    pub body: String,
}

/// What a response holds.
#[verifier::ext_equal]
pub struct ResponseView {
    pub status: u16,
    pub content_type: Seq<char>,
    pub body: Seq<char>,
}

impl View for Response {
    type V = ResponseView;

    open spec fn view(&self) -> ResponseView {
        ResponseView {
            status: self.status,
            content_type: self.content_type@,
            body: self.body@,
        }
    }
}

/// The words that go with a status.
pub open spec fn reason(status: u16) -> Seq<char> {
    if status == 200 {
        "OK"@
    } else if status == 400 {
        "Bad Request"@
    } else if status == 404 {
        "Not Found"@
    } else {
        "Error"@
    }
}

/// A response as it is sent. Its length is that of the body in UTF-8.
pub open spec fn response_text(r: ResponseView) -> Seq<char> {
    "HTTP/1.1 "@ + number::decimal(r.status as nat) + " "@ + reason(r.status)
        + "\r\nContent-Type: "@ + r.content_type + "\r\nContent-Length: "@ + number::decimal(
        vstd::utf8::encode_utf8(r.body).len(),
    ) + "\r\nConnection: close\r\n\r\n"@ + r.body
}

impl Response {
    /// A plain text.
    pub fn plain(status: u16, body: &str) -> (r: Response)
        ensures
            r@ == (ResponseView { status, content_type: "text/plain"@, body: body@ }),
    {
        Response { status, content_type: "text/plain".to_owned(), body: body.to_owned() }
    }

    /// A page.
    pub fn html(body: &str) -> (r: Response)
        ensures
            r@ == (ResponseView {
                status: 200,
                content_type: "text/html; charset=utf-8"@,
                body: body@,
            }),
    {
        Response {
            status: 200,
            content_type: "text/html; charset=utf-8".to_owned(),
            body: body.to_owned(),
        }
    }

    /// The response as it is sent.
    pub fn to_text(&self) -> (r: String)
        ensures
            r@ == response_text(self@),
    {
        let mut out = "HTTP/1.1 ".to_owned();
        let status = decimal_text(self.status as u64);
        out.append(status.as_str());
        out.append(" ");
        let words = if self.status == 200 {
            "OK"
        } else if self.status == 400 {
            "Bad Request"
        } else if self.status == 404 {
            "Not Found"
        } else {
            "Error"
        };
        out.append(words);
        out.append("\r\nContent-Type: ");
        out.append(self.content_type.as_str());
        out.append("\r\nContent-Length: ");
        let len = count_text(self.body.as_str().as_bytes().len());
        out.append(len.as_str());
        out.append("\r\nConnection: close\r\n\r\n");
        out.append(self.body.as_str());
        out
    }
}

} // verus!
