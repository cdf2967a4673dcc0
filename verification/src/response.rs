//! The response side of the wire codec: the structured `Response` and the
//! encoder that turns it into the exact text to write to a connection.
//!
//! The wire form is `HTTP/1.1 <status> <reason-phrase>` followed by one line
//! per header entry, a `Content-Length` header holding the byte length of
//! the body, a blank line, the body, and a trailing blank line.  Encoding
//! never fails.

use vstd::prelude::*;
use crate::strmap::{StrMap, Entries, map_insert};
use crate::strutil::{dec_digits, u64_to_dec};

verus! {

/// A structured HTTP response: status code, body content, and headers with
/// no duplicate keys.
pub struct Response {
    pub status: u16,
    pub content: String,
    pub headers: StrMap,
}

/// A response, as mathematical values.
pub ghost struct RespModel {
    pub status: u16,
    pub content: Seq<char>,
    pub headers: Entries,
}

impl View for Response {
    type V = RespModel;

    open spec fn view(&self) -> RespModel {
        RespModel { status: self.status, content: self.content@, headers: self.headers@ }
    }
}

/// The standard reason phrase for a status code; an unassigned code reads
/// `Unknown Status`.
pub open spec fn spec_status_text(status: u16) -> Seq<char> {
    if status == 100 {
        "Continue"@
    } else if status == 101 {
        "Switching Protocols"@
    } else if status == 102 {
        "Processing"@
    } else if status == 103 {
        "Early Hints"@
    } else if status == 200 {
        "OK"@
    } else if status == 201 {
        "Created"@
    } else if status == 202 {
        "Accepted"@
    } else if status == 203 {
        "Non-Authoritative Information"@
    } else if status == 204 {
        "No Content"@
    } else if status == 205 {
        "Reset Content"@
    } else if status == 206 {
        "Partial Content"@
    } else if status == 207 {
        "Multi-Status"@
    } else if status == 208 {
        "Already Reported"@
    } else if status == 226 {
        "IM Used"@
    } else if status == 300 {
        "Multiple Choices"@
    } else if status == 301 {
        "Moved Permanently"@
    } else if status == 302 {
        "Found"@
    } else if status == 303 {
        "See Other"@
    } else if status == 304 {
        "Not Modified"@
    } else if status == 305 {
        "Use Proxy"@
    } else if status == 307 {
        "Temporary Redirect"@
    } else if status == 308 {
        "Permanent Redirect"@
    } else if status == 400 {
        "Bad Request"@
    } else if status == 401 {
        "Unauthorized"@
    } else if status == 402 {
        "Payment Required"@
    } else if status == 403 {
        "Forbidden"@
    } else if status == 404 {
        "Not Found"@
    } else if status == 405 {
        "Method Not Allowed"@
    } else if status == 406 {
        "Not Acceptable"@
    } else if status == 407 {
        "Proxy Authentication Required"@
    } else if status == 408 {
        "Request Timeout"@
    } else if status == 409 {
        "Conflict"@
    } else if status == 410 {
        "Gone"@
    } else if status == 411 {
        "Length Required"@
    } else if status == 412 {
        "Precondition Failed"@
    } else if status == 413 {
        "Payload Too Large"@
    } else if status == 414 {
        "URI Too Long"@
    } else if status == 415 {
        "Unsupported Media Type"@
    } else if status == 416 {
        "Range Not Satisfiable"@
    } else if status == 417 {
        "Expectation Failed"@
    } else if status == 418 {
        "I'm a Teapot"@
    } else if status == 421 {
        "Misdirected Request"@
    } else if status == 422 {
        "Unprocessable Entity"@
    } else if status == 423 {
        "Locked"@
    } else if status == 424 {
        "Failed Dependency"@
    } else if status == 425 {
        "Too Early"@
    } else if status == 426 {
        "Upgrade Required"@
    } else if status == 428 {
        "Precondition Required"@
    } else if status == 429 {
        "Too Many Requests"@
    } else if status == 431 {
        "Request Header Fields Too Large"@
    } else if status == 451 {
        "Unavailable For Legal Reasons"@
    } else if status == 500 {
        "Internal Server Error"@
    } else if status == 501 {
        "Not Implemented"@
    } else if status == 502 {
        "Bad Gateway"@
    } else if status == 503 {
        "Service Unavailable"@
    } else if status == 504 {
        "Gateway Timeout"@
    } else if status == 505 {
        "HTTP Version Not Supported"@
    } else if status == 506 {
        "Variant Also Negotiates"@
    } else if status == 507 {
        "Insufficient Storage"@
    } else if status == 508 {
        "Loop Detected"@
    } else if status == 510 {
        "Not Extended"@
    } else if status == 511 {
        "Network Authentication Required"@
    } else {
        "Unknown Status"@
    }
}

/// The header section of the wire form: one `Key: Value` line per entry of
/// `hs[i..]`, in entry order.
pub open spec fn render_headers_from(hs: Entries, i: int) -> Seq<char>
    decreases hs.len() - i,
    when 0 <= i
{
    if i >= hs.len() {
        seq![]
    } else {
        hs[i].0 + ": "@ + hs[i].1 + "\r\n"@ + render_headers_from(hs, i + 1)
    }
}

/// The byte length of a body on the wire: the length of its UTF-8
/// encoding, as the machine word that `str::len` yields.
pub open spec fn body_len(content: Seq<char>) -> nat {
    (vstd::utf8::encode_utf8(content).len() as usize) as nat
}

/// The exact wire form of a response: status line, header lines, a
/// `Content-Length` header holding the byte length of the body, a blank
/// line, the body, and a trailing blank line.
pub open spec fn spec_render(r: RespModel) -> Seq<char> {
    "HTTP/1.1 "@ + dec_digits(r.status as nat) + " "@ + spec_status_text(r.status) + "\r\n"@
        + render_headers_from(r.headers, 0) + "Content-Length: "@ + dec_digits(body_len(r.content))
        + "\r\n\r\n"@ + r.content + "\n\n"@
}

/// Every encoded response carries a `Content-Length` header line holding
/// the byte length of the body that follows it, whatever the status and
/// headers are.
pub proof fn lemma_render_content_length(r: RespModel)
    ensures
        spec_render(r) == ("HTTP/1.1 "@ + dec_digits(r.status as nat) + " "@ + spec_status_text(
            r.status,
        ) + "\r\n"@ + render_headers_from(r.headers, 0)) + ("Content-Length: "@ + dec_digits(
            body_len(r.content),
        ) + "\r\n\r\n"@ + r.content + "\n\n"@),
{
    assert(spec_render(r) =~= ("HTTP/1.1 "@ + dec_digits(r.status as nat) + " "@
        + spec_status_text(r.status) + "\r\n"@ + render_headers_from(r.headers, 0)) + (
    "Content-Length: "@ + dec_digits(body_len(r.content)) + "\r\n\r\n"@ + r.content + "\n\n"@));
}

/// For a body of ASCII characters, the `Content-Length` the encoder writes
/// is the number of characters of the body: each ASCII character is one
/// byte on the wire.
pub proof fn lemma_body_len_ascii(content: Seq<char>)
    requires
        vstd::utf8::is_ascii_chars(content),
        content.len() <= usize::MAX,
    ensures
        body_len(content) == content.len(),
{
    vstd::utf8::is_ascii_chars_encode_utf8(content);
}

impl Response {
    /// Creates an empty response with status `0`.
    pub fn new() -> (r: Response)
        ensures
            r@.status == 0,
            r@.content == Seq::<char>::empty(),
            r@.headers == Seq::<(Seq<char>, Seq<char>)>::empty(),
    {
        let r = Response { status: 0, content: String::new(), headers: StrMap::new() };
        proof {
            assert(r@.content =~= Seq::<char>::empty());
        }
        r
    }

    /// Creates an empty response with status `200`.
    pub fn success() -> (r: Response)
        ensures
            r@.status == 200,
            r@.content == Seq::<char>::empty(),
            r@.headers == Seq::<(Seq<char>, Seq<char>)>::empty(),
    {
        let mut response = Response::new();
        response.set_status(200);
        response
    }

    /// Sets the status code.
    pub fn set_status(&mut self, status: u16)
        ensures
            final(self)@.status == status,
            final(self)@.content == old(self)@.content,
            final(self)@.headers == old(self)@.headers,
    {
        self.status = status;
    }

    /// Sets the body content.
    pub fn set_content(&mut self, content: String)
        ensures
            final(self)@.status == old(self)@.status,
            final(self)@.content == content@,
            final(self)@.headers == old(self)@.headers,
    {
        self.content = content;
    }

    /// Replaces the whole header map.
    pub fn set_headers(&mut self, headers: StrMap)
        ensures
            final(self)@.status == old(self)@.status,
            final(self)@.content == old(self)@.content,
            final(self)@.headers == headers@,
    {
        self.headers = headers;
    }

    /// Sets one header, overwriting any existing entry with the same key.
    pub fn set_header(&mut self, key: String, value: String)
        ensures
            final(self)@.status == old(self)@.status,
            final(self)@.content == old(self)@.content,
            final(self)@.headers == map_insert(old(self)@.headers, key@, value@),
    {
        self.headers.insert(key, value);
    }

    /// The response served when no route matches: a plain-text 404.
    pub fn default_response() -> (r: Response)
        ensures
            r@.status == 404,
            r@.content == "404 - Not Found"@,
            r@.headers == seq![("Content-Type"@, "text/plain"@)],
    {
        let mut headers = StrMap::new();
        headers.insert("Content-Type".to_owned(), "text/plain".to_owned());
        let r = Response { status: 404, headers, content: "404 - Not Found".to_owned() };
        proof {
            assert(r@.headers =~= seq![("Content-Type"@, "text/plain"@)]);
        }
        r
    }

    /// The standard reason phrase for this response's status code.
    pub fn status_text(&self) -> (r: &'static str)
        ensures
            r@ == spec_status_text(self@.status),
    {
        match self.status {
            100 => "Continue",
            101 => "Switching Protocols",
            102 => "Processing",
            103 => "Early Hints",
            200 => "OK",
            201 => "Created",
            202 => "Accepted",
            203 => "Non-Authoritative Information",
            204 => "No Content",
            205 => "Reset Content",
            206 => "Partial Content",
            207 => "Multi-Status",
            208 => "Already Reported",
            226 => "IM Used",
            300 => "Multiple Choices",
            301 => "Moved Permanently",
            302 => "Found",
            303 => "See Other",
            304 => "Not Modified",
            305 => "Use Proxy",
            307 => "Temporary Redirect",
            308 => "Permanent Redirect",
            400 => "Bad Request",
            401 => "Unauthorized",
            402 => "Payment Required",
            403 => "Forbidden",
            404 => "Not Found",
            405 => "Method Not Allowed",
            406 => "Not Acceptable",
            407 => "Proxy Authentication Required",
            408 => "Request Timeout",
            409 => "Conflict",
            410 => "Gone",
            411 => "Length Required",
            412 => "Precondition Failed",
            413 => "Payload Too Large",
            414 => "URI Too Long",
            415 => "Unsupported Media Type",
            416 => "Range Not Satisfiable",
            417 => "Expectation Failed",
            418 => "I'm a Teapot",
            421 => "Misdirected Request",
            422 => "Unprocessable Entity",
            423 => "Locked",
            424 => "Failed Dependency",
            425 => "Too Early",
            426 => "Upgrade Required",
            428 => "Precondition Required",
            429 => "Too Many Requests",
            431 => "Request Header Fields Too Large",
            451 => "Unavailable For Legal Reasons",
            500 => "Internal Server Error",
            501 => "Not Implemented",
            502 => "Bad Gateway",
            503 => "Service Unavailable",
            504 => "Gateway Timeout",
            505 => "HTTP Version Not Supported",
            506 => "Variant Also Negotiates",
            507 => "Insufficient Storage",
            508 => "Loop Detected",
            510 => "Not Extended",
            511 => "Network Authentication Required",
            _ => "Unknown Status",
        }
    }

    /// Builds the exact text to write to the connection for this response.
    pub fn build_http_response(&self) -> (r: String)
        ensures
            r@ == spec_render(self@),
    {
        let mut out = String::new();
        out.append("HTTP/1.1 ");
        let status_dec = u64_to_dec(self.status as u64);
        out.append(status_dec.as_str());
        out.append(" ");
        out.append(self.status_text());
        out.append("\r\n");
        let ghost status_line = "HTTP/1.1 "@ + dec_digits(self@.status as nat) + " "@
            + spec_status_text(self@.status) + "\r\n"@;
        proof {
            assert(out@ =~= status_line);
        }
        let m = self.headers.len();
        let mut i: usize = 0;
        while i < m
            invariant
                i <= m,
                m == self@.headers.len(),
                out@ + render_headers_from(self@.headers, i as int) == status_line
                    + render_headers_from(self@.headers, 0),
            decreases m - i,
        {
            let k = self.headers.key_at(i);
            out.append(k.as_str());
            out.append(": ");
            let v = self.headers.val_at(i);
            out.append(v.as_str());
            out.append("\r\n");
            proof {
                assert(out@ + render_headers_from(self@.headers, i + 1) =~= status_line
                    + render_headers_from(self@.headers, 0));
            }
            i = i + 1;
        }
        proof {
            assert(out@ =~= status_line + render_headers_from(self@.headers, 0));
        }
        out.append("Content-Length: ");
        let len_dec = u64_to_dec(self.content.as_str().len() as u64);
        out.append(len_dec.as_str());
        out.append("\r\n\r\n");
        out.append(self.content.as_str());
        out.append("\n\n");
        proof {
            assert(out@ =~= spec_render(self@));
        }
        out
    }
}

} // verus!
