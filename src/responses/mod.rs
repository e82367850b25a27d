use vstd::prelude::*;
use vstd::string::StringExecFns;
use vstd::utf8::encode_utf8;

pub mod json_responses;

verus! {

/// The characters of the decimal numeral of `n`, without leading zeros.
pub open spec fn decimal(n: nat) -> Seq<char>
    decreases n,
{
    if n < 10 {
        seq![digit_char(n)]
    } else {
        decimal(n / 10).push(digit_char(n % 10))
    }
}

/// The character of a decimal digit.
pub open spec fn digit_char(d: nat) -> char {
    ((48 + d) as u8) as char
}

/// The status line rendered for a status code. Codes without an entry
/// render as `200 OK`, while the response keeps its numeric code.
pub open spec fn status_line(code: u16) -> Seq<char> {
    if code == 404 {
        "HTTP/1.1 404 Not Found"@
    } else if code == 500 {
        "HTTP/1.1 500 Internal Server Error"@
    } else {
        "HTTP/1.1 200 OK"@
    }
}

/// The number of bytes in the UTF-8 encoding of `s`.
pub open spec fn byte_len(s: Seq<char>) -> nat {
    encode_utf8(s).len()
}

/// The wire form of a response: status line, `Content-Type` and
/// `Content-Length` headers, a blank line, then the body.
pub open spec fn raw_response(code: u16, content_type: Seq<char>, body: Seq<char>) -> Seq<char> {
    status_line(code) + "\r\nContent-Type: "@ + content_type + "\r\nContent-Length: "@
        + decimal(byte_len(body)) + "\r\n\r\n"@ + body
}

/// Relies on `String::push`: the character is appended at the end.
#[verifier::external_body]
pub(crate) fn push_char(s: &mut String, c: char)
    ensures
        final(s)@ == old(s)@.push(c),
{
    s.push(c);
}

/// Appends the decimal numeral of `n` to `s`.
fn push_decimal(s: &mut String, n: usize)
    ensures
        final(s)@ == old(s)@ + decimal(n as nat),
    decreases n,
{
    let ghost start = s@;
    if n >= 10 {
        push_decimal(s, n / 10);
    }
    let d: u8 = (n % 10) as u8;
    let c = (48 + d) as char;
    push_char(s, c);
    assert(s@ =~= start + decimal(n as nat));
}

/// A response: numeric status code, content type and body.
pub struct HttpResponse {
    pub status_code: u16,
    pub content_type: String,
    pub body: String,
}

impl HttpResponse {
    pub fn new(status_code: u16, content_type: &str, body: &str) -> (r: Self)
        ensures
            r.status_code == status_code,
            r.content_type@ == content_type@,
            r.body@ == body@,
    {
        HttpResponse { status_code, content_type: content_type.to_owned(), body: body.to_owned() }
    }

    /// The response as it is written on the wire.
    pub fn to_raw_response(&self) -> (r: String)
        ensures
            r@ == raw_response(self.status_code, self.content_type@, self.body@),
    {
        let line = if self.status_code == 404 {
            "HTTP/1.1 404 Not Found"
        } else if self.status_code == 500 {
            "HTTP/1.1 500 Internal Server Error"
        } else {
            "HTTP/1.1 200 OK"
        };
        let mut out = line.to_owned();
        out.append("\r\nContent-Type: ");
        out.append(self.content_type.as_str());
        out.append("\r\nContent-Length: ");
        push_decimal(&mut out, self.body.as_str().as_bytes().len());
        out.append("\r\n\r\n");
        out.append(self.body.as_str());
        assert(out@ =~= raw_response(self.status_code, self.content_type@, self.body@));
        out
    }

    /// A 200 response labelled `text/json`.
    pub fn ok_plaintext(body: &str) -> (r: String)
        ensures
            r@ == raw_response(200, "text/json"@, body@),
    {
        Self::new(200, "text/json", body).to_raw_response()
    }

    /// A 200 response labelled `application/json`.
    pub fn ok_json(body: &str) -> (r: String)
        ensures
            r@ == raw_response(200, "application/json"@, body@),
    {
        HttpResponse::new(200, "application/json", body).to_raw_response()
    }

    pub fn not_found() -> (r: String)
        ensures
            r@ == raw_response(404, "text/plain"@, "404 Not Found"@),
    {
        HttpResponse::new(404, "text/plain", "404 Not Found").to_raw_response()
    }

    pub fn internal_error() -> (r: String)
        ensures
            r@ == raw_response(500, "text/plain"@, "500 Internal Server Error"@),
    {
        HttpResponse::new(500, "text/plain", "500 Internal Server Error").to_raw_response()
    }

    /// Status code 405; its status line renders as `200 OK`, see `status_line`.
    pub fn method_not_allowed() -> (r: String)
        ensures
            r@ == raw_response(405, "text/plain"@, "405 Method not allowed"@),
    {
        HttpResponse::new(405, "text/plain", "405 Method not allowed").to_raw_response()
    }
}

} // verus!
