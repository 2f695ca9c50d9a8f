//! The HTTP/1.1 subset the proxy speaks: request line and header parsing,
//! status reasons and response framing.
use vstd::prelude::*;
use vstd::utf8::encode_utf8;
use crate::text::{
    chars_of,
    decimal,
    eq_ascii_ci,
    eq_ignore_ascii_case,
    first_two_tokens,
    parse_unsigned,
    parse_unsigned_range,
    push_decimal,
    split_once_char,
    split_once_spec,
    trim_end_whitespace,
    trim_end_ws,
    trim_whitespace,
    trim_ws,
    ws_tokens,
};

verus! {

/// Method and path of a request line: its first two white-space-separated
/// tokens, the path `/` when there is only one; none when the line has no
/// method (end of input or a blank line).
pub fn parse_request_line(line: &str) -> (r: Option<(String, String)>)
    ensures
        r is None <==> ws_tokens(line@).len() == 0 || ws_tokens(line@)[0].len() == 0,
        r matches Some(mp) ==> mp.0@ == ws_tokens(line@)[0] && mp.1@ == if ws_tokens(line@).len()
            >= 2 {
            ws_tokens(line@)[1]
        } else {
            "/"@
        },
{
    let (method, path) = first_two_tokens(line);
    match method {
        None => None,
        Some(m) => {
            if m.as_str().is_empty() {
                return None;
            }
            let p = match path {
                Some(p) => p,
                None => String::from_str("/"),
            };
            Some((m, p))
        },
    }
}

/// What one header line means to the proxy.
#[derive(PartialEq, Eq, Structural, Debug, Clone, Copy)]
pub enum HeaderLine {
    /// The blank line that ends the headers.
    End,
    /// A `Content-Length` header: its value, 0 where it is no number.
    ContentLength(usize),
    /// Any other header.
    Other,
}

/// How `header_line` reads a header line.
pub open spec fn header_meaning(line: Seq<char>) -> HeaderLine {
    let t = trim_end_ws(line);
    if t.len() == 0 {
        HeaderLine::End
    } else {
        match split_once_spec(t, ':') {
            Some(kv) => if eq_ascii_ci(trim_ws(kv.0), "content-length"@) {
                HeaderLine::ContentLength(
                    match parse_unsigned(trim_ws(kv.1), 10, usize::MAX as int) {
                        Some(n) => n as usize,
                        None => 0,
                    },
                )
            } else {
                HeaderLine::Other
            },
            None => HeaderLine::Other,
        }
    }
}

/// Reads one header line (line break included or not).
pub fn header_line(line: &str) -> (h: HeaderLine)
    ensures
        h == header_meaning(line@),
{
    let t = trim_end_whitespace(line);
    if t.as_str().is_empty() {
        return HeaderLine::End;
    }
    match split_once_char(t.as_str(), ':') {
        Some((k, v)) => {
            let key = trim_whitespace(k.as_str());
            if eq_ignore_ascii_case(key.as_str(), "content-length") {
                let value = trim_whitespace(v.as_str());
                let cs = chars_of(value.as_str());
                assert(cs@.subrange(0, cs@.len() as int) =~= value@);
                let n = match parse_unsigned_range(&cs, 0, cs.len(), 10, usize::MAX as u64) {
                    Some(n) => n as usize,
                    None => 0,
                };
                HeaderLine::ContentLength(n)
            } else {
                HeaderLine::Other
            }
        },
        None => HeaderLine::Other,
    }
}

/// The reason phrase sent with a status code.
pub open spec fn reason_text(code: u16) -> Seq<char> {
    if code == 200 {
        "OK"@
    } else if code == 204 {
        "No Content"@
    } else if code == 404 {
        "Not Found"@
    } else if code == 500 {
        "Internal Server Error"@
    } else {
        "OK"@
    }
}

/// The reason phrase for `code` (`OK` for codes the proxy does not send).
pub fn reason(code: u16) -> (r: &'static str)
    ensures
        r@ == reason_text(code),
{
    match code {
        200 => "OK",
        204 => "No Content",
        404 => "Not Found",
        500 => "Internal Server Error",
        _ => "OK",
    }
}

/// The status line and headers of a response.
pub open spec fn response_head_text(code: u16, content_type: Seq<char>, body_len: nat) -> Seq<
    char,
> {
    "HTTP/1.1 "@ + decimal(code as nat) + " "@ + reason_text(code) + "\r\nContent-Type: "@
        + content_type + "\r\nContent-Length: "@ + decimal(body_len)
        + "\r\nAccess-Control-Allow-Origin: *\r\nConnection: close\r\n\r\n"@
}

/// Status line and headers for a response with `body_len` bytes of body.
pub fn response_head(code: u16, content_type: &str, body_len: usize) -> (head: String)
    ensures
        head@ == response_head_text(code, content_type@, body_len as nat),
{
    let mut head = String::from_str("HTTP/1.1 ");
    push_decimal(&mut head, code as u64);
    head.append(" ");
    head.append(reason(code));
    head.append("\r\nContent-Type: ");
    head.append(content_type);
    head.append("\r\nContent-Length: ");
    push_decimal(&mut head, body_len as u64);
    head.append("\r\nAccess-Control-Allow-Origin: *\r\nConnection: close\r\n\r\n");
    head
}

/// The head carries the content type it is given: two heads with the same
/// status and body length are equal only when their content types are, and
/// the content type stands in the head right after `Content-Type: `, followed
/// by the line break.
pub proof fn lemma_head_names_content_type(
    code: u16,
    ct1: Seq<char>,
    ct2: Seq<char>,
    body_len: nat,
)
    ensures
        response_head_text(code, ct1, body_len) == response_head_text(code, ct2, body_len) ==> ct1
            == ct2,
        ({
            let before = "HTTP/1.1 "@ + decimal(code as nat) + " "@ + reason_text(code)
                + "\r\nContent-Type: "@;
            let k = before.len() as int;
            let n = ct1.len() as int;
            let head = response_head_text(code, ct1, body_len);
            &&& head.subrange(0, k) == before
            &&& head.subrange(k, k + n) == ct1
            &&& head.subrange(k + n, k + n + 2) == "\r\n"@
        }),
{
    let before = "HTTP/1.1 "@ + decimal(code as nat) + " "@ + reason_text(code)
        + "\r\nContent-Type: "@;
    let after = "\r\nContent-Length: "@ + decimal(body_len)
        + "\r\nAccess-Control-Allow-Origin: *\r\nConnection: close\r\n\r\n"@;
    reveal_strlit("\r\nContent-Length: ");
    reveal_strlit("\r\n");
    let k = before.len() as int;
    let n = ct1.len() as int;
    assert(response_head_text(code, ct1, body_len) =~= before + ct1 + after);
    assert(response_head_text(code, ct2, body_len) =~= before + ct2 + after);
    let h1 = before + ct1 + after;
    let h2 = before + ct2 + after;
    if h1 == h2 {
        assert(ct1.len() == ct2.len());
        assert(ct1 =~= h1.subrange(k, k + n));
        assert(ct2 =~= h2.subrange(k, k + n));
    }
    assert(h1.subrange(0, k) =~= before);
    assert(h1.subrange(k, k + n) =~= ct1);
    assert(h1.subrange(k + n, k + n + 2) =~= "\r\n"@);
}

/// Appends `b` to `out`.
pub fn append_bytes(out: &mut Vec<u8>, b: &[u8])
    ensures
        final(out)@ == old(out)@ + b@,
{
    let ghost start = out@;
    let mut i: usize = 0;
    while i < b.len()
        invariant
            i <= b@.len(),
            out@ == start + b@.take(i as int),
        decreases b@.len() - i,
    {
        out.push(b[i]);
        assert(b@.take(i + 1) =~= b@.take(i as int).push(b@[i as int]));
        i = i + 1;
    }
    assert(b@.take(i as int) =~= b@);
}

/// The bytes sent for a response: head, then the body unless the request
/// was `HEAD` (the head still gives the body's length).
pub fn response_bytes(code: u16, content_type: &str, body: &[u8], head_only: bool) -> (out: Vec<
    u8,
>)
    ensures
        out@ == encode_utf8(response_head_text(code, content_type@, body@.len())) + if head_only {
            Seq::<u8>::empty()
        } else {
            body@
        },
{
    let head = response_head(code, content_type, body.len());
    let mut out: Vec<u8> = Vec::new();
    append_bytes(&mut out, head.as_str().as_bytes());
    if !head_only {
        append_bytes(&mut out, body);
    }
    out
}

/// Content type of a served asset response: bundles on success, text for
/// error messages.
pub fn asset_content_type(code: u16) -> (t: &'static str)
    ensures
        t@ == if code == 200 {
            "application/octet-stream"@
        } else {
            "text/plain"@
        },
{
    if code == 200 {
        "application/octet-stream"
    } else {
        "text/plain"
    }
}

/// A complete answer: status, content type and body.
pub struct Response {
    pub code: u16,
    pub content_type: String,
    pub body: Vec<u8>,
}

/// The bytes of `s`.
pub fn text_bytes(s: &str) -> (b: Vec<u8>)
    ensures
        b@ == encode_utf8(s@),
{
    let mut b: Vec<u8> = Vec::new();
    append_bytes(&mut b, s.as_bytes());
    b
}

/// A response with a text body.
pub fn text_response(code: u16, content_type: &str, body: &str) -> (r: Response)
    ensures
        r.code == code,
        r.content_type@ == content_type@,
        r.body@ == encode_utf8(body@),
{
    Response { code, content_type: String::from_str(content_type), body: text_bytes(body) }
}

} // verus!
