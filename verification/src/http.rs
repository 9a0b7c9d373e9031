//! HTTP methods, versions and responses, and the bytes a response is sent as.
use vstd::prelude::*;
use vstd::utf8::encode_utf8;
use crate::string_map::StringMap;
use crate::text::{decimal_string, decimal_text, decimal_value, law_decimal_text_parses};

verus! {

broadcast use vstd::string::group_string_axioms;

/// A request method.
#[allow(non_camel_case_types)]
#[derive(Debug, Clone, Copy, PartialEq, Eq, Structural)]
pub enum Method {
    GET,
    POST,
    OPTION,
    PUT,
    DELETE,
}

/// A protocol version.
#[allow(non_camel_case_types)]
#[derive(Debug, Clone, Copy, PartialEq, Eq, Structural)]
pub enum HttpVersion {
    V1,
    V1_1,
    V2,
    V3,
}

/// The token that names a method on a request line.
pub open spec fn method_token(m: Method) -> Seq<char> {
    match m {
        Method::GET => "GET"@,
        Method::POST => "POST"@,
        Method::PUT => "PUT"@,
        Method::DELETE => "DELETE"@,
        Method::OPTION => "OPTION"@,
    }
}

/// The token that names a version on a request or status line.
pub open spec fn version_token(v: HttpVersion) -> Seq<char> {
    match v {
        HttpVersion::V1_1 => "HTTP/1.1"@,
        HttpVersion::V1 => "HTTP/1"@,
        HttpVersion::V2 => "HTTP/2"@,
        HttpVersion::V3 => "HTTP/3"@,
    }
}

/// The method whose token the bytes are, if any.
pub open spec fn method_of(chunk: Seq<u8>) -> Option<Method> {
    if chunk == encode_utf8(method_token(Method::GET)) {
        Some(Method::GET)
    } else if chunk == encode_utf8(method_token(Method::POST)) {
        Some(Method::POST)
    } else if chunk == encode_utf8(method_token(Method::PUT)) {
        Some(Method::PUT)
    } else if chunk == encode_utf8(method_token(Method::DELETE)) {
        Some(Method::DELETE)
    } else if chunk == encode_utf8(method_token(Method::OPTION)) {
        Some(Method::OPTION)
    } else {
        None
    }
}

/// The version whose token the bytes are, if any.
pub open spec fn version_of(chunk: Seq<u8>) -> Option<HttpVersion> {
    if chunk == encode_utf8(version_token(HttpVersion::V1_1)) {
        Some(HttpVersion::V1_1)
    } else if chunk == encode_utf8(version_token(HttpVersion::V1)) {
        Some(HttpVersion::V1)
    } else if chunk == encode_utf8(version_token(HttpVersion::V2)) {
        Some(HttpVersion::V2)
    } else if chunk == encode_utf8(version_token(HttpVersion::V3)) {
        Some(HttpVersion::V3)
    } else {
        None
    }
}


/// The reason phrase sent with a status code; codes without a standard phrase
/// get "Custom Protcol".
pub open spec fn reason_phrase(status_code: u32) -> Seq<char> {
    match status_code {
        100 => "Continue"@,
        101 => "Switching Protocols"@,
        200 => "OK"@,
        201 => "Created"@,
        202 => "Accepted"@,
        203 => "Non-Authoritative Information"@,
        204 => "No Content"@,
        205 => "Reset Content"@,
        206 => "Partial Content"@,
        300 => "Multiple Choices"@,
        301 => "Moved Permanently"@,
        302 => "Found"@,
        303 => "See Other"@,
        304 => "Not Modified"@,
        305 => "Use Proxy"@,
        307 => "Temporary Redirect"@,
        308 => "Permanent Redirect"@,
        400 => "Bad Request"@,
        401 => "Unauthorized"@,
        402 => "Payment Required"@,
        403 => "Forbidden"@,
        404 => "Not Found"@,
        405 => "Method Not Allowed"@,
        406 => "Not Acceptable"@,
        407 => "Proxy Authentication Required"@,
        408 => "Request Timeout"@,
        409 => "Conflict"@,
        410 => "Gone"@,
        411 => "Length Required"@,
        412 => "Precondition Failed"@,
        413 => "Content Too Large"@,
        414 => "URI Too Long"@,
        415 => "Unsupported Media Type"@,
        416 => "Range Not Satisfiable"@,
        417 => "Expectation Failed"@,
        421 => "Misdirected Request"@,
        422 => "Unprocessable Content"@,
        426 => "Upgrade Required"@,
        500 => "Internal Server Error"@,
        501 => "Not Implemented"@,
        502 => "Bad Gateway"@,
        503 => "Service Unavailable"@,
        504 => "Gateway Timeout"@,
        505 => "HTTP Version Not Supported"@,
        _ => "Custom Protcol"@,
    }
}

/// The bytes a version is written as.
pub open spec fn version_bytes(v: HttpVersion) -> Seq<u8> {
    encode_utf8(version_token(v))
}

/// CR LF.
pub open spec fn crlf() -> Seq<u8> {
    seq![13u8, 10u8]
}

/// One header line: the key, `": "`, the value, CR LF.
pub open spec fn header_line_bytes(e: (Seq<char>, Seq<char>)) -> Seq<u8> {
    encode_utf8(e.0) + seq![58u8, 32u8] + encode_utf8(e.1) + crlf()
}

/// The header lines of the entries, in order.
pub open spec fn header_block(es: Seq<(Seq<char>, Seq<char>)>) -> Seq<u8>
    decreases es.len(),
{
    if es.len() == 0 {
        Seq::empty()
    } else {
        header_block(es.drop_last()) + header_line_bytes(es.last())
    }
}

/// The status line: version, status code, reason phrase for the code.
pub open spec fn status_line(v: HttpVersion, status_code: u32) -> Seq<u8> {
    version_bytes(v) + seq![32u8] + encode_utf8(decimal_text(status_code as nat)) + seq![32u8]
        + encode_utf8(reason_phrase(status_code)) + crlf()
}

/// The head of a response: status line, header lines and an empty line.
pub open spec fn response_head(
    v: HttpVersion,
    status_code: u32,
    headers: Seq<(Seq<char>, Seq<char>)>,
) -> Seq<u8> {
    status_line(v, status_code) + header_block(headers) + crlf()
}

/// The bytes a response is sent as: its head, then the body.
pub open spec fn response_bytes(
    v: HttpVersion,
    status_code: u32,
    headers: Seq<(Seq<char>, Seq<char>)>,
    body: Seq<u8>,
) -> Seq<u8> {
    response_head(v, status_code, headers) + body
}

/// The head of a response ends with an empty line, CR LF CR LF; the body is
/// sent right after it.
pub proof fn law_head_ends_with_empty_line(
    v: HttpVersion,
    status_code: u32,
    headers: Seq<(Seq<char>, Seq<char>)>,
)
    ensures
        ({
            let h = response_head(v, status_code, headers);
            h.len() >= 4 && h.subrange(h.len() - 4, h.len() as int) == crlf() + crlf()
        }),
{
    let sl = status_line(v, status_code);
    let hb = header_block(headers);
    let h = response_head(v, status_code, headers);
    if headers.len() == 0 {
        assert(hb =~= Seq::<u8>::empty());
        assert(h.subrange(h.len() - 4, h.len() as int) =~= crlf() + crlf());
    } else {
        let last = header_line_bytes(headers.last());
        assert(hb == header_block(headers.drop_last()) + last);
        assert(h.subrange(h.len() - 4, h.len() as int) =~= crlf() + crlf());
    }
}

/// The `Content-Length` header of [`Response::new`] reads back as the number
/// of body bytes sent after the head.
pub proof fn law_content_length_frames_body(status_code: u32, body: Seq<u8>)
    ensures
        ({
            let headers = seq![("Content-Length"@, decimal_text(body.len()))];
            let bytes = response_bytes(HttpVersion::V1_1, status_code, headers, body);
            let head = response_head(HttpVersion::V1_1, status_code, headers);
            &&& bytes == head + body
            &&& bytes.len() - head.len() == body.len()
            &&& body.len() <= u64::MAX ==> decimal_value(headers[0].1) == body.len()
        }),
{
    if body.len() <= u64::MAX {
        law_decimal_text_parses(body.len());
    }
}

/// The reason phrases are the standard phrases of RFC 9110 for the codes it
/// names (with 413 "Content Too Large" and 422 "Unprocessable Content"), and
/// "Custom Protcol" for any other code.
pub proof fn law_standard_reason_phrases(code: u32)
    ensures
        reason_phrase(100) == "Continue"@,
        reason_phrase(101) == "Switching Protocols"@,
        reason_phrase(200) == "OK"@,
        reason_phrase(201) == "Created"@,
        reason_phrase(202) == "Accepted"@,
        reason_phrase(203) == "Non-Authoritative Information"@,
        reason_phrase(204) == "No Content"@,
        reason_phrase(205) == "Reset Content"@,
        reason_phrase(206) == "Partial Content"@,
        reason_phrase(300) == "Multiple Choices"@,
        reason_phrase(301) == "Moved Permanently"@,
        reason_phrase(302) == "Found"@,
        reason_phrase(303) == "See Other"@,
        reason_phrase(304) == "Not Modified"@,
        reason_phrase(305) == "Use Proxy"@,
        reason_phrase(307) == "Temporary Redirect"@,
        reason_phrase(308) == "Permanent Redirect"@,
        reason_phrase(400) == "Bad Request"@,
        reason_phrase(401) == "Unauthorized"@,
        reason_phrase(402) == "Payment Required"@,
        reason_phrase(403) == "Forbidden"@,
        reason_phrase(404) == "Not Found"@,
        reason_phrase(405) == "Method Not Allowed"@,
        reason_phrase(406) == "Not Acceptable"@,
        reason_phrase(407) == "Proxy Authentication Required"@,
        reason_phrase(408) == "Request Timeout"@,
        reason_phrase(409) == "Conflict"@,
        reason_phrase(410) == "Gone"@,
        reason_phrase(411) == "Length Required"@,
        reason_phrase(412) == "Precondition Failed"@,
        reason_phrase(413) == "Content Too Large"@,
        reason_phrase(414) == "URI Too Long"@,
        reason_phrase(415) == "Unsupported Media Type"@,
        reason_phrase(416) == "Range Not Satisfiable"@,
        reason_phrase(417) == "Expectation Failed"@,
        reason_phrase(421) == "Misdirected Request"@,
        reason_phrase(422) == "Unprocessable Content"@,
        reason_phrase(426) == "Upgrade Required"@,
        reason_phrase(500) == "Internal Server Error"@,
        reason_phrase(501) == "Not Implemented"@,
        reason_phrase(502) == "Bad Gateway"@,
        reason_phrase(503) == "Service Unavailable"@,
        reason_phrase(504) == "Gateway Timeout"@,
        reason_phrase(505) == "HTTP Version Not Supported"@,
        (code != 100 && code != 101 && code != 200 && code != 201 && code != 202 && code != 203 && code != 204 && code != 205 && code != 206 && code != 300 && code != 301 && code != 302 && code != 303 && code != 304 && code != 305 && code != 307 && code != 308 && code != 400 && code != 401 && code != 402 && code != 403 && code != 404 && code != 405 && code != 406 && code != 407 && code != 408 && code != 409 && code != 410 && code != 411 && code != 412 && code != 413 && code != 414 && code != 415 && code != 416 && code != 417 && code != 421 && code != 422 && code != 426 && code != 500 && code != 501 && code != 502 && code != 503 && code != 504 && code != 505) ==> reason_phrase(code) == "Custom Protcol"@,
{
}

/// A response to a request.
#[derive(Debug)]
pub struct Response {
    pub headers: StringMap,
    pub version: HttpVersion,
    pub status_code: u32,
    pub reason_phrase: String,
    pub body: Vec<u8>,
}

impl Response {
    /// A response with the given status and body, version 1.1, the standard
    /// reason phrase and one header, `Content-Length`, that gives the length of
    /// the body in decimal.
    pub fn new(status_code: u32, body: &[u8]) -> (r: Response)
        ensures
            r.status_code == status_code,
            r.version == HttpVersion::V1_1,
            r.reason_phrase@ == reason_phrase(status_code),
            r.body@ == body@,
            r.headers@ == seq![("Content-Length"@, decimal_text(body@.len()))],
    {
        let mut headers = StringMap::new();
        let len = decimal_string(body.len() as u64);
        headers.insert(String::from_str("Content-Length"), len);
        assert(headers@ =~= seq![("Content-Length"@, decimal_text(body@.len()))]);
        Response {
            headers,
            version: HttpVersion::V1_1,
            status_code,
            reason_phrase: String::from_str(Self::default_reason_phrase(status_code)),
            body: vstd::slice::slice_to_vec(body),
        }
    }

    /// The empty 404 response: no header, no body.
    pub fn not_found() -> (r: Response)
        ensures
            r.status_code == 404,
            r.version == HttpVersion::V1_1,
            r.reason_phrase@ == reason_phrase(404),
            r.body@ == Seq::<u8>::empty(),
            r.headers@ == Seq::<(Seq<char>, Seq<char>)>::empty(),
    {
        Response {
            headers: StringMap::new(),
            version: HttpVersion::V1_1,
            status_code: 404,
            reason_phrase: String::from_str(Self::default_reason_phrase(404)),
            body: Vec::new(),
        }
    }

    /// The bytes the response is sent as. The reason phrase written is the
    /// standard one for the status code. The body is moved out into the bytes:
    /// the response is left with an empty body.
    pub fn to_u8_vec(&mut self) -> (out: Vec<u8>)
        ensures
            out@ == response_bytes(
                old(self).version,
                old(self).status_code,
                old(self).headers@,
                old(self).body@,
            ),
            final(self).body@ == Seq::<u8>::empty(),
            final(self).headers@ == old(self).headers@,
            final(self).version == old(self).version,
            final(self).status_code == old(self).status_code,
            final(self).reason_phrase@ == old(self).reason_phrase@,
    {
        let mut buffer: Vec<u8> = Vec::new();
        let mut ver_bytes = Self::version_to_bytes(&self.version);
        buffer.append(&mut ver_bytes);
        buffer.push(32u8);
        let code = decimal_string(self.status_code as u64);
        buffer.extend_from_slice(code.as_str().as_bytes());
        buffer.push(32u8);
        buffer.extend_from_slice(Self::default_reason_phrase(self.status_code).as_bytes());
        buffer.push(13u8);
        buffer.push(10u8);
        assert(buffer@ =~= status_line(self.version, self.status_code));
        let n = self.headers.len();
        let mut i: usize = 0;
        assert(self.headers@.take(0) =~= Seq::<(Seq<char>, Seq<char>)>::empty());
        while i < n
            invariant
                n == self.headers@.len(),
                i <= n,
                buffer@ == status_line(self.version, self.status_code) + header_block(
                    self.headers@.take(i as int),
                ),
            decreases n - i,
        {
            let ghost before = buffer@;
            let (key, value) = self.headers.entry(i);
            buffer.extend_from_slice(key.as_str().as_bytes());
            buffer.push(58u8);
            buffer.push(32u8);
            buffer.extend_from_slice(value.as_str().as_bytes());
            buffer.push(13u8);
            buffer.push(10u8);
            assert(self.headers@.take(i + 1).drop_last() =~= self.headers@.take(i as int));
            assert(buffer@ =~= before + header_line_bytes(self.headers@[i as int]));
            i = i + 1;
        }
        assert(self.headers@.take(n as int) =~= self.headers@);
        buffer.push(13u8);
        buffer.push(10u8);
        let ghost head = buffer@;
        buffer.append(&mut self.body);
        assert(buffer@ =~= head + old(self).body@);
        buffer
    }

    /// The bytes a version is written as.
    pub fn version_to_bytes(version: &HttpVersion) -> (b: Vec<u8>)
        ensures
            b@ == version_bytes(*version),
    {
        let s = match version {
            HttpVersion::V1_1 => "HTTP/1.1",
            HttpVersion::V1 => "HTTP/1",
            HttpVersion::V2 => "HTTP/2",
            HttpVersion::V3 => "HTTP/3",
        };
        vstd::slice::slice_to_vec(s.as_bytes())
    }

    /// The standard reason phrase for a status code.
    pub fn default_reason_phrase(status_code: u32) -> (s: &'static str)
        ensures
            s@ == reason_phrase(status_code),
    {
        match status_code {
            100 => "Continue",
            101 => "Switching Protocols",
            200 => "OK",
            201 => "Created",
            202 => "Accepted",
            203 => "Non-Authoritative Information",
            204 => "No Content",
            205 => "Reset Content",
            206 => "Partial Content",
            300 => "Multiple Choices",
            301 => "Moved Permanently",
            302 => "Found",
            303 => "See Other",
            304 => "Not Modified",
            305 => "Use Proxy",
            307 => "Temporary Redirect",
            308 => "Permanent Redirect",
            400 => "Bad Request",
            401 => "Unauthorized",
            402 => "Payment Required",
            403 => "Forbidden",
            404 => "Not Found",
            405 => "Method Not Allowed",
            406 => "Not Acceptable",
            407 => "Proxy Authentication Required",
            408 => "Request Timeout",
            409 => "Conflict",
            410 => "Gone",
            411 => "Length Required",
            412 => "Precondition Failed",
            413 => "Content Too Large",
            414 => "URI Too Long",
            415 => "Unsupported Media Type",
            416 => "Range Not Satisfiable",
            417 => "Expectation Failed",
            421 => "Misdirected Request",
            422 => "Unprocessable Content",
            426 => "Upgrade Required",
            500 => "Internal Server Error",
            501 => "Not Implemented",
            502 => "Bad Gateway",
            503 => "Service Unavailable",
            504 => "Gateway Timeout",
            505 => "HTTP Version Not Supported",
            _ => "Custom Protcol",
        }
    }
}

} // verus!
