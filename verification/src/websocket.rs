//! The server side of the WebSocket opening handshake.
use vstd::prelude::*;
use vstd::utf8::encode_utf8;
use base64::Engine;
use sha1::{Digest, Sha1};
use crate::http::{reason_phrase, HttpVersion, Response};
use crate::request::Request;
use crate::string_map::lemma_new_key;
use crate::text::{decimal_text, text_eq};

verus! {

broadcast use vstd::string::group_string_axioms;

/// The SHA-1 digest of the bytes.
pub uninterp spec fn sha1(data: Seq<u8>) -> Seq<u8>;

/// Calls `sha1::Sha1::digest`: the digest of the bytes, 20 bytes long (the
/// output size of `Sha1`). The digest itself is only named, by `sha1`.
#[verifier::external_body]
fn sha1_digest(data: &[u8]) -> (d: Vec<u8>)
    ensures
        d@ == sha1(data@),
        d@.len() == 20,
{
    Sha1::digest(data).to_vec()
}

/// The standard base64 alphabet.
pub open spec fn base64_alphabet() -> Seq<char> {
    "ABCDEFGHIJKLMNOPQRSTUVWXYZabcdefghijklmnopqrstuvwxyz0123456789+/"@
}

/// Base64 in the standard alphabet with `=` padding (RFC 4648): each group
/// of three bytes, read as a 24-bit number, gives four characters of six bits
/// each; a last group of one or two bytes is filled with zero bits and the
/// missing characters are written `=`.
pub open spec fn base64_encode(data: Seq<u8>) -> Seq<char>
    decreases data.len(),
{
    let a = base64_alphabet();
    if data.len() == 0 {
        Seq::empty()
    } else if data.len() == 1 {
        let n = data[0] * 65536;
        seq![a[n / 262144], a[(n / 4096) % 64], '=', '=']
    } else if data.len() == 2 {
        let n = data[0] * 65536 + data[1] * 256;
        seq![a[n / 262144], a[(n / 4096) % 64], a[(n / 64) % 64], '=']
    } else {
        let n = data[0] * 65536 + data[1] * 256 + data[2];
        seq![a[n / 262144], a[(n / 4096) % 64], a[(n / 64) % 64], a[n % 64]] + base64_encode(
            data.skip(3),
        )
    }
}

/// Calls `Engine::encode` of `base64::engine::general_purpose::STANDARD`: the
/// standard alphabet with padding. It panics where the length of the text
/// would not fit in `usize`, which `requires` leaves out.
#[verifier::external_body]
fn base64_standard(data: &[u8]) -> (s: String)
    requires
        4 * ((data@.len() + 2) / 3) <= usize::MAX,
    ensures
        s@ == base64_encode(data@),
{
    base64::engine::general_purpose::STANDARD.encode(data)
}

/// The GUID that RFC 6455 appends to the client's key.
pub open spec fn websocket_guid() -> Seq<char> {
    "258EAFA5-E914-47DA-95CA-C5AB0DC85B11"@
}

/// The `Sec-WebSocket-Accept` value for a client key: the base64 of the SHA-1
/// digest of the key followed by the GUID.
pub open spec fn accept_key(key: Seq<char>) -> Seq<char> {
    base64_encode(sha1(encode_utf8(key + websocket_guid())))
}

/// The `Sec-WebSocket-Accept` value for a client key.
pub fn generate_response_ws_sec(sec: &String) -> (r: String)
    ensures
        r@ == accept_key(sec@),
{
    let result = sec.clone().concat("258EAFA5-E914-47DA-95CA-C5AB0DC85B11");
    let digest = sha1_digest(result.as_str().as_bytes());
    base64_standard(digest.as_slice())
}

/// Whether a request asks for a WebSocket connection the way the server
/// accepts: HTTP/1.1, `Connection: Upgrade`, `Upgrade: websocket` and a
/// `Sec-WebSocket-Key`.
pub open spec fn handshake_accepted(req: Request) -> bool {
    &&& req.version == HttpVersion::V1_1
    &&& req.headers.lookup("Connection"@) == Some("Upgrade"@)
    &&& req.headers.lookup("Upgrade"@) == Some("websocket"@)
    &&& req.headers.lookup("Sec-WebSocket-Key"@) is Some
}

/// Answers a WebSocket opening request: `101 Switching Protocols` with the
/// upgrade headers and the accept key, or `Err` where the request is not one
/// the server accepts.
pub fn initiate_websocket_handshake(req: &Request) -> (r: Result<Response, ()>)
    ensures
        r is Ok <==> handshake_accepted(*req),
        r matches Ok(res) ==> {
            &&& res.status_code == 101
            &&& res.version == HttpVersion::V1_1
            &&& res.reason_phrase@ == reason_phrase(101)
            &&& res.body@ == Seq::<u8>::empty()
            &&& res.headers@ == seq![
                ("Content-Length"@, decimal_text(0)),
                ("Upgrade"@, "websocket"@),
                ("Connection"@, "Upgrade"@),
                (
                    "Sec-WebSocket-Accept"@,
                    accept_key(req.headers.lookup("Sec-WebSocket-Key"@)->0),
                ),
            ]
        },
{
    if req.version != HttpVersion::V1_1 {
        return Err(());
    }
    match req.headers.get("Connection") {
        Some(v) => {
            if !text_eq(v.as_str(), "Upgrade") {
                return Err(());
            }
        },
        None => {
            return Err(());
        },
    }
    match req.headers.get("Upgrade") {
        Some(v) => {
            if !text_eq(v.as_str(), "websocket") {
                return Err(());
            }
        },
        None => {
            return Err(());
        },
    }
    let ws_sec = match req.headers.get("Sec-WebSocket-Key") {
        Some(v) => v,
        None => {
            return Err(());
        },
    };
    let ws_sec_new = generate_response_ws_sec(ws_sec);
    let empty: Vec<u8> = Vec::new();
    let mut res = Response::new(101, empty.as_slice());
    proof {
        reveal_strlit("Content-Length");
        reveal_strlit("Upgrade");
        reveal_strlit("Connection");
        reveal_strlit("Sec-WebSocket-Accept");
    }
    let ghost e0 = res.headers@;
    assert(e0 =~= seq![("Content-Length"@, decimal_text(0))]);
    proof {
        lemma_new_key(e0, "Upgrade"@);
    }
    res.headers.insert(String::from_str("Upgrade"), String::from_str("websocket"));
    let ghost e1 = res.headers@;
    assert(e1 =~= e0.push(("Upgrade"@, "websocket"@)));
    proof {
        lemma_new_key(e1, "Connection"@);
    }
    res.headers.insert(String::from_str("Connection"), String::from_str("Upgrade"));
    let ghost e2 = res.headers@;
    assert(e2 =~= e1.push(("Connection"@, "Upgrade"@)));
    proof {
        lemma_new_key(e2, "Sec-WebSocket-Accept"@);
    }
    res.headers.insert(String::from_str("Sec-WebSocket-Accept"), ws_sec_new);
    assert(res.headers@ =~= seq![
        ("Content-Length"@, decimal_text(0)),
        ("Upgrade"@, "websocket"@),
        ("Connection"@, "Upgrade"@),
        ("Sec-WebSocket-Accept"@, accept_key(req.headers.lookup("Sec-WebSocket-Key"@)->0)),
    ]);
    Ok(res)
}

} // verus!
