//! What the servers do with a request: which response to send, or which file
//! to send where the answer depends on what is on disk.
use vstd::prelude::*;
use vstd::utf8::encode_utf8;
use crate::http::{reason_phrase, HttpVersion, Method, Response};
use crate::request::{is_file_path, Request};
use crate::string_map::lemma_new_key;
use crate::text::{chars_of, decimal_text, text_eq};
use crate::websocket::{accept_key, handshake_accepted, initiate_websocket_handshake};
use crate::url_pattern::{first_match, path_matches, UrlPattern};

verus! {

broadcast use vstd::string::group_string_axioms;

/// Whether the text holds two dots in a row.
pub open spec fn has_dot_dot(s: Seq<char>) -> bool {
    exists|i: int| 0 <= i < s.len() - 1 && #[trigger] s[i] == '.' && s[i + 1] == '.'
}

/// The location of `path` under the directory `root`: the two texts joined.
pub fn file_location(root: &str, path: &str) -> (loc: String)
    ensures
        loc@ == root@ + path@,
{
    String::from_str(root).concat(path)
}

/// The location of `path` under `root`, unless the location holds `..`.
pub fn safe_location(root: &str, path: &str) -> (loc: Option<String>)
    ensures
        match loc {
            Some(l) => l@ == root@ + path@ && !has_dot_dot(l@),
            None => has_dot_dot(root@ + path@),
        },
{
    let location = file_location(root, path);
    let cs = chars_of(location.as_str());
    let mut i: usize = 0;
    while i < cs.len()
        invariant
            cs@ == location@,
            location@ == root@ + path@,
            i <= cs.len(),
            forall|k: int| 0 <= k < i && k < cs@.len() - 1 ==> !(#[trigger] cs@[k] == '.' && cs@[k + 1]
                == '.'),
        decreases cs.len() - i,
    {
        if i + 1 < cs.len() && cs[i] == '.' && cs[i + 1] == '.' {
            assert(location@[i as int] == '.' && location@[i + 1] == '.');
            return None;
        }
        i = i + 1;
    }
    Some(location)
}

/// `r` is a version 1.1 response with this status, its standard reason
/// phrase, these headers and this body.
pub open spec fn response_is(
    r: Response,
    status_code: u32,
    headers: Seq<(Seq<char>, Seq<char>)>,
    body: Seq<u8>,
) -> bool {
    &&& r.status_code == status_code
    &&& r.version == HttpVersion::V1_1
    &&& r.reason_phrase@ == reason_phrase(status_code)
    &&& r.headers@ == headers
    &&& r.body@ == body
}

/// The response for an HTML body: `Content-Length` and `Content-Type:
/// text/html`.
pub fn html_response(status_code: u32, body: &[u8]) -> (r: Response)
    ensures
        response_is(
            r,
            status_code,
            seq![
                ("Content-Length"@, decimal_text(body@.len())),
                ("Content-Type"@, "text/html"@),
            ],
            body@,
        ),
{
    let mut res = Response::new(status_code, body);
    proof {
        reveal_strlit("Content-Length");
        reveal_strlit("Content-Type");
        lemma_new_key(res.headers@, "Content-Type"@);
    }
    let ghost e = res.headers@;
    res.headers.insert(String::from_str("Content-Type"), String::from_str("text/html"));
    assert(res.headers@ =~= e.push(("Content-Type"@, "text/html"@)));
    assert(res.headers@ =~= seq![
        ("Content-Length"@, decimal_text(body@.len())),
        ("Content-Type"@, "text/html"@),
    ]);
    res
}

/// The kinds of request the WebSocket server tells apart.
pub enum Route {
    /// `GET /`: the index page.
    Index,
    /// `GET` of a path that names a file.
    File,
    /// `POST /`.
    Post,
    /// `GET /ws`: a WebSocket opening request.
    WebSocket,
    /// Anything else.
    Missing,
}

/// The kind of a request, the first that applies in the order of [`Route`].
pub open spec fn route_of(req: Request) -> Route {
    if req.method == Method::GET && req.url@ == "/"@ {
        Route::Index
    } else if req.method == Method::GET && is_file_path(req.url@) {
        Route::File
    } else if req.method == Method::POST && req.url@ == "/"@ {
        Route::Post
    } else if req.method == Method::GET && req.url@ == "/ws"@ {
        Route::WebSocket
    } else {
        Route::Missing
    }
}

/// Only a `POST` of `/` is answered as a post: a `POST` of any other path,
/// and any request whose method is neither `GET` nor `POST`, falls to the
/// empty 404; a `GET` is never answered as a post.
pub proof fn law_route_by_method(req: Request)
    ensures
        req.method == Method::POST ==> (route_of(req) is Post <==> req.url@ == "/"@),
        req.method == Method::POST && req.url@ != "/"@ ==> route_of(req) is Missing,
        req.method != Method::GET && req.method != Method::POST ==> route_of(req) is Missing,
        req.method == Method::GET ==> !(route_of(req) is Post),
        req.method != Method::GET ==> !(route_of(req) is Index || route_of(req) is File
            || route_of(req) is WebSocket),
{
}

/// What the WebSocket server does with a request.
pub enum Action {
    /// Send this response.
    Respond(Response),
    /// Send the file at this location as HTML with status 200; a file that
    /// cannot be read is sent empty.
    ServeIndex(String),
    /// Send the file at this location with status 200 if it is a file, or
    /// the empty 404 response if not; a file that cannot be read is sent empty.
    ServeFile(String),
}

/// Decides what the WebSocket server does with a request. Files are served
/// from the directory `public`; a location that holds `..` is refused.
pub fn route(request: &Request) -> (a: Action)
    ensures
        route_of(*request) is Index ==> (a matches Action::ServeIndex(loc) && loc@ == "public"@
            + "/index.html"@),
        route_of(*request) is File ==> if has_dot_dot("public"@ + request.url@) {
            (a matches Action::Respond(r) && response_is(r, 404, Seq::empty(), Seq::empty()))
        } else {
            (a matches Action::ServeFile(loc) && loc@ == "public"@ + request.url@)
        },
        route_of(*request) is Post ==> (a matches Action::Respond(r) && response_is(
            r,
            200,
            seq![
                ("Content-Length"@, decimal_text(encode_utf8("Data Recived!"@).len())),
                ("Content-Type"@, "text/html"@),
            ],
            encode_utf8("Data Recived!"@),
        )),
        route_of(*request) is WebSocket ==> (a matches Action::Respond(r) && (if handshake_accepted(
            *request,
        ) {
            response_is(
                r,
                101,
                seq![
                    ("Content-Length"@, decimal_text(0)),
                    ("Upgrade"@, "websocket"@),
                    ("Connection"@, "Upgrade"@),
                    (
                        "Sec-WebSocket-Accept"@,
                        accept_key(request.headers.lookup("Sec-WebSocket-Key"@)->0),
                    ),
                ],
                Seq::empty(),
            )
        } else {
            response_is(
                r,
                505,
                seq![
                    (
                        "Content-Length"@,
                        decimal_text(encode_utf8("Unsupported Version (1.1 required)"@).len()),
                    ),
                ],
                encode_utf8("Unsupported Version (1.1 required)"@),
            )
        })),
        route_of(*request) is Missing ==> (a matches Action::Respond(r) && response_is(
            r,
            404,
            Seq::empty(),
            Seq::empty(),
        )),
{
    let get = request.method == Method::GET;
    let post = request.method == Method::POST;
    let root = text_eq(request.url.as_str(), "/");
    if get && root {
        Action::ServeIndex(file_location("public", "/index.html"))
    } else if get && request.is_file() {
        match safe_location("public", request.url.as_str()) {
            Some(loc) => Action::ServeFile(loc),
            None => Action::Respond(Response::not_found()),
        }
    } else if post && root {
        Action::Respond(html_response(200, "Data Recived!".as_bytes()))
    } else if get && text_eq(request.url.as_str(), "/ws") {
        match initiate_websocket_handshake(request) {
            Ok(response) => Action::Respond(response),
            Err(_) => Action::Respond(
                Response::new(505, "Unsupported Version (1.1 required)".as_bytes()),
            ),
        }
    } else {
        Action::Respond(Response::not_found())
    }
}


/// What the shop server does with a request path.
pub enum ShopAction {
    /// Serve the path with the view of the pattern at this index.
    View(usize),
    /// Send the file at this location if it is a file, or 404 if not.
    File(String),
    /// Answer 404: no pattern accepts the path and its location holds `..`.
    NotFound,
}

/// Decides what the shop server does with a request path: the first pattern
/// that accepts the path serves it; otherwise the file of that path under
/// the directory `static` is sent, unless its location holds `..`.
pub fn shop_route<V>(patterns: &Vec<UrlPattern<V>>, path: &str) -> (a: ShopAction)
    ensures
        match a {
            ShopAction::View(i) => i < patterns@.len() && path_matches(
                patterns@[i as int].parts(),
                path@,
            ) && forall|k: int| 0 <= k < i ==> !path_matches(#[trigger] patterns@[k].parts(), path@),
            ShopAction::File(loc) => (forall|k: int|
                0 <= k < patterns@.len() ==> !path_matches(#[trigger] patterns@[k].parts(), path@))
                && loc@ == "static"@ + path@ && !has_dot_dot(loc@),
            ShopAction::NotFound => (forall|k: int|
                0 <= k < patterns@.len() ==> !path_matches(#[trigger] patterns@[k].parts(), path@))
                && has_dot_dot("static"@ + path@),
        },
{
    match first_match(patterns, path) {
        Some(i) => ShopAction::View(i),
        None => match safe_location("static", path) {
            Some(loc) => ShopAction::File(loc),
            None => ShopAction::NotFound,
        },
    }
}

} // verus!
