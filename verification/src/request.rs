//! Reading a request from the bytes received: request line, header lines and
//! body.
use vstd::prelude::*;
use vstd::utf8::{
    decode_first_scalar, decode_utf8, pop_first_scalar, valid_first_scalar, valid_utf8,
};
use crate::http::{method_of, version_of, HttpVersion, Method};
use crate::string_map::{inserted_all, StringMap};
use crate::text::{
    bytes_eq, chars_of, decode_lossy, ends_with, lemma_split_seq_append_piece, lemma_split_seq_no_sep,
    lemma_split_seq_nonempty,
    lemma_split_seq_pieces_lack_sep, split_bytes, split_seq, split_str, text_ends_with,
    utf8_lossy,
};

verus! {

broadcast use vstd::string::group_string_axioms;

/// Whether bytes `p` and `p + 1` are CR LF.
pub open spec fn is_crlf_at(b: Seq<u8>, p: int) -> bool {
    0 <= p && p + 1 < b.len() && b[p] == 13u8 && b[p + 1] == 10u8
}

/// The positions below `n` where a CR LF starts, in increasing order.
pub open spec fn crlf_positions_before(b: Seq<u8>, n: int) -> Seq<int>
    decreases n,
{
    if n <= 0 {
        Seq::empty()
    } else {
        let r = crlf_positions_before(b, n - 1);
        if is_crlf_at(b, n - 1) {
            r.push(n - 1)
        } else {
            r
        }
    }
}

/// The positions where a CR LF starts, in increasing order.
pub open spec fn line_breaks(b: Seq<u8>) -> Seq<int> {
    crlf_positions_before(b, b.len() - 1)
}

pub proof fn lemma_crlf_positions(b: Seq<u8>, n: int)
    ensures
        forall|a: int|
            0 <= a < crlf_positions_before(b, n).len() ==> is_crlf_at(
                b,
                #[trigger] crlf_positions_before(b, n)[a],
            ) && crlf_positions_before(b, n)[a] < n,
        forall|a: int, c: int|
            0 <= a < c < crlf_positions_before(b, n).len() ==> #[trigger] crlf_positions_before(
                b,
                n,
            )[a] < #[trigger] crlf_positions_before(b, n)[c],
    decreases n,
{
    if n > 0 {
        lemma_crlf_positions(b, n - 1);
        let r = crlf_positions_before(b, n - 1);
        let s = crlf_positions_before(b, n);
        if is_crlf_at(b, n - 1) {
            assert forall|a: int| 0 <= a < s.len() implies is_crlf_at(b, #[trigger] s[a]) && s[a]
                < n by {
                if a < r.len() {
                    assert(s[a] == r[a]);
                }
            }
            assert forall|a: int, c: int| 0 <= a < c < s.len() implies #[trigger] s[a]
                < #[trigger] s[c] by {
                assert(s[a] == r[a]);
                if c < r.len() {
                    assert(s[c] == r[c]);
                }
            }
        }
    }
}

/// The lines between the request line and the body that are read as header
/// lines: starting after the CR LF at `j`, each CR LF at or after position
/// `k` of `breaks` ends a line; an empty line is passed over and the next
/// line then starts after the same CR LF as the empty one.
pub open spec fn header_lines(b: Seq<u8>, breaks: Seq<int>, k: int, j: int) -> Seq<Seq<u8>>
    decreases breaks.len() - k,
{
    if k < 0 || k >= breaks.len() {
        Seq::empty()
    } else {
        let i = breaks[k];
        if i == j || i - (j + 2) < 1 {
            header_lines(b, breaks, k + 1, j)
        } else {
            seq![b.subrange(j + 2, i)] + header_lines(b, breaks, k + 1, i)
        }
    }
}

/// The header lines of a request.
pub open spec fn request_header_lines(b: Seq<u8>) -> Seq<Seq<u8>> {
    header_lines(b, line_breaks(b), 0, line_breaks(b)[0])
}

/// The request line: the bytes before the first CR LF.
pub open spec fn request_line_of(b: Seq<u8>) -> Seq<u8> {
    b.subrange(0, line_breaks(b)[0])
}

/// A request line has a method, a target and a version, separated by spaces.
pub open spec fn request_line_ok(line: Seq<u8>) -> bool {
    let ps = split_seq(line, 32u8);
    &&& ps.len() >= 3
    &&& method_of(ps[0]) is Some
    &&& version_of(ps[2]) is Some
}

/// A header line has a `:`.
pub open spec fn has_colon(line: Seq<u8>) -> bool {
    split_seq(line, 58u8).len() >= 2
}

/// The text with one leading space removed, where it has one.
pub open spec fn drop_leading_space(v: Seq<char>) -> Seq<char> {
    if v.len() > 0 && v[0] == ' ' {
        v.drop_first()
    } else {
        v
    }
}

/// The key and the value of a header line: the text before the first `:` and
/// the text between it and the next `:` (or the end), less one leading space.
pub open spec fn header_entry(line: Seq<u8>) -> (Seq<char>, Seq<char>) {
    let ps = split_seq(line, 58u8);
    (utf8_lossy(ps[0]), drop_leading_space(utf8_lossy(ps[1])))
}

/// The headers of a request: each header line stored in order, a later key
/// replacing the value of an earlier one.
pub open spec fn headers_of(lines: Seq<Seq<u8>>) -> Seq<(Seq<char>, Seq<char>)> {
    inserted_all(lines.map_values(|l: Seq<u8>| header_entry(l)))
}

/// The path of a request target: the text before the first `?`, less a
/// trailing `/` unless the path is just `/`.
pub open spec fn url_of_target(raw: Seq<char>) -> Seq<char> {
    let t = split_seq(raw, '?')[0];
    if t.len() > 1 && t.last() == '/' {
        t.drop_last()
    } else {
        t
    }
}

/// The key and the value of a query parameter `key=value`; a parameter without
/// `=` has an empty value.
pub open spec fn param_entry(p: Seq<char>) -> (Seq<char>, Seq<char>) {
    let kv = split_seq(p, '=');
    (kv[0], if kv.len() > 1 { kv[1] } else { Seq::empty() })
}

/// The query parameters of a target: the `&`-separated parameters after the
/// first `?`, stored in order; no `?`, no parameter.
pub open spec fn query_entries(target: Seq<char>) -> Seq<(Seq<char>, Seq<char>)> {
    let parts = split_seq(target, '?');
    if parts.len() == 1 {
        Seq::empty()
    } else {
        inserted_all(split_seq(parts[1], '&').map_values(|p: Seq<char>| param_entry(p)))
    }
}

/// Whether the bytes can be read as a request: they hold a CR LF, the line
/// before it is a request line with a known method and version, and every
/// header line has a `:`.
pub open spec fn request_parses(b: Seq<u8>) -> bool {
    &&& line_breaks(b).len() > 0
    &&& request_line_ok(request_line_of(b))
    &&& forall|i: int|
        0 <= i < request_header_lines(b).len() ==> has_colon(
            #[trigger] request_header_lines(b)[i],
        )
}

/// Whether both texts of a header line, the key and the value, are valid
/// UTF-8.
pub open spec fn header_line_is_utf8(line: Seq<u8>) -> bool {
    let ps = split_seq(line, 58u8);
    valid_utf8(ps[0]) && valid_utf8(ps[1])
}

/// The key and the value of a header line whose texts are valid UTF-8: the
/// texts they encode, the value less one leading space.
pub open spec fn header_entry_utf8(line: Seq<u8>) -> (Seq<char>, Seq<char>) {
    let ps = split_seq(line, 58u8);
    (decode_utf8(ps[0]), drop_leading_space(decode_utf8(ps[1])))
}

/// What valid UTF-8 in the request gives: a target that is valid UTF-8 gives
/// the path of the text it encodes, and header lines that are all valid UTF-8
/// give the headers of the texts they encode.
pub open spec fn decodes_as_utf8(r: Request, b: Seq<u8>) -> bool {
    let target = split_seq(request_line_of(b), 32u8)[1];
    let lines = request_header_lines(b);
    &&& valid_utf8(target) ==> r.url@ == url_of_target(decode_utf8(target))
    &&& (forall|i: int| 0 <= i < lines.len() ==> header_line_is_utf8(#[trigger] lines[i]))
        ==> r.headers@ == inserted_all(lines.map_values(|l: Seq<u8>| header_entry_utf8(l)))
}

/// A header line `key: value`, with key and value valid UTF-8 and without
/// `:`, gives the key and the whole value: only the one space after the `:`
/// is dropped, and spaces inside the value are kept.
pub proof fn law_header_line_keeps_value(key: Seq<u8>, value: Seq<u8>)
    requires
        valid_utf8(key),
        valid_utf8(value),
        !key.contains(58u8),
        !value.contains(58u8),
    ensures
        ({
            let line = key + seq![58u8, 32u8] + value;
            &&& has_colon(line)
            &&& header_line_is_utf8(line)
            &&& header_entry_utf8(line) == (decode_utf8(key), decode_utf8(value))
        }),
{
    let line = key + seq![58u8, 32u8] + value;
    let w = seq![32u8] + value;
    assert(!w.contains(58u8)) by {
        if w.contains(58u8) {
            let k = choose|k: int| 0 <= k < w.len() && w[k] == 58u8;
            assert(value[k - 1] == 58u8);
        }
    }
    assert(line =~= key.push(58u8) + w);
    lemma_split_seq_append_piece(key, 58u8, w);
    lemma_split_seq_no_sep(key, 58u8);
    let ps = split_seq(line, 58u8);
    assert(ps =~= seq![key, w]);
    let sp = seq![32u8];
    assert((32u8 & 0x7Fu8) == 32u8) by (bit_vector);
    assert(valid_first_scalar(sp));
    assert(pop_first_scalar(sp) =~= Seq::<u8>::empty());
    assert(valid_utf8(Seq::<u8>::empty()));
    assert(valid_utf8(sp));
    vstd::utf8::valid_utf8_concat(sp, value);
    assert(valid_utf8(w));
    assert(valid_first_scalar(w));
    assert(pop_first_scalar(w) =~= value);
    assert(decode_first_scalar(w) == 32u32);
    assert(decode_utf8(w) == seq![32u32 as char] + decode_utf8(value));
    assert((32u32 as char) == ' ');
    assert(decode_utf8(w).drop_first() =~= decode_utf8(value));
}

/// A request received from a client.
#[derive(Debug)]
pub struct Request {
    pub headers: StringMap,
    pub queries: StringMap,
    pub method: Method,
    pub url: String,
    pub body: Vec<u8>,
    pub version: HttpVersion,
}

/// `r` is what the bytes `b` are read as.
pub open spec fn is_parse_of(r: Request, b: Seq<u8>) -> bool {
    let ps = split_seq(request_line_of(b), 32u8);
    let breaks = line_breaks(b);
    &&& method_of(ps[0]) == Some(r.method)
    &&& r.url@ == url_of_target(utf8_lossy(ps[1]))
    &&& version_of(ps[2]) == Some(r.version)
    &&& r.queries@ == query_entries(r.url@)
    &&& r.headers@ == headers_of(request_header_lines(b))
    &&& r.body@ == b.subrange(breaks.last() + 2, b.len() as int)
}

impl Default for Request {
    /// A `GET` of `/` over HTTP/1.1, without headers, queries or body.
    fn default() -> (r: Request)
        ensures
            r.headers@ == Seq::<(Seq<char>, Seq<char>)>::empty(),
            r.queries@ == Seq::<(Seq<char>, Seq<char>)>::empty(),
            r.method == Method::GET,
            r.url@ == "/"@,
            r.body@ == Seq::<u8>::empty(),
            r.version == HttpVersion::V1_1,
    {
        Request {
            headers: StringMap::new(),
            queries: StringMap::new(),
            method: Method::GET,
            url: "/".to_owned(),
            body: Vec::new(),
            version: HttpVersion::V1_1,
        }
    }
}

/// The CR LF positions of the bytes.
fn crlf_positions(buffer: &[u8]) -> (out: Vec<usize>)
    ensures
        out@.map_values(|x: usize| x as int) == line_breaks(buffer@),
{
    let mut out: Vec<usize> = Vec::new();
    if buffer.len() < 2 {
        assert(out@.map_values(|x: usize| x as int) =~= line_breaks(buffer@));
        return out;
    }
    let mut p: usize = 0;
    assert(out@.map_values(|x: usize| x as int) =~= crlf_positions_before(buffer@, 0));
    while p + 1 < buffer.len()
        invariant
            buffer.len() >= 2,
            p + 1 <= buffer.len(),
            out@.map_values(|x: usize| x as int) == crlf_positions_before(buffer@, p as int),
        decreases buffer.len() - p,
    {
        let ghost before = out@.map_values(|x: usize| x as int);
        if buffer[p] == 13u8 && buffer[p + 1] == 10u8 {
            out.push(p);
            assert(out@.map_values(|x: usize| x as int) =~= before.push(p as int));
        }
        p = p + 1;
    }
    out
}

impl Request {
    /// Reads a request from the bytes received. The bytes must be readable
    /// as a request (see [`Request::try_parse`], which says when they are not).
    pub fn parse(buffer: &[u8]) -> (r: Request)
        requires
            request_parses(buffer@),
        ensures
            is_parse_of(r, buffer@),
            decodes_as_utf8(r, buffer@),
            r.queries@ == Seq::<(Seq<char>, Seq<char>)>::empty(),
    {
        Self::try_parse(buffer).unwrap()
    }

    /// Reads a request from the bytes received, or `None` where they cannot be
    /// read as one: no CR LF, a request line without a known method, a target
    /// and a known version, or a header line without `:`.
    pub fn try_parse(buffer: &[u8]) -> (r: Option<Request>)
        ensures
            r is Some <==> request_parses(buffer@),
            r matches Some(req) ==> is_parse_of(req, buffer@) && decodes_as_utf8(req, buffer@)
                && req.queries@ == Seq::<
                (Seq<char>, Seq<char>),
            >::empty(),
    {
        let sections = crlf_positions(buffer);
        let ghost b = buffer@;
        let ghost breaks = line_breaks(b);
        proof {
            lemma_crlf_positions(b, b.len() - 1);
        }
        if sections.len() == 0 {
            return None;
        }
        assert(breaks[0] == sections@[0] as int);
        let mut j = sections[0];
        let line = &buffer[0..j];
        assert(line@ == request_line_of(b));
        if !Self::request_line_valid(line) {
            return None;
        }
        let (method, raw_url, version) = Self::parse_request_line(line);
        let url = Self::target_path(raw_url.as_str());
        let queries = Self::parse_query(url.as_str());
        proof {
            Self::law_target_has_no_query(raw_url@);
        }
        let mut headers = StringMap::new();
        let ghost all_lines = request_header_lines(b);
        let ghost mut done: Seq<Seq<u8>> = Seq::empty();
        let ghost mut jm: int = 0;
        let mut k: usize = 0;
        assert(done.map_values(|l: Seq<u8>| header_entry(l)) =~= Seq::<(Seq<char>, Seq<char>)>::empty());
        assert(all_lines =~= done + header_lines(b, breaks, 0, j as int));
        while k < sections.len()
            invariant
                b == buffer@,
                breaks == line_breaks(b),
                sections@.map_values(|x: usize| x as int) == breaks,
                breaks.len() > 0,
                forall|a: int| 0 <= a < breaks.len() ==> is_crlf_at(b, #[trigger] breaks[a]),
                forall|a: int, c: int|
                    0 <= a < c < breaks.len() ==> #[trigger] breaks[a] < #[trigger] breaks[c],
                0 <= jm < breaks.len(),
                breaks[jm] == j as int,
                jm < k || (jm == 0 && k == 0),
                k <= sections.len(),
                all_lines == request_header_lines(b),
                all_lines == done + header_lines(b, breaks, k as int, j as int),
                headers@ == headers_of(done),
                (forall|q: int| 0 <= q < done.len() ==> header_line_is_utf8(#[trigger] done[q]))
                    ==> headers@ == inserted_all(
                    done.map_values(|l: Seq<u8>| header_entry_utf8(l)),
                ),
                forall|q: int| 0 <= q < done.len() ==> has_colon(#[trigger] done[q]),
            decreases sections.len() - k,
        {
            let i = sections[k];
            assert(breaks[k as int] == i as int);
            if i == j {
                k = k + 1;
                continue ;
            }
            assert(breaks[jm] < breaks[k as int]);
            assert(is_crlf_at(b, j as int) && is_crlf_at(b, i as int));
            let line = &buffer[j + 2..i];
            if line.len() < 1 {
                k = k + 1;
                continue ;
            }
            assert(header_lines(b, breaks, k as int, j as int) == seq![line@] + header_lines(
                b,
                breaks,
                k + 1,
                i as int,
            ));
            assert(all_lines[done.len() as int] == line@);
            if !Self::header_line_valid(line) {
                return None;
            }
            let (key, value) = Self::parse_header_line(line);
            headers.insert(key, value);
            proof {
                let next = done.push(line@);
                assert(next.drop_last() =~= done);
                assert(next.map_values(|l: Seq<u8>| header_entry(l)).drop_last() =~= done.map_values(
                    |l: Seq<u8>| header_entry(l),
                ));
                assert(next.map_values(|l: Seq<u8>| header_entry_utf8(l)).drop_last()
                    =~= done.map_values(|l: Seq<u8>| header_entry_utf8(l)));
                if forall|q: int| 0 <= q < next.len() ==> header_line_is_utf8(#[trigger] next[q]) {
                    assert(header_line_is_utf8(next[done.len() as int]));
                    assert forall|q: int| 0 <= q < done.len() implies header_line_is_utf8(
                        #[trigger] done[q],
                    ) by {
                        assert(next[q] == done[q]);
                    }
                }
                assert(all_lines =~= next + header_lines(b, breaks, k + 1, i as int));
                done = next;
                jm = k as int;
            }
            j = i;
            k = k + 1;
        }
        assert(all_lines =~= done);
        let last = sections[sections.len() - 1];
        assert(breaks.last() == last as int);
        assert(is_crlf_at(b, breaks[breaks.len() - 1]));
        assert(breaks[breaks.len() - 1] == last as int);
        let n = buffer.len();
        assert(last as int + 1 < n);
        let body = vstd::slice::slice_to_vec(&buffer[last + 2..n]);
        Some(Request { headers, queries, method, url, body, version })
    }

    /// Whether a request line has a known method, a target and a known
    /// version.
    fn request_line_valid(line: &[u8]) -> (ok: bool)
        ensures
            ok == request_line_ok(line@),
    {
        let pieces = split_bytes(line, 32u8);
        if pieces.len() < 3 {
            return false;
        }
        assert(pieces.deep_view()[0] == pieces[0]@);
        assert(pieces.deep_view()[2] == pieces[2]@);
        Self::parse_method(pieces[0].as_slice()).is_ok() && Self::parse_version(
            pieces[2].as_slice(),
        ).is_ok()
    }

    /// Whether a header line has a `:`.
    fn header_line_valid(line: &[u8]) -> (ok: bool)
        ensures
            ok == has_colon(line@),
    {
        split_bytes(line, 58u8).len() >= 2
    }

    /// The method, the target and the version of a request line.
    pub fn parse_request_line(line: &[u8]) -> (r: (Method, String, HttpVersion))
        requires
            request_line_ok(line@),
        ensures
            method_of(split_seq(line@, 32u8)[0]) == Some(r.0),
            r.1@ == utf8_lossy(split_seq(line@, 32u8)[1]),
            valid_utf8(split_seq(line@, 32u8)[1]) ==> r.1@ == decode_utf8(
                split_seq(line@, 32u8)[1],
            ),
            version_of(split_seq(line@, 32u8)[2]) == Some(r.2),
    {
        let pieces = split_bytes(line, 32u8);
        assert(pieces.deep_view()[0] == pieces[0]@);
        assert(pieces.deep_view()[1] == pieces[1]@);
        assert(pieces.deep_view()[2] == pieces[2]@);
        let method = Self::parse_method(pieces[0].as_slice()).unwrap();
        let url = decode_lossy(pieces[1].as_slice());
        let version = Self::parse_version(pieces[2].as_slice()).unwrap();
        (method, url, version)
    }

    /// The key and the value of a header line.
    pub fn parse_header_line(line: &[u8]) -> (r: (String, String))
        requires
            has_colon(line@),
        ensures
            (r.0@, r.1@) == header_entry(line@),
            header_line_is_utf8(line@) ==> (r.0@, r.1@) == header_entry_utf8(line@),
    {
        let pieces = split_bytes(line, 58u8);
        assert(pieces.deep_view()[0] == pieces[0]@);
        assert(pieces.deep_view()[1] == pieces[1]@);
        let key = decode_lossy(pieces[0].as_slice());
        let mut value = decode_lossy(pieces[1].as_slice());
        let vc = chars_of(value.as_str());
        if vc.len() > 0 && vc[0] == ' ' {
            value = String::from_str(value.as_str().substring_char(1, vc.len()));
            assert(value@ =~= vc@.drop_first());
        }
        (key, value)
    }

    /// The path of a request target.
    fn target_path(raw: &str) -> (url: String)
        ensures
            url@ == url_of_target(raw@),
    {
        let pieces = split_str(raw, '?');
        proof {
            lemma_split_seq_nonempty(raw@, '?');
        }
        assert(pieces.deep_view()[0] == pieces[0]@);
        let first = pieces[0].as_str();
        let cs = chars_of(first);
        if cs.len() > 1 && cs[cs.len() - 1] == '/' {
            let url = String::from_str(first.substring_char(0, cs.len() - 1));
            assert(url@ =~= first@.drop_last());
            url
        } else {
            String::from_str(first)
        }
    }

    /// The path of a request target holds no `?`, so it has no query
    /// parameter: the queries of a parsed request are always empty.
    pub proof fn law_target_has_no_query(raw: Seq<char>)
        ensures
            query_entries(url_of_target(raw)) == Seq::<(Seq<char>, Seq<char>)>::empty(),
    {
        lemma_split_seq_nonempty(raw, '?');
        lemma_split_seq_pieces_lack_sep(raw, '?');
        let t = split_seq(raw, '?')[0];
        assert(!t.contains('?'));
        let u = url_of_target(raw);
        assert(!u.contains('?')) by {
            if u.contains('?') {
                let k = choose|k: int| 0 <= k < u.len() && u[k] == '?';
                assert(t[k] == '?');
            }
        }
        lemma_split_seq_no_sep(u, '?');
    }

    /// The query parameters of a request target.
    pub fn parse_query(request_target: &str) -> (query: StringMap)
        ensures
            query@ == query_entries(request_target@),
    {
        let path_and_query = split_str(request_target, '?');
        if path_and_query.len() == 1 {
            return StringMap::new();
        }
        proof {
            lemma_split_seq_nonempty(request_target@, '?');
        }
        assert(path_and_query.deep_view()[1] == path_and_query[1]@);
        let params = split_str(path_and_query[1].as_str(), '&');
        let ghost ps = params.deep_view();
        let ghost pairs = ps.map_values(|p: Seq<char>| param_entry(p));
        let mut query = StringMap::new();
        let mut i: usize = 0;
        assert(pairs.take(0) =~= Seq::<(Seq<char>, Seq<char>)>::empty());
        while i < params.len()
            invariant
                ps == params.deep_view(),
                pairs == ps.map_values(|p: Seq<char>| param_entry(p)),
                i <= params.len(),
                query@ == inserted_all(pairs.take(i as int)),
            decreases params.len() - i,
        {
            assert(ps[i as int] == params[i as int]@);
            let key_value = split_str(params[i].as_str(), '=');
            proof {
                lemma_split_seq_nonempty(params[i as int]@, '=');
            }
            assert(key_value.deep_view()[0] == key_value[0]@);
            let key = key_value[0].clone();
            let value = if key_value.len() > 1 {
                assert(key_value.deep_view()[1] == key_value[1]@);
                key_value[1].clone()
            } else {
                String::new()
            };
            query.insert(key, value);
            assert(pairs.take(i + 1).drop_last() =~= pairs.take(i as int));
            i = i + 1;
        }
        assert(pairs.take(params.len() as int) =~= pairs);
        query
    }

    /// Reads a method token.
    pub fn parse_method(chunk: &[u8]) -> (m: Result<Method, ()>)
        ensures
            match m {
                Ok(m) => method_of(chunk@) == Some(m),
                Err(_) => method_of(chunk@) is None,
            },
    {
        if bytes_eq(chunk, "GET".as_bytes()) {
            Ok(Method::GET)
        } else if bytes_eq(chunk, "POST".as_bytes()) {
            Ok(Method::POST)
        } else if bytes_eq(chunk, "PUT".as_bytes()) {
            Ok(Method::PUT)
        } else if bytes_eq(chunk, "DELETE".as_bytes()) {
            Ok(Method::DELETE)
        } else if bytes_eq(chunk, "OPTION".as_bytes()) {
            Ok(Method::OPTION)
        } else {
            Err(())
        }
    }

    /// Reads a version token.
    pub fn parse_version(chunk: &[u8]) -> (v: Result<HttpVersion, ()>)
        ensures
            match v {
                Ok(v) => version_of(chunk@) == Some(v),
                Err(_) => version_of(chunk@) is None,
            },
    {
        if bytes_eq(chunk, "HTTP/1.1".as_bytes()) {
            Ok(HttpVersion::V1_1)
        } else if bytes_eq(chunk, "HTTP/1".as_bytes()) {
            Ok(HttpVersion::V1)
        } else if bytes_eq(chunk, "HTTP/2".as_bytes()) {
            Ok(HttpVersion::V2)
        } else if bytes_eq(chunk, "HTTP/3".as_bytes()) {
            Ok(HttpVersion::V3)
        } else {
            Err(())
        }
    }

    /// Whether the path names a file: it ends with `.css`, `.ico`, `.png`,
    /// `.svg`, `.js` or `.html`.
    pub fn is_file(&self) -> (b: bool)
        ensures
            b == is_file_path(self.url@),
    {
        let u = self.url.as_str();
        text_ends_with(u, ".css") || text_ends_with(u, ".ico") || text_ends_with(u, ".png")
            || text_ends_with(u, ".svg") || text_ends_with(u, ".js") || text_ends_with(u, ".html")
    }
}

/// Whether a path names a file, by its extension.
pub open spec fn is_file_path(url: Seq<char>) -> bool {
    ||| ends_with(url, ".css"@)
    ||| ends_with(url, ".ico"@)
    ||| ends_with(url, ".png"@)
    ||| ends_with(url, ".svg"@)
    ||| ends_with(url, ".js"@)
    ||| ends_with(url, ".html"@)
}

} // verus!
