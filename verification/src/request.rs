//! The request side of the wire codec: the closed set of HTTP methods, the
//! parsed `Request`, and the decoder that turns a raw byte buffer into one.
//!
//! Decoding interprets the buffer as text (invalid byte sequences are
//! replaced, never rejected), takes the first CRLF-terminated line as the
//! request line `METHOD path[?query] VERSION`, the following lines up to the
//! first empty line as `Key: Value` headers, and the rest as the body.
//! Query parameters and headers keep the last occurrence of a duplicate key.

use vstd::prelude::*;
use crate::strmap::{
    StrMap, Entries, map_insert, map_get, find_key_from, lemma_get_insert_same,
    lemma_get_insert_other, lemma_insert_wf, entries_wf,
};
use crate::strutil::{
    find_char_from, lemma_find_char_from, find_char, split_char_from, split_char, split_ws_from,
    split_ws, split_crlf_from, split_crlf, spec_trim, trim, join_nl_from, join_newline, str_eq,
    ws_free, char_free, lemma_ws_free_concat, lemma_find_char_first, lemma_find_char_none,
    lemma_split_ws_three, is_ws,
};

verus! {

/// The closed set of HTTP methods the decoder recognises.
#[derive(Clone, Copy, Debug, PartialEq, Eq, Hash, Structural)]
pub enum Method {
    GET,
    POST,
    PUT,
    DELETE,
    PATCH,
    OPTIONS,
    HEAD,
}

/// Why a byte buffer failed to decode into a `Request`.
#[derive(Clone, Copy, Debug, PartialEq, Eq, Structural)]
pub enum DecodeError {
    /// The request line is missing or does not have exactly three tokens.
    MalformedRequest,
    /// The method token is not in the closed method set.
    UnsupportedMethod,
}

/// The wire name of a method.
pub open spec fn method_name(m: Method) -> Seq<char> {
    match m {
        Method::GET => "GET"@,
        Method::POST => "POST"@,
        Method::PUT => "PUT"@,
        Method::DELETE => "DELETE"@,
        Method::PATCH => "PATCH"@,
        Method::OPTIONS => "OPTIONS"@,
        Method::HEAD => "HEAD"@,
    }
}

impl Method {
    /// The wire name of this method.
    pub fn as_str(&self) -> (r: &'static str)
        ensures
            r@ == method_name(*self),
    {
        match *self {
            Method::GET => "GET",
            Method::POST => "POST",
            Method::PUT => "PUT",
            Method::DELETE => "DELETE",
            Method::PATCH => "PATCH",
            Method::OPTIONS => "OPTIONS",
            Method::HEAD => "HEAD",
        }
    }
}

/// The method a token names: an exact, case-sensitive match against the
/// closed method set.
pub open spec fn spec_parse_method(tok: Seq<char>) -> Result<Method, DecodeError> {
    if tok == "GET"@ {
        Ok(Method::GET)
    } else if tok == "POST"@ {
        Ok(Method::POST)
    } else if tok == "PUT"@ {
        Ok(Method::PUT)
    } else if tok == "DELETE"@ {
        Ok(Method::DELETE)
    } else if tok == "PATCH"@ {
        Ok(Method::PATCH)
    } else if tok == "OPTIONS"@ {
        Ok(Method::OPTIONS)
    } else if tok == "HEAD"@ {
        Ok(Method::HEAD)
    } else {
        Err(DecodeError::UnsupportedMethod)
    }
}

/// The key/value pair a query fragment yields: the text around the first
/// `=`, or nothing when the fragment has no `=`.
pub open spec fn spec_query_pair(p: Seq<char>) -> Option<(Seq<char>, Seq<char>)> {
    match find_char_from(p, '=', 0) {
        None => None,
        Some(j) => if 0 <= j < p.len() {
            Some((p.subrange(0, j), p.subrange(j + 1, p.len() as int)))
        } else {
            None
        },
    }
}

/// The map built by inserting the pairs of `pieces[..i]` in order;
/// fragments without `=` are dropped, and a duplicate key keeps the last
/// value.
pub open spec fn spec_pairs_upto(pieces: Seq<Seq<char>>, i: int) -> Entries
    decreases i,
    when i <= pieces.len()
{
    if i <= 0 {
        seq![]
    } else {
        let prev = spec_pairs_upto(pieces, i - 1);
        match spec_query_pair(pieces[i - 1]) {
            None => prev,
            Some(kv) => map_insert(prev, kv.0, kv.1),
        }
    }
}

/// The query parameters encoded in the query string `q`: `&`-separated
/// fragments, each split on its first `=`.
pub open spec fn spec_parse_query(q: Seq<char>) -> Entries {
    let pieces = split_char_from(q, '&', 0);
    spec_pairs_upto(pieces, pieces.len() as int)
}

/// The path and query parameters encoded in a path-with-query token: the
/// path is everything before the first `?`, verbatim; the query string is
/// everything after it.
pub open spec fn spec_parse_path_query(pq: Seq<char>) -> (Seq<char>, Entries) {
    match find_char_from(pq, '?', 0) {
        None => (pq, seq![]),
        Some(j) => if 0 <= j < pq.len() {
            (pq.subrange(0, j), spec_parse_query(pq.subrange(j + 1, pq.len() as int)))
        } else {
            (pq, seq![])
        },
    }
}

/// The header entry a line yields: key and value around the first `:`,
/// both trimmed of surrounding whitespace, or nothing when the line has no
/// `:`.
pub open spec fn spec_header_line(line: Seq<char>) -> Option<(Seq<char>, Seq<char>)> {
    match find_char_from(line, ':', 0) {
        None => None,
        Some(j) => if 0 <= j < line.len() {
            Some((spec_trim(line.subrange(0, j)), spec_trim(line.subrange(j + 1, line.len() as int))))
        } else {
            None
        },
    }
}

/// The header map built from `lines[..i]` in order; lines without `:` are
/// dropped, and a duplicate key keeps the last value.
pub open spec fn spec_headers_upto(lines: Seq<Seq<char>>, i: int) -> Entries
    decreases i,
    when i <= lines.len()
{
    if i <= 0 {
        seq![]
    } else {
        let prev = spec_headers_upto(lines, i - 1);
        match spec_header_line(lines[i - 1]) {
            None => prev,
            Some(kv) => map_insert(prev, kv.0, kv.1),
        }
    }
}

/// Index of the first empty line at or after `i`, or the number of lines
/// when none is empty: the end of the header section.
pub open spec fn spec_header_end(lines: Seq<Seq<char>>, i: int) -> int
    decreases lines.len() - i,
    when 0 <= i
{
    if i >= lines.len() {
        lines.len() as int
    } else if lines[i].len() == 0 {
        i
    } else {
        spec_header_end(lines, i + 1)
    }
}

/// Bounds for `spec_header_end`.
pub proof fn lemma_spec_header_end(lines: Seq<Seq<char>>, i: int)
    requires
        0 <= i <= lines.len(),
    ensures
        i <= spec_header_end(lines, i) <= lines.len(),
        spec_header_end(lines, i) < lines.len() ==> lines[spec_header_end(lines, i)].len() == 0,
    decreases lines.len() - i,
{
    if i < lines.len() && lines[i].len() != 0 {
        lemma_spec_header_end(lines, i + 1);
    }
}

/// The value of the last line in `lines[..i]` whose header key is `k`, if
/// any line yields that key.
pub open spec fn last_header_value(lines: Seq<Seq<char>>, i: int, k: Seq<char>) -> Option<Seq<char>>
    decreases i,
    when i <= lines.len()
{
    if i <= 0 {
        None
    } else {
        match spec_header_line(lines[i - 1]) {
            Some(kv) => if kv.0 == k {
                Some(kv.1)
            } else {
                last_header_value(lines, i - 1, k)
            },
            None => last_header_value(lines, i - 1, k),
        }
    }
}

/// Among header lines that share a key, the last one in byte order wins:
/// looking the key up in the parsed header map yields the value of the
/// last line that carries it.
pub proof fn lemma_headers_last_wins(lines: Seq<Seq<char>>, i: int, k: Seq<char>)
    requires
        0 <= i <= lines.len(),
    ensures
        map_get(spec_headers_upto(lines, i), k) == last_header_value(lines, i, k),
    decreases i,
{
    if i > 0 {
        lemma_headers_last_wins(lines, i - 1, k);
        match spec_header_line(lines[i - 1]) {
            Some(kv) => {
                if kv.0 == k {
                    lemma_get_insert_same(spec_headers_upto(lines, i - 1), k, kv.1);
                } else {
                    lemma_get_insert_other(spec_headers_upto(lines, i - 1), kv.0, kv.1, k);
                }
            },
            None => {},
        }
    }
}

/// The value of the last fragment in `pieces[..i]` that yields the query
/// key `k`, if any fragment yields that key.
pub open spec fn last_query_value(pieces: Seq<Seq<char>>, i: int, k: Seq<char>) -> Option<Seq<char>>
    decreases i,
    when i <= pieces.len()
{
    if i <= 0 {
        None
    } else {
        match spec_query_pair(pieces[i - 1]) {
            Some(kv) => if kv.0 == k {
                Some(kv.1)
            } else {
                last_query_value(pieces, i - 1, k)
            },
            None => last_query_value(pieces, i - 1, k),
        }
    }
}

/// Among query fragments that share a key, the last one wins: looking the
/// key up in the parsed parameter map yields the value of the last
/// fragment that carries it.
pub proof fn lemma_query_last_wins(pieces: Seq<Seq<char>>, i: int, k: Seq<char>)
    requires
        0 <= i <= pieces.len(),
    ensures
        map_get(spec_pairs_upto(pieces, i), k) == last_query_value(pieces, i, k),
    decreases i,
{
    if i > 0 {
        lemma_query_last_wins(pieces, i - 1, k);
        match spec_query_pair(pieces[i - 1]) {
            Some(kv) => {
                if kv.0 == k {
                    lemma_get_insert_same(spec_pairs_upto(pieces, i - 1), k, kv.1);
                } else {
                    lemma_get_insert_other(spec_pairs_upto(pieces, i - 1), kv.0, kv.1, k);
                }
            },
            None => {},
        }
    }
}

/// A decoded header map never holds two entries with the same key.
pub proof fn lemma_headers_wf(lines: Seq<Seq<char>>, i: int)
    requires
        0 <= i <= lines.len(),
    ensures
        entries_wf(spec_headers_upto(lines, i)),
    decreases i,
{
    if i > 0 {
        lemma_headers_wf(lines, i - 1);
        match spec_header_line(lines[i - 1]) {
            Some(kv) => {
                lemma_insert_wf(spec_headers_upto(lines, i - 1), kv.0, kv.1);
            },
            None => {},
        }
    }
}

/// A decoded query-parameter map never holds two entries with the same
/// key.
pub proof fn lemma_query_params_wf(pieces: Seq<Seq<char>>, i: int)
    requires
        0 <= i <= pieces.len(),
    ensures
        entries_wf(spec_pairs_upto(pieces, i)),
    decreases i,
{
    if i > 0 {
        lemma_query_params_wf(pieces, i - 1);
        match spec_query_pair(pieces[i - 1]) {
            Some(kv) => {
                lemma_insert_wf(spec_pairs_upto(pieces, i - 1), kv.0, kv.1);
            },
            None => {},
        }
    }
}

/// Decoding depends on the received bytes alone: any two requests decoded
/// from the same bytes are equal.  `from_u8_buffer` ensures that every
/// request it returns satisfies the hypothesis, so re-decoding the same
/// buffer yields an equal request.
pub proof fn lemma_decode_idempotent(bytes: Seq<u8>, r1: ReqModel, r2: ReqModel)
    requires
        spec_decode_text(lossy_of(bytes)) == Ok::<ReqModel, DecodeError>(r1),
        spec_decode_text(lossy_of(bytes)) == Ok::<ReqModel, DecodeError>(r2),
    ensures
        r1 == r2,
{
}

/// Every method name is a nonempty, whitespace-free token.
pub proof fn lemma_method_name_token(m: Method)
    ensures
        method_name(m).len() > 0,
        ws_free(method_name(m)),
{
    reveal_strlit("GET");
    reveal_strlit("POST");
    reveal_strlit("PUT");
    reveal_strlit("DELETE");
    reveal_strlit("PATCH");
    reveal_strlit("OPTIONS");
    reveal_strlit("HEAD");
    assert forall|i: int| 0 <= i < method_name(m).len() implies !is_ws(method_name(m)[i]) by {
        let c = method_name(m)[i];
        assert(c == 'G' || c == 'E' || c == 'T' || c == 'P' || c == 'O' || c == 'S' || c == 'U'
            || c == 'D' || c == 'L' || c == 'A' || c == 'C' || c == 'H' || c == 'I' || c == 'N');
    }
}

/// Parsing a method's own wire name yields that method back.
pub proof fn lemma_parse_method_name(m: Method)
    ensures
        spec_parse_method(method_name(m)) == Ok::<Method, DecodeError>(m),
{
    reveal_strlit("GET");
    reveal_strlit("POST");
    reveal_strlit("PUT");
    reveal_strlit("DELETE");
    reveal_strlit("PATCH");
    reveal_strlit("OPTIONS");
    reveal_strlit("HEAD");
    assert("GET"@.len() == 3 && "POST"@.len() == 4 && "PUT"@.len() == 3 && "DELETE"@.len() == 6
        && "PATCH"@.len() == 5 && "OPTIONS"@.len() == 7 && "HEAD"@.len() == 4);
    assert("GET"@[0] == 'G' && "PUT"@[0] == 'P' && "POST"@[0] == 'P' && "HEAD"@[0] == 'H');
    match m {
        Method::GET => {},
        Method::POST => {},
        Method::PUT => {
            assert("PUT"@ != "GET"@) by {
                assert("PUT"@[0] != "GET"@[0]);
            }
        },
        Method::DELETE => {},
        Method::PATCH => {},
        Method::OPTIONS => {},
        Method::HEAD => {
            assert("HEAD"@ != "POST"@) by {
                assert("HEAD"@[0] != "POST"@[0]);
            }
        },
    }
}

/// Parsing a query string of exactly two `key=value` pairs with distinct
/// keys yields exactly those two bindings, in order.
pub proof fn lemma_parse_two_pair_query(
    k1: Seq<char>,
    v1: Seq<char>,
    k2: Seq<char>,
    v2: Seq<char>,
)
    requires
        char_free(k1, '&'),
        char_free(k1, '='),
        char_free(v1, '&'),
        char_free(k2, '&'),
        char_free(k2, '='),
        char_free(v2, '&'),
        k1 != k2,
    ensures
        spec_parse_query(k1 + "="@ + v1 + "&"@ + k2 + "="@ + v2) == seq![(k1, v1), (k2, v2)],
{
    reveal_strlit("=");
    reveal_strlit("&");
    assert("="@ =~= seq!['=']);
    assert("&"@ =~= seq!['&']);
    let q = k1 + "="@ + v1 + "&"@ + k2 + "="@ + v2;
    let a1 = k1.len() as int;
    let j1 = a1 + 1 + v1.len();
    let a2 = j1 + 1 + k2.len();
    let n = q.len() as int;
    assert(n == a2 + 1 + v2.len());
    assert(q.subrange(0, a1) =~= k1);
    assert(q[a1] == '=');
    assert(q.subrange(a1 + 1, j1) =~= v1);
    assert(q[j1] == '&');
    assert(q.subrange(j1 + 1, a2) =~= k2);
    assert(q[a2] == '=');
    assert(q.subrange(a2 + 1, n) =~= v2);
    assert forall|l: int| 0 <= l < j1 implies q[l] != '&' by {
        if l < a1 {
            assert(q[l] == q.subrange(0, a1)[l]);
        } else if l > a1 {
            assert(q[l] == q.subrange(a1 + 1, j1)[l - (a1 + 1)]);
        }
    }
    lemma_find_char_first(q, '&', 0, j1);
    assert forall|l: int| j1 + 1 <= l < n implies q[l] != '&' by {
        if l < a2 {
            assert(q[l] == q.subrange(j1 + 1, a2)[l - (j1 + 1)]);
        } else if l > a2 {
            assert(q[l] == q.subrange(a2 + 1, n)[l - (a2 + 1)]);
        }
    }
    lemma_find_char_none(q, '&', j1 + 1);
    let p1 = q.subrange(0, j1);
    let p2 = q.subrange(j1 + 1, n);
    let pieces = split_char_from(q, '&', 0);
    assert(split_char_from(q, '&', j1 + 1) == seq![p2]);
    assert(pieces =~= seq![p1, p2]);
    // first pair
    assert(p1[a1] == '=');
    assert forall|l: int| 0 <= l < a1 implies p1[l] != '=' by {
        assert(p1[l] == q.subrange(0, a1)[l]);
    }
    lemma_find_char_first(p1, '=', 0, a1);
    assert(p1.subrange(0, a1) =~= k1);
    assert(p1.subrange(a1 + 1, p1.len() as int) =~= v1);
    assert(spec_query_pair(p1) == Some((k1, v1)));
    // second pair
    let b2 = k2.len() as int;
    assert(p2[b2] == '=');
    assert forall|l: int| 0 <= l < b2 implies p2[l] != '=' by {
        assert(p2[l] == q.subrange(j1 + 1, a2)[l]);
    }
    lemma_find_char_first(p2, '=', 0, b2);
    assert(p2.subrange(0, b2) =~= k2);
    assert(p2.subrange(b2 + 1, p2.len() as int) =~= v2);
    assert(spec_query_pair(p2) == Some((k2, v2)));
    // fold the two inserts
    let e0 = spec_pairs_upto(pieces, 0);
    assert(e0 =~= Seq::<(Seq<char>, Seq<char>)>::empty());
    let e1 = spec_pairs_upto(pieces, 1);
    assert(e1 == map_insert(e0, k1, v1));
    assert(find_key_from(e0, k1, 0) is None);
    assert(e1 =~= seq![(k1, v1)]);
    let e2 = spec_pairs_upto(pieces, 2);
    assert(e2 == map_insert(e1, k2, v2));
    assert(find_key_from(e1, k2, 1) is None);
    assert(find_key_from(e1, k2, 0) is None);
    assert(e2 =~= seq![(k1, v1), (k2, v2)]);
    assert(pieces.len() == 2);
}

/// Decoding a well-formed request line `METHOD PATH?K1=V1&K2=V2 VERSION`
/// yields exactly that method, that path, the two query bindings, and that
/// version.  The path must be free of whitespace and `?`, the keys and
/// values free of whitespace, `&` and (for the keys) `=`, and the two keys
/// distinct.
pub proof fn lemma_decode_request_line(
    m: Method,
    path: Seq<char>,
    k1: Seq<char>,
    v1: Seq<char>,
    k2: Seq<char>,
    v2: Seq<char>,
    ver: Seq<char>,
)
    requires
        path.len() > 0,
        ws_free(path),
        char_free(path, '?'),
        ws_free(k1),
        char_free(k1, '&'),
        char_free(k1, '='),
        ws_free(v1),
        char_free(v1, '&'),
        ws_free(k2),
        char_free(k2, '&'),
        char_free(k2, '='),
        ws_free(v2),
        char_free(v2, '&'),
        k1 != k2,
        ver.len() > 0,
        ws_free(ver),
    ensures
        ({
            let pq = path + "?"@ + k1 + "="@ + v1 + "&"@ + k2 + "="@ + v2;
            let line = method_name(m) + " "@ + pq + " "@ + ver;
            spec_parse_request_line(line) == Ok::<(Method, Seq<char>, Entries, Seq<char>), DecodeError>(
                (m, path, seq![(k1, v1), (k2, v2)], ver),
            )
        }),
{
    lemma_method_name_token(m);
    lemma_parse_method_name(m);
    reveal_strlit("?");
    reveal_strlit("=");
    reveal_strlit("&");
    assert("?"@ =~= seq!['?']);
    assert("="@ =~= seq!['=']);
    assert("&"@ =~= seq!['&']);
    let mn = method_name(m);
    let q = k1 + "="@ + v1 + "&"@ + k2 + "="@ + v2;
    let pq = path + "?"@ + k1 + "="@ + v1 + "&"@ + k2 + "="@ + v2;
    let line = mn + " "@ + pq + " "@ + ver;
    assert(pq =~= path + "?"@ + q);
    // the middle token is whitespace-free and nonempty
    assert(ws_free("?"@));
    assert(ws_free("="@));
    assert(ws_free("&"@));
    lemma_ws_free_concat(path, "?"@);
    lemma_ws_free_concat(path + "?"@, k1);
    lemma_ws_free_concat(path + "?"@ + k1, "="@);
    lemma_ws_free_concat(path + "?"@ + k1 + "="@, v1);
    lemma_ws_free_concat(path + "?"@ + k1 + "="@ + v1, "&"@);
    lemma_ws_free_concat(path + "?"@ + k1 + "="@ + v1 + "&"@, k2);
    lemma_ws_free_concat(path + "?"@ + k1 + "="@ + v1 + "&"@ + k2, "="@);
    lemma_ws_free_concat(path + "?"@ + k1 + "="@ + v1 + "&"@ + k2 + "="@, v2);
    assert(ws_free(pq));
    assert(pq.len() > 0);
    lemma_split_ws_three(mn, pq, ver);
    let toks = split_ws_from(line, 0);
    assert(toks == seq![mn, pq, ver]);
    assert(toks.len() == 3);
    assert(toks[0] == mn);
    assert(toks[1] == pq);
    assert(toks[2] == ver);
    // the path ends at the first `?`
    let lp = path.len() as int;
    assert(pq.subrange(0, lp) =~= path);
    assert(pq[lp] == '?');
    assert(pq.subrange(lp + 1, pq.len() as int) =~= q);
    assert forall|l: int| 0 <= l < lp implies pq[l] != '?' by {
        assert(pq[l] == pq.subrange(0, lp)[l]);
    }
    lemma_find_char_first(pq, '?', 0, lp);
    lemma_parse_two_pair_query(k1, v1, k2, v2);
    assert(spec_parse_path_query(pq).0 == path);
    assert(spec_parse_path_query(pq).1 == seq![(k1, v1), (k2, v2)]);
}

/// The parsed request, as mathematical values.
pub ghost struct ReqModel {
    pub method: Method,
    pub path: Seq<char>,
    pub headers: Entries,
    pub body: Seq<char>,
    pub query_params: Entries,
    pub http_version: Seq<char>,
}

/// What a request line yields: exactly three whitespace-separated tokens
/// (otherwise the line is malformed), of which the first names a method in
/// the closed set (otherwise the method is unsupported), the second holds
/// path and query, and the third is the protocol version, kept verbatim.
pub open spec fn spec_parse_request_line(line: Seq<char>) -> Result<
    (Method, Seq<char>, Entries, Seq<char>),
    DecodeError,
> {
    let toks = split_ws_from(line, 0);
    if toks.len() != 3 {
        Err(DecodeError::MalformedRequest)
    } else {
        match spec_parse_method(toks[0]) {
            Err(e) => Err(e),
            Ok(m) => {
                let pq = spec_parse_path_query(toks[1]);
                Ok((m, pq.0, pq.1, toks[2]))
            },
        }
    }
}

/// What a request line plus the remaining lines yield: the lines up to the
/// first empty one are headers, those after it are the body, joined with a
/// newline separator.
pub open spec fn spec_from_parts(line: Seq<char>, rest: Seq<Seq<char>>) -> Result<
    ReqModel,
    DecodeError,
> {
    match spec_parse_request_line(line) {
        Err(e) => Err(e),
        Ok((m, path, query, version)) => {
            let he = spec_header_end(rest, 0);
            let headers = spec_headers_upto(rest, he);
            let body = if he < rest.len() {
                join_nl_from(rest, he + 1)
            } else {
                seq![]
            };
            Ok(
                ReqModel {
                    method: m,
                    path: path,
                    headers: headers,
                    body: body,
                    query_params: query,
                    http_version: version,
                },
            )
        },
    }
}

/// Decoding a whole well-formed request of the shape
/// `METHOD PATH?K1=V1&K2=V2 VERSION` followed by a single blank line
/// yields exactly that method, that path, the two query bindings, that
/// version, no headers, and an empty body.
pub proof fn lemma_decode_request(
    m: Method,
    path: Seq<char>,
    k1: Seq<char>,
    v1: Seq<char>,
    k2: Seq<char>,
    v2: Seq<char>,
    ver: Seq<char>,
)
    requires
        path.len() > 0,
        ws_free(path),
        char_free(path, '?'),
        ws_free(k1),
        char_free(k1, '&'),
        char_free(k1, '='),
        ws_free(v1),
        char_free(v1, '&'),
        ws_free(k2),
        char_free(k2, '&'),
        char_free(k2, '='),
        ws_free(v2),
        char_free(v2, '&'),
        k1 != k2,
        ver.len() > 0,
        ws_free(ver),
    ensures
        ({
            let pq = path + "?"@ + k1 + "="@ + v1 + "&"@ + k2 + "="@ + v2;
            let line = method_name(m) + " "@ + pq + " "@ + ver;
            spec_from_parts(line, seq![Seq::<char>::empty()]) == Ok::<ReqModel, DecodeError>(
                ReqModel {
                    method: m,
                    path: path,
                    headers: Seq::empty(),
                    body: Seq::empty(),
                    query_params: seq![(k1, v1), (k2, v2)],
                    http_version: ver,
                },
            )
        }),
{
    lemma_decode_request_line(m, path, k1, v1, k2, v2, ver);
    let rest: Seq<Seq<char>> = seq![Seq::<char>::empty()];
    assert(rest[0].len() == 0);
    assert(spec_header_end(rest, 0) == 0);
    assert(spec_headers_upto(rest, 0) =~= Seq::<(Seq<char>, Seq<char>)>::empty());
    assert(join_nl_from(rest, 1) =~= Seq::<char>::empty());
}

/// Every request the decoder yields keeps the data-model invariant: its
/// header map and its query-parameter map never hold two entries with the
/// same key.
pub proof fn lemma_decoded_request_wf(line: Seq<char>, rest: Seq<Seq<char>>)
    ensures
        spec_from_parts(line, rest) matches Ok(model) ==> entries_wf(model.headers) && entries_wf(
            model.query_params,
        ),
{
    if spec_from_parts(line, rest) is Ok {
        lemma_spec_header_end(rest, 0);
        lemma_headers_wf(rest, spec_header_end(rest, 0));
        let toks = split_ws_from(line, 0);
        let pq = toks[1];
        match find_char_from(pq, '?', 0) {
            None => {},
            Some(j) => {
                if 0 <= j < pq.len() {
                    let q = pq.subrange(j + 1, pq.len() as int);
                    let pieces = split_char_from(q, '&', 0);
                    lemma_query_params_wf(pieces, pieces.len() as int);
                }
            },
        }
    }
}

/// What a decoded text buffer yields: the text up to the first NUL byte
/// (the unwritten tail of a fixed-size read buffer), split on CRLF; the
/// first line is the request line and the rest are headers and body.
pub open spec fn spec_decode_text(s: Seq<char>) -> Result<ReqModel, DecodeError> {
    let t = match find_char_from(s, '\0', 0) {
        None => s,
        Some(j) => if 0 <= j <= s.len() {
            s.subrange(0, j)
        } else {
            s
        },
    };
    let parts = split_crlf_from(t, 0);
    spec_from_parts(parts[0], parts.drop_first())
}

/// A parsed HTTP request: method, path with the query string stripped,
/// headers and query parameters (case-sensitive keys, last occurrence
/// wins), body, and the protocol version token, kept verbatim.
pub struct Request {
    method: Method,
    path: String,
    headers: StrMap,
    body: String,
    query_params: StrMap,
    http_version: String,
}

impl View for Request {
    type V = ReqModel;

    closed spec fn view(&self) -> ReqModel {
        ReqModel {
            method: self.method,
            path: self.path@,
            headers: self.headers@,
            body: self.body@,
            query_params: self.query_params@,
            http_version: self.http_version@,
        }
    }
}

impl Request {
    /// The value of the header named `key`, if any.
    pub fn get_header<'a>(&'a self, key: String) -> (r: Option<&'a String>)
        ensures
            match r {
                Some(v) => map_get(self@.headers, key@) == Some(v@),
                None => map_get(self@.headers, key@) is None,
            },
    {
        self.headers.get(key.as_str())
    }

    /// The request's method.
    pub fn get_method(&self) -> (r: Method)
        ensures
            r == self@.method,
    {
        self.method
    }

    /// The request's path, with any query string stripped.
    pub fn get_path(&self) -> (r: String)
        ensures
            r@ == self@.path,
    {
        self.path.clone()
    }

    /// The request's body.
    pub fn get_body(&self) -> (r: String)
        ensures
            r@ == self@.body,
    {
        self.body.clone()
    }

    /// The value of the query parameter named `key`, if any.
    pub fn get_query_param<'a>(&'a self, key: &str) -> (r: Option<&'a String>)
        ensures
            match r {
                Some(v) => map_get(self@.query_params, key@) == Some(v@),
                None => map_get(self@.query_params, key@) is None,
            },
    {
        self.query_params.get(key)
    }

    /// The request's protocol version token.
    pub fn get_http_version(&self) -> (r: String)
        ensures
            r@ == self@.http_version,
    {
        self.http_version.clone()
    }
}

impl Request {
    /// Splits a path-with-query token at its first `?` and parses the query
    /// string that follows, if any.
    pub fn parse_path_and_query_params(path_with_query: &str) -> (r: Option<(String, StrMap)>)
        ensures
            r matches Some(pq) && pq.0@ == spec_parse_path_query(path_with_query@).0 && pq.1@
                == spec_parse_path_query(path_with_query@).1,
    {
        let n = path_with_query.unicode_len();
        proof {
            lemma_find_char_from(path_with_query@, '?', 0);
        }
        match find_char(path_with_query, '?', 0) {
            None => Some((path_with_query.to_owned(), StrMap::new())),
            Some(j) => {
                let path = path_with_query.substring_char(0, j).to_owned();
                let q = path_with_query.substring_char(j + 1, n);
                let pieces = split_char(q, '&');
                let m = pieces.len();
                let mut params = StrMap::new();
                let mut i: usize = 0;
                while i < m
                    invariant
                        i <= m,
                        m == pieces.deep_view().len(),
                        m == pieces@.len(),
                        pieces.deep_view() == split_char_from(q@, '&', 0),
                        params@ == spec_pairs_upto(pieces.deep_view(), i as int),
                    decreases m - i,
                {
                    let piece = pieces[i];
                    proof {
                        assert(pieces.deep_view()[i as int] == piece@);
                        lemma_find_char_from(piece@, '=', 0);
                    }
                    let pn = piece.unicode_len();
                    match find_char(piece, '=', 0) {
                        None => {},
                        Some(e) => {
                            let k = piece.substring_char(0, e).to_owned();
                            let v = piece.substring_char(e + 1, pn).to_owned();
                            params.insert(k, v);
                        },
                    }
                    i = i + 1;
                }
                Some((path, params))
            },
        }
    }

    /// Parses a method token, absent or present; anything outside the
    /// closed method set is unsupported.
    pub fn parse_method(method_str: Option<&str>) -> (r: Result<Method, DecodeError>)
        ensures
            match method_str {
                Some(s) => r == spec_parse_method(s@),
                None => r == Err::<Method, DecodeError>(DecodeError::UnsupportedMethod),
            },
    {
        match method_str {
            Some(s) => {
                if str_eq(s, "GET") {
                    Ok(Method::GET)
                } else if str_eq(s, "POST") {
                    Ok(Method::POST)
                } else if str_eq(s, "PUT") {
                    Ok(Method::PUT)
                } else if str_eq(s, "DELETE") {
                    Ok(Method::DELETE)
                } else if str_eq(s, "PATCH") {
                    Ok(Method::PATCH)
                } else if str_eq(s, "OPTIONS") {
                    Ok(Method::OPTIONS)
                } else if str_eq(s, "HEAD") {
                    Ok(Method::HEAD)
                } else {
                    Err(DecodeError::UnsupportedMethod)
                }
            },
            None => Err(DecodeError::UnsupportedMethod),
        }
    }

    /// Parses a request line into method, path, query parameters and
    /// protocol version.
    pub fn parse_request_line(request_line: &str) -> (r: Result<
        (Method, String, StrMap, String),
        DecodeError,
    >)
        ensures
            ({
                let s = spec_parse_request_line(request_line@);
                match r {
                    Ok(t) => s is Ok && t.0 == s->Ok_0.0 && t.1@ == s->Ok_0.1 && t.2@ == s->Ok_0.2
                        && t.3@ == s->Ok_0.3,
                    Err(e) => s == Err::<(Method, Seq<char>, Entries, Seq<char>), DecodeError>(e),
                }
            }),
    {
        let toks = split_ws(request_line);
        if toks.len() != 3 {
            return Err(DecodeError::MalformedRequest);
        }
        proof {
            assert(toks.deep_view()[0] == toks@[0]@);
            assert(toks.deep_view()[1] == toks@[1]@);
            assert(toks.deep_view()[2] == toks@[2]@);
        }
        let method = match Self::parse_method(Some(toks[0])) {
            Ok(m) => m,
            Err(e) => {
                return Err(e);
            },
        };
        match Self::parse_path_and_query_params(toks[1]) {
            Some((path, query_params)) => Ok((method, path, query_params, toks[2].to_owned())),
            None => Err(DecodeError::MalformedRequest),
        }
    }
}

/// What `String::from_utf8_lossy` yields on a byte sequence: a fixed
/// function of the bytes alone.
pub uninterp spec fn lossy_of(bytes: Seq<u8>) -> Seq<char>;

/// Relies on `String::from_utf8_lossy`: the decoded text depends on the
/// bytes alone, and a valid UTF-8 byte sequence decodes exactly, with
/// nothing replaced.
#[verifier::external_body]
fn lossy_decode(buffer: &[u8]) -> (r: String)
    ensures
        r@ == lossy_of(buffer@),
        vstd::utf8::valid_utf8(buffer@) ==> r@ == vstd::utf8::decode_utf8(buffer@),
{
    String::from_utf8_lossy(buffer).into_owned()
}

impl Request {
    /// Parses a request from its request line and the lines that follow:
    /// headers up to the first empty line, then the body.
    pub fn from_parts(request_line: &str, headers_and_body: &[&str]) -> (r: Result<
        Request,
        DecodeError,
    >)
        ensures
            ({
                let s = spec_from_parts(request_line@, headers_and_body.deep_view());
                match r {
                    Ok(req) => s is Ok && req@ == s->Ok_0,
                    Err(e) => s == Err::<ReqModel, DecodeError>(e),
                }
            }),
    {
        let (method, path, query_params, http_version) = match Self::parse_request_line(
            request_line,
        ) {
            Ok(t) => t,
            Err(e) => {
                return Err(e);
            },
        };
        let ghost lines = headers_and_body.deep_view();
        let n = headers_and_body.len();
        proof {
            assert(lines.len() == n);
            lemma_spec_header_end(lines, 0);
        }
        let mut he: usize = 0;
        while he < n && !headers_and_body[he].is_empty()
            invariant
                he <= n,
                n == lines.len(),
                lines == headers_and_body.deep_view(),
                spec_header_end(lines, 0) == spec_header_end(lines, he as int),
            decreases n - he,
        {
            proof {
                assert(lines[he as int] == headers_and_body@[he as int]@);
            }
            he = he + 1;
        }
        proof {
            assert(he < n ==> lines[he as int] == headers_and_body@[he as int]@);
            assert(he as int == spec_header_end(lines, 0));
        }
        let mut headers = StrMap::new();
        let mut i: usize = 0;
        while i < he
            invariant
                i <= he <= n,
                n == lines.len(),
                lines == headers_and_body.deep_view(),
                headers@ == spec_headers_upto(lines, i as int),
            decreases he - i,
        {
            let line = headers_and_body[i];
            proof {
                assert(lines[i as int] == line@);
                lemma_find_char_from(line@, ':', 0);
            }
            let ln = line.unicode_len();
            match find_char(line, ':', 0) {
                None => {},
                Some(j) => {
                    let k = trim(line.substring_char(0, j)).to_owned();
                    let v = trim(line.substring_char(j + 1, ln)).to_owned();
                    headers.insert(k, v);
                },
            }
            i = i + 1;
        }
        let body = if he < n {
            join_newline(headers_and_body, he + 1)
        } else {
            String::new()
        };
        let req = Request { method, path, headers, body, query_params, http_version };
        proof {
            let s = spec_from_parts(request_line@, lines);
            assert(req@ =~= s->Ok_0);
        }
        Ok(req)
    }

    /// Decodes a raw byte buffer read from a connection: the bytes are
    /// interpreted as text (invalid sequences replaced, never rejected),
    /// truncated at the first NUL, and split on CRLF into the request line
    /// and the lines that follow.
    pub fn from_u8_buffer(buffer: &[u8]) -> (r: Result<Request, DecodeError>)
        ensures
            ({
                let s = spec_decode_text(lossy_of(buffer@));
                match r {
                    Ok(req) => s is Ok && req@ == s->Ok_0,
                    Err(e) => s == Err::<ReqModel, DecodeError>(e),
                }
            }),
    {
        let text = lossy_decode(buffer);
        let text_str = text.as_str();
        let n = text_str.unicode_len();
        proof {
            lemma_find_char_from(text_str@, '\0', 0);
        }
        let truncated = match find_char(text_str, '\0', 0) {
            None => text_str,
            Some(j) => text_str.substring_char(0, j),
        };
        let parts = split_crlf(truncated);
        proof {
            assert(parts.deep_view().len() >= 1);
        }
        let rest = &parts.as_slice()[1..parts.len()];
        proof {
            assert(rest.deep_view() =~= parts.deep_view().drop_first());
        }
        Self::from_parts(parts[0], rest)
    }
}

} // verus!
