//! The request parser: from the text of a request to a structured request or
//! the status with which it is refused, and the status lines of responses.
use vstd::prelude::*;
use vstd::string::*;

use crate::text::{chars_of, same_text, split, split_by, views};

verus! {

broadcast use vstd::string::group_string_axioms;

/// The directory that requested paths are resolved against.
pub const DOC_ROOT: &'static str = "./html/";

/// The file served for a request of `/`.
pub const DEFAULT_INDEX: &'static str = "index.html";

/// The protocol version of every request this server accepts and every
/// response it writes.
pub const HTTP_PROTO_VERSION: &'static str = "HTTP/1.1";

/// The request methods that the parser recognises.
#[derive(Debug, PartialEq, Eq, Structural)]
pub enum HttpMethod {
    GET,
    POST,
    UPDATE,
    DELETE,
    CONNECT,
    TRACE,
    HEAD,
    OPTION,
}

/// The statuses that a response can carry.
#[derive(Debug, PartialEq, Eq, Structural)]
pub enum HttpStatusCode {
    Continue,
    HttpOk,
    BadRequest,
    Unauthorized,
    Forbidden,
    NotFound,
    InternalServerError,
    NotImplemented,
}

/// The numeric code of a status.
pub open spec fn status_code_of(s: HttpStatusCode) -> u16 {
    match s {
        HttpStatusCode::Continue => 100,
        HttpStatusCode::HttpOk => 200,
        HttpStatusCode::BadRequest => 400,
        HttpStatusCode::Unauthorized => 401,
        HttpStatusCode::Forbidden => 403,
        HttpStatusCode::NotFound => 404,
        HttpStatusCode::InternalServerError => 500,
        HttpStatusCode::NotImplemented => 501,
    }
}

/// The reason phrase of a status.
pub open spec fn status_reason_of(s: HttpStatusCode) -> Seq<char> {
    match s {
        HttpStatusCode::Continue => "Continue"@,
        HttpStatusCode::HttpOk => "OK"@,
        HttpStatusCode::BadRequest => "Bad request"@,
        HttpStatusCode::Unauthorized => "Unauthorized"@,
        HttpStatusCode::Forbidden => "Forbidden"@,
        HttpStatusCode::NotFound => "Not found"@,
        HttpStatusCode::InternalServerError => "Internal server error"@,
        HttpStatusCode::NotImplemented => "Not implemented"@,
    }
}

impl HttpStatusCode {
    /// The numeric code and the reason phrase of this status.
    pub fn value(&self) -> (r: (u16, &str))
        ensures
            r.0 == status_code_of(*self),
            r.1@ == status_reason_of(*self),
            100 <= r.0 <= 999,
    {
        match self {
            HttpStatusCode::Continue => (100, "Continue"),
            HttpStatusCode::HttpOk => (200, "OK"),
            HttpStatusCode::BadRequest => (400, "Bad request"),
            HttpStatusCode::Unauthorized => (401, "Unauthorized"),
            HttpStatusCode::Forbidden => (403, "Forbidden"),
            HttpStatusCode::NotFound => (404, "Not found"),
            HttpStatusCode::InternalServerError => (500, "Internal server error"),
            HttpStatusCode::NotImplemented => (501, "Not implemented"),
        }
    }
}

/// Whether a line holds a NUL character: the unused tail of a read buffer.
/// Trimming a line removes whitespace only, so a trimmed line holds a NUL
/// exactly when the line does.
pub open spec fn has_nul(line: Seq<char>) -> bool {
    line.contains('\0')
}

/// The lines that hold no NUL character, in order.
pub open spec fn kept_lines(lines: Seq<Seq<char>>) -> Seq<Seq<char>>
    decreases lines.len(),
{
    if lines.len() == 0 {
        seq![]
    } else if has_nul(lines.last()) {
        kept_lines(lines.drop_last())
    } else {
        kept_lines(lines.drop_last()).push(lines.last())
    }
}

/// The lines of a request: its text split on CRLF, without the lines that
/// hold a NUL character.
pub open spec fn request_lines(req: Seq<char>) -> Seq<Seq<char>> {
    kept_lines(split(req, "\r\n"@))
}

/// The space-separated tokens of the request line (the first kept line), or
/// none where no line is left.
pub open spec fn request_tokens(req: Seq<char>) -> Seq<Seq<char>> {
    let lines = request_lines(req);
    if lines.len() == 0 {
        seq![]
    } else {
        split(lines[0], " "@)
    }
}

/// `p` is the position of the first space of `line`.
pub open spec fn first_space_at(line: Seq<char>, p: int) -> bool {
    &&& 0 <= p < line.len()
    &&& line[p] == ' '
    &&& forall|k: int| 0 <= k < p ==> line[k] != ' '
}

/// A line split at its first space into a name and a value; a line without
/// a space gives the pair ("none", "none").
pub open spec fn header_of(line: Seq<char>) -> (Seq<char>, Seq<char>) {
    if exists|p: int| first_space_at(line, p) {
        let p = choose|p: int| first_space_at(line, p);
        (line.subrange(0, p), line.subrange(p + 1, line.len() as int))
    } else {
        ("none"@, "none"@)
    }
}

/// The header pairs of a request: one for each of its lines, the request
/// line included.
pub open spec fn header_pairs(req: Seq<char>) -> Seq<(Seq<char>, Seq<char>)> {
    request_lines(req).map_values(|l: Seq<char>| header_of(l))
}

/// The mapping that a sequence of pairs builds when each pair is inserted in
/// turn: where a name repeats, the later pair gives its value.
pub open spec fn pairs_to_map(pairs: Seq<(Seq<char>, Seq<char>)>) -> Map<Seq<char>, Seq<char>>
    decreases pairs.len(),
{
    if pairs.len() == 0 {
        Map::empty()
    } else {
        pairs_to_map(pairs.drop_last()).insert(pairs.last().0, pairs.last().1)
    }
}

/// The header mapping of a request.
pub open spec fn headers_of(req: Seq<char>) -> Map<Seq<char>, Seq<char>> {
    pairs_to_map(header_pairs(req))
}

/// `v` holds each name of `m` once, with its value, and nothing else.
pub open spec fn represents(v: Seq<(String, String)>, m: Map<Seq<char>, Seq<char>>) -> bool {
    &&& forall|i: int, j: int|
        0 <= i < j < v.len() ==> #[trigger] v[i].0@ != #[trigger] v[j].0@
    &&& forall|i: int|
        0 <= i < v.len() ==> m.contains_key((#[trigger] v[i]).0@) && m[v[i].0@] == v[i].1@
    &&& forall|k: Seq<char>|
        #[trigger] m.contains_key(k) ==> exists|i: int| 0 <= i < v.len() && #[trigger] v[i].0@ == k
}

/// The character sequences of a sequence of string pairs.
pub open spec fn pair_views(v: Seq<(String, String)>) -> Seq<(Seq<char>, Seq<char>)> {
    v.map_values(|x: (String, String)| (x.0@, x.1@))
}

/// The method that a method token names, if any.
pub open spec fn method_of(tok: Seq<char>) -> Option<HttpMethod> {
    if tok == "GET"@ {
        Some(HttpMethod::GET)
    } else if tok == "POST"@ {
        Some(HttpMethod::POST)
    } else if tok == "UPDATE"@ {
        Some(HttpMethod::UPDATE)
    } else if tok == "DELETE"@ {
        Some(HttpMethod::DELETE)
    } else if tok == "CONNECT"@ {
        Some(HttpMethod::CONNECT)
    } else if tok == "TRACE"@ {
        Some(HttpMethod::TRACE)
    } else if tok == "HEAD"@ {
        Some(HttpMethod::HEAD)
    } else if tok == "OPTION"@ {
        Some(HttpMethod::OPTION)
    } else {
        None
    }
}

/// The path, relative to the document root, that a requested path names:
/// `/` stands for the default index, and a leading `/` is dropped.
pub open spec fn target_path(uri: Seq<char>) -> Seq<char> {
    let t = if uri == "/"@ {
        DEFAULT_INDEX@
    } else {
        uri
    };
    if t.len() > 1 && t[0] == '/' {
        t.subrange(1, t.len() as int)
    } else {
        t
    }
}

/// The file path, before canonicalisation, that a requested path names.
pub open spec fn file_of(uri: Seq<char>) -> Seq<char> {
    DOC_ROOT@ + target_path(uri)
}

/// Whether the canonical path `p` lies in the directory `root`: `root` is a
/// prefix of `p` that ends at a component boundary.
pub open spec fn within_root(p: Seq<char>, root: Seq<char>) -> bool {
    &&& root.len() <= p.len()
    &&& p.subrange(0, root.len() as int) == root
    &&& (root.len() == 0 || p.len() == root.len() || root.last() == '/' || p[root.len() as int] == '/')
}

/// The requested path together with the file it names.
#[derive(Debug)]
pub struct ReqURI {
    pub uri: String,
    pub file: String,
}

impl ReqURI {
    fn new(uri: String, file: String) -> (r: ReqURI)
        ensures
            r.uri == uri,
            r.file == file,
    {
        ReqURI { uri, file }
    }
}

/// A parsed request.
#[derive(Debug)]
pub struct HttpRequest {
    pub method: HttpMethod,
    pub req_uri: ReqURI,
    pub proto_ver: String,
    /// The header mapping: every line of the request split at its first
    /// space, each name once, with the value of its last line.
    pub req_headers: Option<Vec<(String, String)>>,
}

/// Whether `line` holds a NUL character.
fn holds_nul(line: &str) -> (r: bool)
    ensures
        r == has_nul(line@),
{
    let cs = chars_of(line);
    let mut i: usize = 0;
    while i < cs.len()
        invariant
            cs@ == line@,
            i <= cs@.len(),
            forall|k: int| 0 <= k < i ==> cs@[k] != '\0',
        decreases cs@.len() - i,
    {
        if cs[i] == '\0' {
            return true;
        }
        i = i + 1;
    }
    false
}

/// The lines that hold no NUL character.
fn keep_lines(lines: Vec<String>) -> (r: Vec<String>)
    ensures
        views(r@) == kept_lines(views(lines@)),
{
    let mut out: Vec<String> = Vec::new();
    let mut i: usize = 0;
    while i < lines.len()
        invariant
            i <= lines@.len(),
            views(out@) == kept_lines(views(lines@).subrange(0, i as int)),
        decreases lines@.len() - i,
    {
        let ghost pre = views(lines@).subrange(0, i + 1);
        assert(pre.drop_last() =~= views(lines@).subrange(0, i as int));
        assert(pre.last() == lines@[i as int]@);
        if !holds_nul(lines[i].as_str()) {
            let l = lines[i].clone();
            assert(views(out@.push(l)) =~= views(out@).push(l@));
            out.push(l);
        }
        i = i + 1;
    }
    assert(views(lines@).subrange(0, i as int) =~= views(lines@));
    out
}

/// A line split at its first space, or ("none", "none").
fn split_header(line: &str) -> (r: (String, String))
    ensures
        (r.0@, r.1@) == header_of(line@),
{
    let cs = chars_of(line);
    let n = cs.len();
    let mut p: usize = 0;
    while p < n
        invariant
            cs@ == line@,
            n == line@.len(),
            p <= n,
            forall|k: int| 0 <= k < p ==> line@[k] != ' ',
        decreases n - p,
    {
        if cs[p] == ' ' {
            proof {
                assert(first_space_at(line@, p as int));
                let q = choose|q: int| first_space_at(line@, q);
                assert(q == p) by {
                    if q < p {
                        assert(line@[q] != ' ');
                    } else if q > p {
                        assert(line@[p as int] != ' ');
                    }
                }
            }
            let k = line.substring_char(0, p).to_owned();
            let v = line.substring_char(p + 1, n).to_owned();
            return (k, v);
        }
        p = p + 1;
    }
    assert(!exists|q: int| first_space_at(line@, q));
    ("none".to_owned(), "none".to_owned())
}

/// The header pairs of each line.
fn split_headers(lines: &Vec<String>) -> (r: Vec<(String, String)>)
    ensures
        pair_views(r@) == views(lines@).map_values(|l: Seq<char>| header_of(l)),
{
    let mut out: Vec<(String, String)> = Vec::new();
    let mut i: usize = 0;
    while i < lines.len()
        invariant
            i <= lines@.len(),
            pair_views(out@) == views(lines@).subrange(0, i as int).map_values(
                |l: Seq<char>| header_of(l),
            ),
        decreases lines@.len() - i,
    {
        let h = split_header(lines[i].as_str());
        proof {
            assert(views(lines@).subrange(0, i + 1).map_values(|l: Seq<char>| header_of(l))
                =~= views(lines@).subrange(0, i as int).map_values(|l: Seq<char>| header_of(l)).push(
                (h.0@, h.1@),
            ));
            assert(pair_views(out@.push(h)) =~= pair_views(out@).push((h.0@, h.1@)));
        }
        out.push(h);
        i = i + 1;
    }
    assert(views(lines@).subrange(0, i as int) =~= views(lines@));
    out
}

/// Inserts `name` with `value` into the mapping that `v` represents: the
/// value of a name already present is replaced in place.
fn insert_header(
    v: &mut Vec<(String, String)>,
    name: String,
    value: String,
    Ghost(m): Ghost<Map<Seq<char>, Seq<char>>>,
)
    requires
        represents(old(v)@, m),
    ensures
        represents(final(v)@, m.insert(name@, value@)),
{
    let ghost n = name@;
    let ghost val = value@;
    let ghost m2 = m.insert(n, val);
    let mut j: usize = 0;
    while j < v.len()
        invariant
            represents(v@, m),
            m2 == m.insert(n, val),
            n == name@,
            val == value@,
            j <= v@.len(),
            forall|i: int| 0 <= i < j ==> v@[i].0@ != n,
        decreases v@.len() - j,
    {
        if v[j].0.eq(&name) {
            let ghost old_v = v@;
            v.remove(j);
            v.insert(j, (name, value));
            proof {
                assert(v@ =~= old_v.update(j as int, v@[j as int]));
                assert forall|a: int, b: int|
                    0 <= a < b < v@.len() implies #[trigger] v@[a].0@ != #[trigger] v@[b].0@ by {
                    assert(old_v[a].0@ != old_v[b].0@);
                }
                assert forall|a: int| 0 <= a < v@.len() implies m2.contains_key(
                    (#[trigger] v@[a]).0@,
                ) && m2[v@[a].0@] == v@[a].1@ by {
                    if a != j {
                        if a < j {
                            assert(old_v[a].0@ != old_v[j as int].0@);
                        } else {
                            assert(old_v[j as int].0@ != old_v[a].0@);
                        }
                    }
                }
                assert forall|k: Seq<char>| #[trigger] m2.contains_key(k) implies exists|a: int|
                    0 <= a < v@.len() && #[trigger] v@[a].0@ == k by {
                    if k == n {
                        assert(v@[j as int].0@ == k);
                    } else {
                        assert(m.contains_key(k));
                        let a = choose|a: int| 0 <= a < old_v.len() && #[trigger] old_v[a].0@ == k;
                        assert(v@[a].0@ == k);
                    }
                }
            }
            return;
        }
        j = j + 1;
    }
    let ghost old_v = v@;
    v.push((name, value));
    proof {
        assert forall|a: int, b: int|
            0 <= a < b < v@.len() implies #[trigger] v@[a].0@ != #[trigger] v@[b].0@ by {
            if b < old_v.len() {
                assert(old_v[a].0@ != old_v[b].0@);
            } else {
                assert(old_v[a].0@ != n);
            }
        }
        assert forall|a: int| 0 <= a < v@.len() implies m2.contains_key((#[trigger] v@[a]).0@)
            && m2[v@[a].0@] == v@[a].1@ by {
            if a < old_v.len() {
                assert(old_v[a] == v@[a]);
                assert(old_v[a].0@ != n);
            }
        }
        assert forall|k: Seq<char>| #[trigger] m2.contains_key(k) implies exists|a: int|
            0 <= a < v@.len() && #[trigger] v@[a].0@ == k by {
            if k == n {
                assert(v@[old_v.len() as int].0@ == k);
            } else {
                assert(m.contains_key(k));
                let a = choose|a: int| 0 <= a < old_v.len() && #[trigger] old_v[a].0@ == k;
                assert(v@[a].0@ == k);
            }
        }
    }
}

/// The mapping that `pairs` builds, each name once.
fn collect_headers(pairs: &Vec<(String, String)>) -> (r: Vec<(String, String)>)
    ensures
        represents(r@, pairs_to_map(pair_views(pairs@))),
{
    let mut out: Vec<(String, String)> = Vec::new();
    let mut i: usize = 0;
    assert(pair_views(pairs@).subrange(0, 0) =~= Seq::<(Seq<char>, Seq<char>)>::empty());
    while i < pairs.len()
        invariant
            i <= pairs@.len(),
            represents(out@, pairs_to_map(pair_views(pairs@).subrange(0, i as int))),
        decreases pairs@.len() - i,
    {
        let ghost pre = pair_views(pairs@).subrange(0, i + 1);
        assert(pre.drop_last() =~= pair_views(pairs@).subrange(0, i as int));
        let name = pairs[i].0.clone();
        let value = pairs[i].1.clone();
        insert_header(
            &mut out,
            name,
            value,
            Ghost(pairs_to_map(pair_views(pairs@).subrange(0, i as int))),
        );
        i = i + 1;
    }
    assert(pair_views(pairs@).subrange(0, i as int) =~= pair_views(pairs@));
    out
}

/// The relative path that a requested path names.
fn target_of(uri: &str) -> (r: String)
    ensures
        r@ == target_path(uri@),
{
    let t: String = if same_text(uri, "/") {
        DEFAULT_INDEX.to_owned()
    } else {
        uri.to_owned()
    };
    let n = t.as_str().unicode_len();
    if n > 1 && t.as_str().get_char(0) == '/' {
        t.as_str().substring_char(1, n).to_owned()
    } else {
        t
    }
}

impl HttpRequest {
    fn new(
        method: HttpMethod,
        uri: String,
        file: String,
        proto_ver: &str,
        req_headers: Option<Vec<(String, String)>>,
    ) -> (r: HttpRequest)
        ensures
            r.method == method,
            r.req_uri.uri == uri,
            r.req_uri.file == file,
            r.proto_ver@ == proto_ver@,
            r.req_headers == req_headers,
    {
        HttpRequest {
            method,
            req_uri: ReqURI::new(uri, file),
            proto_ver: proto_ver.to_owned(),
            req_headers,
        }
    }
}

/// `r` is the GET request for the path `uri`, read from the request text `req`.
pub open spec fn is_get_request(r: HttpRequest, uri: Seq<char>, req: Seq<char>) -> bool {
    &&& r.method == HttpMethod::GET
    &&& r.req_uri.uri@ == uri
    &&& r.req_uri.file@ == file_of(uri)
    &&& r.proto_ver@ == HTTP_PROTO_VERSION@
    &&& r.req_headers is Some
    &&& represents(r.req_headers->0@, headers_of(req))
}

/// Whether the canonical path `path` lies in the directory `root`.
fn is_within(path: &str, root: &str) -> (r: bool)
    ensures
        r == within_root(path@, root@),
{
    let pc = chars_of(path);
    let rc = chars_of(root);
    let n = rc.len();
    if n > pc.len() {
        return false;
    }
    let mut i: usize = 0;
    while i < n
        invariant
            pc@ == path@,
            rc@ == root@,
            n == root@.len(),
            n <= path@.len(),
            i <= n,
            forall|k: int| 0 <= k < i ==> path@[k] == root@[k],
        decreases n - i,
    {
        if pc[i] != rc[i] {
            assert(path@.subrange(0, n as int)[i as int] != root@[i as int]);
            return false;
        }
        i = i + 1;
    }
    assert(path@.subrange(0, n as int) =~= root@);
    n == 0 || pc.len() == n || rc[n - 1] == '/' || pc[n] == '/'
}

impl HttpRequest {
    /// Parses the text of a request. The request line must hold at least
    /// three space-separated tokens, the first naming a method; only GET is
    /// served, the other methods are refused as not implemented. A GET
    /// request names the file of its path under the document root, not yet
    /// canonicalised: see `resolve`.
    pub fn parse(request: &str) -> (r: Result<HttpRequest, HttpStatusCode>)
        ensures
            request_tokens(request@).len() < 3 ==> r == Err::<HttpRequest, HttpStatusCode>(
                HttpStatusCode::BadRequest,
            ),
            request_tokens(request@).len() >= 3 ==> match method_of(request_tokens(request@)[0]) {
                None => r == Err::<HttpRequest, HttpStatusCode>(HttpStatusCode::BadRequest),
                Some(HttpMethod::GET) => r is Ok && is_get_request(
                    r->Ok_0,
                    request_tokens(request@)[1],
                    request@,
                ),
                Some(_) => r == Err::<HttpRequest, HttpStatusCode>(HttpStatusCode::NotImplemented),
            },
    {
        proof {
            reveal_strlit("\r\n");
            reveal_strlit(" ");
        }
        let lines = keep_lines(split_by(request, "\r\n"));
        let req_headers = collect_headers(&split_headers(&lines));
        let req_vec: Vec<String> = if lines.len() == 0 {
            Vec::new()
        } else {
            split_by(lines[0].as_str(), " ")
        };
        proof {
            assert(views(req_vec@).len() == req_vec@.len());
        }
        if req_vec.len() < 3 {
            return Err(HttpStatusCode::BadRequest);
        }
        assert(req_vec@[0]@ == views(req_vec@)[0]);
        let m = req_vec[0].as_str();
        let result = if same_text(m, "GET") {
            HttpRequest::parse_get(&req_vec)
        } else if same_text(m, "POST") {
            HttpRequest::parse_post(&req_vec)
        } else if same_text(m, "UPDATE") {
            HttpRequest::parse_update(&req_vec)
        } else if same_text(m, "DELETE") {
            HttpRequest::parse_delete(&req_vec)
        } else if same_text(m, "CONNECT") {
            HttpRequest::parse_connect(&req_vec)
        } else if same_text(m, "TRACE") {
            HttpRequest::parse_trace(&req_vec)
        } else if same_text(m, "HEAD") {
            HttpRequest::parse_head(&req_vec)
        } else if same_text(m, "OPTION") {
            HttpRequest::parse_option(&req_vec)
        } else {
            Err(HttpStatusCode::BadRequest)
        };
        match result {
            Ok(hr) => Ok(
                HttpRequest::new(
                    hr.method,
                    hr.req_uri.uri,
                    hr.req_uri.file,
                    hr.proto_ver.as_str(),
                    Some(req_headers),
                ),
            ),
            Err(e) => Err(e),
        }
    }

    /// The GET request for the path in the second token.
    fn parse_get(req_vec: &Vec<String>) -> (r: Result<HttpRequest, HttpStatusCode>)
        requires
            req_vec@.len() >= 2,
        ensures
            r is Ok,
            r->Ok_0.method == HttpMethod::GET,
            r->Ok_0.req_uri.uri@ == req_vec@[1]@,
            r->Ok_0.req_uri.file@ == file_of(req_vec@[1]@),
            r->Ok_0.proto_ver@ == HTTP_PROTO_VERSION@,
            r->Ok_0.req_headers is None,
    {
        let uri = req_vec[1].clone();
        let rel = target_of(uri.as_str());
        let file = DOC_ROOT.to_owned().concat(rel.as_str());
        Ok(HttpRequest::new(HttpMethod::GET, uri, file, HTTP_PROTO_VERSION, None))
    }

    fn parse_post(_req_vec: &Vec<String>) -> (r: Result<HttpRequest, HttpStatusCode>)
        ensures
            r == Err::<HttpRequest, HttpStatusCode>(HttpStatusCode::NotImplemented),
    {
        Err(HttpStatusCode::NotImplemented)
    }

    fn parse_update(_req_vec: &Vec<String>) -> (r: Result<HttpRequest, HttpStatusCode>)
        ensures
            r == Err::<HttpRequest, HttpStatusCode>(HttpStatusCode::NotImplemented),
    {
        Err(HttpStatusCode::NotImplemented)
    }

    fn parse_delete(_req_vec: &Vec<String>) -> (r: Result<HttpRequest, HttpStatusCode>)
        ensures
            r == Err::<HttpRequest, HttpStatusCode>(HttpStatusCode::NotImplemented),
    {
        Err(HttpStatusCode::NotImplemented)
    }

    fn parse_connect(_req_vec: &Vec<String>) -> (r: Result<HttpRequest, HttpStatusCode>)
        ensures
            r == Err::<HttpRequest, HttpStatusCode>(HttpStatusCode::NotImplemented),
    {
        Err(HttpStatusCode::NotImplemented)
    }

    fn parse_trace(_req_vec: &Vec<String>) -> (r: Result<HttpRequest, HttpStatusCode>)
        ensures
            r == Err::<HttpRequest, HttpStatusCode>(HttpStatusCode::NotImplemented),
    {
        Err(HttpStatusCode::NotImplemented)
    }

    fn parse_head(_req_vec: &Vec<String>) -> (r: Result<HttpRequest, HttpStatusCode>)
        ensures
            r == Err::<HttpRequest, HttpStatusCode>(HttpStatusCode::NotImplemented),
    {
        Err(HttpStatusCode::NotImplemented)
    }

    fn parse_option(_req_vec: &Vec<String>) -> (r: Result<HttpRequest, HttpStatusCode>)
        ensures
            r == Err::<HttpRequest, HttpStatusCode>(HttpStatusCode::NotImplemented),
    {
        Err(HttpStatusCode::NotImplemented)
    }

    /// Completes a parsed request with the canonical form of its file path,
    /// `None` where that path does not exist, and checks it against the
    /// canonical document root: a missing file is `NotFound`, a path outside
    /// the root is `BadRequest`.
    pub fn resolve(self, canonical: Option<String>, canonical_root: &str) -> (r: Result<
        HttpRequest,
        HttpStatusCode,
    >)
        ensures
            canonical is None ==> r == Err::<HttpRequest, HttpStatusCode>(HttpStatusCode::NotFound),
            canonical is Some && !within_root(canonical->0@, canonical_root@) ==> r == Err::<
                HttpRequest,
                HttpStatusCode,
            >(HttpStatusCode::BadRequest),
            canonical is Some && within_root(canonical->0@, canonical_root@) ==> r is Ok
                && r->Ok_0.req_uri.file == canonical->0 && r->Ok_0.method == self.method
                && r->Ok_0.req_uri.uri == self.req_uri.uri && r->Ok_0.proto_ver == self.proto_ver
                && r->Ok_0.req_headers == self.req_headers,
    {
        match canonical {
            None => Err(HttpStatusCode::NotFound),
            Some(path) => {
                if !is_within(path.as_str(), canonical_root) {
                    return Err(HttpStatusCode::BadRequest);
                }
                Ok(
                    HttpRequest {
                        method: self.method,
                        req_uri: ReqURI::new(self.req_uri.uri, path),
                        proto_ver: self.proto_ver,
                        req_headers: self.req_headers,
                    },
                )
            },
        }
    }
}

/// The decimal digit of `d`, for `0 <= d <= 9`.
pub open spec fn digit_char(d: int) -> char {
    "0123456789"@[d]
}

/// The three decimal digits of a code from 100 to 999.
pub open spec fn code_text(n: u16) -> Seq<char> {
    seq![digit_char(n as int / 100), digit_char((n as int / 10) % 10), digit_char(n as int % 10)]
}

/// The status line of a response, with the blank line that ends the head.
pub open spec fn status_line_of(s: HttpStatusCode) -> Seq<char> {
    HTTP_PROTO_VERSION@ + " "@ + code_text(status_code_of(s)) + " "@ + status_reason_of(s)
        + "\r\n\r\n"@
}

/// A successful response carrying `body`.
pub open spec fn ok_response_of(body: Seq<char>) -> Seq<char> {
    status_line_of(HttpStatusCode::HttpOk) + body
}

/// The response to the outcome of a request: its body, or the status that
/// refused it.
pub open spec fn response_of(outcome: Result<Seq<char>, HttpStatusCode>) -> Seq<char> {
    match outcome {
        Ok(body) => ok_response_of(body),
        Err(e) => status_line_of(e),
    }
}

/// The decimal digit of `d`.
fn digit_text(d: u16) -> (r: &'static str)
    requires
        d <= 9,
    ensures
        r@ == seq![digit_char(d as int)],
{
    let digits = "0123456789";
    proof {
        reveal_strlit("0123456789");
    }
    let r = digits.substring_char(d as usize, d as usize + 1);
    assert(r@ =~= seq![digit_char(d as int)]);
    r
}

/// The status line of `status`, ending with the blank line of the head.
pub fn status_line(status: &HttpStatusCode) -> (r: String)
    ensures
        r@ == status_line_of(*status),
{
    let (code, reason) = status.value();
    let mut out = HTTP_PROTO_VERSION.to_owned();
    out.append(" ");
    out.append(digit_text(code / 100));
    out.append(digit_text((code / 10) % 10));
    out.append(digit_text(code % 10));
    out.append(" ");
    out.append(reason);
    out.append("\r\n\r\n");
    assert(out@ =~= status_line_of(*status));
    out
}

/// The successful response carrying `body`.
pub fn ok_response(body: &str) -> (r: String)
    ensures
        r@ == ok_response_of(body@),
{
    let mut out = status_line(&HttpStatusCode::HttpOk);
    out.append(body);
    out
}

/// The response to the outcome of a request.
pub fn response_for(outcome: &Result<String, HttpStatusCode>) -> (r: String)
    ensures
        r@ == response_of(
            match outcome {
                Ok(b) => Ok(b@),
                Err(e) => Err(*e),
            },
        ),
{
    match outcome {
        Ok(body) => ok_response(body.as_str()),
        Err(e) => status_line(e),
    }
}

/// A request for `/` names the same file as a request for the default index
/// file, so both resolve to the same canonical path.
pub proof fn lemma_root_is_default_index()
    ensures
        file_of("/"@) == file_of("/"@ + DEFAULT_INDEX@),
{
    reveal_strlit("/");
    reveal_strlit("index.html");
    let t = "/"@ + DEFAULT_INDEX@;
    assert(t.subrange(1, t.len() as int) =~= DEFAULT_INDEX@);
    assert(t != "/"@) by {
        assert(t.len() != "/"@.len());
    }
    assert(DEFAULT_INDEX@[0] != '/');
}

/// Two requests whose request lines differ only in that one asks for `/`
/// and the other for the default index file are parsed alike: both are
/// refused with the same status, or both are GET requests for the same file.
pub proof fn lemma_root_request_matches_index_request(a: Seq<char>, b: Seq<char>)
    requires
        request_tokens(a).len() >= 3,
        request_tokens(a)[1] == "/"@,
        request_tokens(b) == request_tokens(a).update(1, "/"@ + DEFAULT_INDEX@),
    ensures
        request_tokens(b).len() >= 3,
        method_of(request_tokens(a)[0]) == method_of(request_tokens(b)[0]),
        file_of(request_tokens(a)[1]) == file_of(request_tokens(b)[1]),
{
    lemma_root_is_default_index();
}

} // verus!
