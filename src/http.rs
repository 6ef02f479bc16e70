//! The request/response protocol layer: reading the request line and body out
//! of a raw request, routing on method and path, and framing responses.
use vstd::prelude::*;
use crate::text::{
    chars_eq, chars_to_string, dec, find_char, find_char_in, find_seq, find_seq_in, is_whitespace,
    is_ws, push_decimal, slice_chars, split_once, split_once_chars, to_chars, trim_left,
    utf8_len, utf8_len_of, CharClass,
};
use crate::json::{decode_user, encode_record, parse_json_user, push_record};
use crate::store::{
    filtered, parse_user_query, passes, passes_fn, records_view, user_query, Record, RecordStore,
};

verus! {

/// The number of leading characters of `s` that are not whitespace.
pub open spec fn find_ws(s: Seq<char>) -> nat
    decreases s.len(),
{
    if s.len() == 0 || is_ws(s[0]) {
        0
    } else {
        find_ws(s.drop_first()) + 1
    }
}

pub proof fn lemma_find_ws_bound(s: Seq<char>)
    ensures
        find_ws(s) <= s.len(),
    decreases s.len(),
{
    if s.len() > 0 && !is_ws(s[0]) {
        lemma_find_ws_bound(s.drop_first());
    }
}

/// The first line of a request, without its line ending.
pub open spec fn first_line(s: Seq<char>) -> Seq<char> {
    match find_char(s, '\n') {
        Some(i) => {
            let l = s.take(i as int);
            if l.len() > 0 && l.last() == '\r' {
                l.drop_last()
            } else {
                l
            }
        },
        None => s,
    }
}

/// The first whitespace-separated word of `s` (empty where there is none),
/// and what follows it.
pub open spec fn first_word(s: Seq<char>) -> (Seq<char>, Seq<char>) {
    let t = trim_left(s, CharClass::Space);
    (t.take(find_ws(t) as int), t.skip(find_ws(t) as int))
}

/// The method token of a request line; `GET` where there is none.
pub open spec fn line_method(line: Seq<char>) -> Seq<char> {
    let m = first_word(line).0;
    if m.len() > 0 {
        m
    } else {
        "GET"@
    }
}

/// The target token of a request line; `/` where there is none.
pub open spec fn line_target(line: Seq<char>) -> Seq<char> {
    let p = first_word(first_word(line).1).0;
    if p.len() > 0 {
        p
    } else {
        "/"@
    }
}

/// The part of a request between the first and the second blank line
/// (`\r\n\r\n`); empty where there is no blank line.
pub open spec fn request_body(s: Seq<char>) -> Seq<char> {
    let sep = seq!['\r', '\n', '\r', '\n'];
    match find_seq(s, sep) {
        Some(i) => {
            let rest = s.skip(i as int + 4);
            match find_seq(rest, sep) {
                Some(j) => rest.take(j as int),
                None => rest,
            }
        },
        None => Seq::<char>::empty(),
    }
}

/// Method, path, query string and body of the raw request `s`. The target is
/// cut at its first `?`; no percent-decoding is done.
pub open spec fn request_of(s: Seq<char>) -> (Seq<char>, Seq<char>, Seq<char>, Seq<char>) {
    let line = first_line(s);
    let target = line_target(line);
    let (path, query) = match split_once(target, '?') {
        Some((p, q)) => (p, q),
        None => (target, Seq::<char>::empty()),
    };
    (line_method(line), path, query, request_body(s))
}

/// A parsed request.
pub struct Request {
    pub method: String,
    pub path: String,
    pub query: String,
    pub body: String,
}

impl View for Request {
    type V = (Seq<char>, Seq<char>, Seq<char>, Seq<char>);

    open spec fn view(&self) -> (Seq<char>, Seq<char>, Seq<char>, Seq<char>) {
        (self.method@, self.path@, self.query@, self.body@)
    }
}

/// The first index at or after `from` whose character is not whitespace.
fn skip_ws(v: &Vec<char>, from: usize) -> (r: usize)
    requires
        from <= v@.len(),
    ensures
        from <= r <= v@.len(),
        v@.subrange(r as int, v@.len() as int) == trim_left(
            v@.subrange(from as int, v@.len() as int),
            CharClass::Space,
        ),
{
    let n = v.len();
    let mut i: usize = from;
    while i < n && is_whitespace(v[i])
        invariant
            from <= i <= n == v@.len(),
            trim_left(v@.subrange(from as int, n as int), CharClass::Space) == trim_left(
                v@.subrange(i as int, n as int),
                CharClass::Space,
            ),
        decreases n - i,
    {
        proof {
            assert(v@.subrange(i as int, n as int).drop_first() =~= v@.subrange(
                i + 1,
                n as int,
            ));
        }
        i = i + 1;
    }
    i
}

/// The first index at or after `from` whose character is whitespace, or the
/// length.
fn word_end(v: &Vec<char>, from: usize) -> (r: usize)
    requires
        from <= v@.len(),
    ensures
        r == from + find_ws(v@.subrange(from as int, v@.len() as int)),
        r <= v@.len(),
{
    let n = v.len();
    let mut i: usize = from;
    while i < n && !is_whitespace(v[i])
        invariant
            from <= i <= n == v@.len(),
            find_ws(v@.subrange(from as int, n as int)) == (i - from) + find_ws(
                v@.subrange(i as int, n as int),
            ),
        decreases n - i,
    {
        proof {
            assert(v@.subrange(i as int, n as int).drop_first() =~= v@.subrange(
                i + 1,
                n as int,
            ));
        }
        i = i + 1;
    }
    i
}

/// The first line of `chars`, without its line ending.
fn first_line_exec(chars: &Vec<char>) -> (r: Vec<char>)
    ensures
        r@ == first_line(chars@),
{
    match find_char_in(chars, '\n') {
        Some(i) => {
            let l = slice_chars(chars, 0, i);
            proof {
                assert(l@ =~= chars@.take(i as int));
            }
            if i > 0 && l[i - 1] == '\r' {
                let r = slice_chars(&l, 0, i - 1);
                proof {
                    assert(r@ =~= l@.drop_last());
                }
                r
            } else {
                l
            }
        },
        None => slice_chars(chars, 0, chars.len()),
    }
}

/// The first word of `line` from `from` on, as a range `(start, end)`.
fn word_at(line: &Vec<char>, from: usize) -> (r: (usize, usize))
    requires
        from <= line@.len(),
    ensures
        r.0 <= r.1 <= line@.len(),
        ({
            let w = first_word(line@.subrange(from as int, line@.len() as int));
            &&& line@.subrange(r.0 as int, r.1 as int) == w.0
            &&& line@.subrange(r.1 as int, line@.len() as int) == w.1
        }),
{
    let n = line.len();
    let a = skip_ws(line, from);
    let b = word_end(line, a);
    proof {
        let t = line@.subrange(a as int, n as int);
        lemma_find_ws_bound(t);
        assert(line@.subrange(a as int, b as int) =~= t.take(find_ws(t) as int));
        assert(line@.subrange(b as int, n as int) =~= t.skip(find_ws(t) as int));
    }
    (a, b)
}

/// Reads method, path, query string and body out of the raw request `text`.
pub fn parse_request(text: &str) -> (r: Request)
    ensures
        r@ == request_of(text@),
{
    let chars = to_chars(text);
    let line = first_line_exec(&chars);
    let (a, b) = word_at(&line, 0);
    let (c, d) = word_at(&line, b);
    proof {
        assert(line@.subrange(0, line@.len() as int) =~= line@);
    }
    let method = if a < b {
        chars_to_string(&slice_chars(&line, a, b))
    } else {
        String::from_str("GET")
    };
    let target = if c < d {
        slice_chars(&line, c, d)
    } else {
        to_chars("/")
    };
    let (path, query) = match split_once_chars(&target, '?') {
        Some((p, q)) => (chars_to_string(&p), chars_to_string(&q)),
        None => (chars_to_string(&target), String::new()),
    };
    let sep: Vec<char> = vec!['\r', '\n', '\r', '\n'];
    let n = chars.len();
    proof {
        assert(sep@.len() == 4);
    }
    let body = match find_seq_in(&chars, &sep) {
        Some(i) => {
            let rest = slice_chars(&chars, i + 4, n);
            proof {
                assert(rest@ =~= chars@.skip(i + 4));
            }
            match find_seq_in(&rest, &sep) {
                Some(j) => {
                    let b = slice_chars(&rest, 0, j);
                    proof {
                        assert(b@ =~= rest@.take(j as int));
                    }
                    chars_to_string(&b)
                },
                None => chars_to_string(&rest),
            }
        },
        None => String::new(),
    };
    proof {
        assert(sep@ =~= seq!['\r', '\n', '\r', '\n']);
    }
    Request { method, path, query, body }
}


/// The handler a request goes to.
#[derive(PartialEq, Eq, Structural, Clone, Copy, Debug)]
pub enum Route {
    Root,
    Sleep,
    Error,
    Hello,
    ListUsers,
    CreateUser,
    Math,
    NotFound,
    MethodNotAllowed,
}

/// The route for an exact method and path: a method other than `GET` and
/// `POST` is not allowed; an unmatched path is not found.
pub open spec fn route_of(method: Seq<char>, path: Seq<char>) -> Route {
    if method == "GET"@ {
        if path == "/"@ {
            Route::Root
        } else if path == "/users"@ {
            Route::ListUsers
        } else if path == "/error"@ {
            Route::Error
        } else if path == "/sleep"@ {
            Route::Sleep
        } else if path == "/api/hello"@ {
            Route::Hello
        } else {
            Route::NotFound
        }
    } else if method == "POST"@ {
        if path == "/users"@ {
            Route::CreateUser
        } else if path == "/math"@ {
            Route::Math
        } else {
            Route::NotFound
        }
    } else {
        Route::MethodNotAllowed
    }
}

fn str_is(v: &Vec<char>, lit: &str) -> (r: bool)
    ensures
        r == (v@ == lit@),
{
    chars_eq(v, &to_chars(lit))
}

/// The route of a parsed request.
pub fn route(req: &Request) -> (r: Route)
    ensures
        r == route_of(req.method@, req.path@),
{
    let m = to_chars(req.method.as_str());
    let p = to_chars(req.path.as_str());
    if str_is(&m, "GET") {
        if str_is(&p, "/") {
            Route::Root
        } else if str_is(&p, "/users") {
            Route::ListUsers
        } else if str_is(&p, "/error") {
            Route::Error
        } else if str_is(&p, "/sleep") {
            Route::Sleep
        } else if str_is(&p, "/api/hello") {
            Route::Hello
        } else {
            Route::NotFound
        }
    } else if str_is(&m, "POST") {
        if str_is(&p, "/users") {
            Route::CreateUser
        } else if str_is(&p, "/math") {
            Route::Math
        } else {
            Route::NotFound
        }
    } else {
        Route::MethodNotAllowed
    }
}

/// The seconds that the slow route waits before it answers.
pub const SLEEP_SECONDS: u64 = 5;

/// A static page to read from disk, with the status it is served under.
pub struct StaticPage {
    pub file: String,
    pub status: u16,
}

impl View for StaticPage {
    type V = (Seq<char>, u16);

    open spec fn view(&self) -> (Seq<char>, u16) {
        (self.file@, self.status)
    }
}

/// The static page that a route serves, if it serves one.
pub open spec fn page_of(route: Route) -> Option<(Seq<char>, u16)> {
    match route {
        Route::Root | Route::Sleep => Some(("index.html"@, 200)),
        Route::Error => Some(("non-existent file.html"@, 200)),
        Route::NotFound => Some(("404.html"@, 404)),
        _ => None,
    }
}

/// The static page that `route` serves, if it serves one.
pub fn static_page(route: Route) -> (r: Option<StaticPage>)
    ensures
        r matches Some(p) ==> page_of(route) == Some(p@),
        r is None ==> page_of(route) is None,
{
    match route {
        Route::Root | Route::Sleep => Some(
            StaticPage { file: String::from_str("index.html"), status: 200 },
        ),
        Route::Error => Some(StaticPage { file: String::from_str("non-existent file.html"), status: 200 }),
        Route::NotFound => Some(StaticPage { file: String::from_str("404.html"), status: 404 }),
        _ => None,
    }
}

/// The page served in place of a static page that could not be read.
pub fn fallback_page() -> (r: StaticPage)
    ensures
        r@ == ("500.html"@, 500u16),
{
    StaticPage { file: String::from_str("500.html"), status: 500 }
}

/// The reason phrase of a supported status code; empty for any other.
pub open spec fn reason_of(code: u16) -> Seq<char> {
    if code == 200 {
        "OK"@
    } else if code == 201 {
        "CREATED"@
    } else if code == 400 {
        "BAD REQUEST"@
    } else if code == 404 {
        "NOT FOUND"@
    } else if code == 405 {
        "METHOD NOT ALLOWED"@
    } else if code == 500 {
        "INTERNAL SERVER ERROR"@
    } else {
        ""@
    }
}

pub fn reason(code: u16) -> (r: &'static str)
    ensures
        r@ == reason_of(code),
{
    if code == 200 {
        "OK"
    } else if code == 201 {
        "CREATED"
    } else if code == 400 {
        "BAD REQUEST"
    } else if code == 404 {
        "NOT FOUND"
    } else if code == 405 {
        "METHOD NOT ALLOWED"
    } else if code == 500 {
        "INTERNAL SERVER ERROR"
    } else {
        ""
    }
}

/// Appends the decimal rendering of `n` to `s`.
fn append_decimal(s: &mut String, n: u128)
    ensures
        final(s)@ == old(s)@ + dec(n as nat),
{
    let mut digits: Vec<char> = Vec::new();
    push_decimal(&mut digits, n);
    proof {
        assert(digits@ =~= dec(n as nat));
    }
    s.append(chars_to_string(&digits).as_str());
}

/// A response with body `body`: status line, the given content type,
/// `Content-Length` equal to the body's UTF-8 byte count, a blank line, the body.
pub open spec fn page_response(code: u16, content_type: Seq<char>, body: Seq<char>) -> Seq<char> {
    "HTTP/1.1 "@ + dec(code as nat) + " "@ + reason_of(code) + "\r\nContent-Type: "@ + content_type
        + "\r\nContent-Length: "@ + dec(utf8_len(body)) + "\r\n\r\n"@ + body
}

/// A response with no body and no content type.
pub open spec fn empty_response(code: u16) -> Seq<char> {
    "HTTP/1.1 "@ + dec(code as nat) + " "@ + reason_of(code) + "\r\nContent-Length: 0\r\n\r\n"@
}

/// The JSON response with body `json`.
pub open spec fn json_response(json: Seq<char>) -> Seq<char> {
    page_response(200, "application/json"@, json)
}

fn page_response_exec(code: u16, content_type: &str, body: &str) -> (r: String)
    ensures
        r@ == page_response(code, content_type@, body@),
{
    let mut r = String::from_str("HTTP/1.1 ");
    append_decimal(&mut r, code as u128);
    r.append(" ");
    r.append(reason(code));
    r.append("\r\nContent-Type: ");
    r.append(content_type);
    r.append("\r\nContent-Length: ");
    let len = utf8_len_of(&to_chars(body));
    append_decimal(&mut r, len);
    r.append("\r\n\r\n");
    r.append(body);
    proof {
        assert(r@ =~= page_response(code, content_type@, body@));
    }
    r
}

/// A response with status `code` and no body.
pub fn empty_reply(code: u16) -> (r: String)
    ensures
        r@ == empty_response(code),
{
    let mut r = String::from_str("HTTP/1.1 ");
    append_decimal(&mut r, code as u128);
    r.append(" ");
    r.append(reason(code));
    r.append("\r\nContent-Length: 0\r\n\r\n");
    proof {
        assert(r@ =~= empty_response(code));
    }
    r
}

/// The 400 response: a malformed request, with an empty body.
pub fn bad_request() -> (r: String)
    ensures
        r@ == empty_response(400),
{
    empty_reply(400)
}

/// The 405 response, with an empty body.
pub fn method_not_allowed() -> (r: String)
    ensures
        r@ == empty_response(405),
{
    empty_reply(405)
}

/// A 200 response carrying `json` as `application/json`.
pub fn serve_json(json: &str) -> (r: String)
    ensures
        r@ == json_response(json@),
{
    page_response_exec(200, "application/json", json)
}

/// The response that serves the contents of a static page as HTML.
pub fn serve_page(status: u16, contents: &str) -> (r: String)
    ensures
        r@ == page_response(status, "text/html;"@, contents@),
{
    page_response_exec(status, "text/html;", contents)
}

/// The body of `GET /api/hello`.
pub open spec fn hello_body() -> Seq<char> {
    "{\"message\": \"Hello, world!\"}"@
}

/// The response to `GET /api/hello`.
pub fn hello() -> (r: String)
    ensures
        r@ == json_response(hello_body()),
{
    serve_json("{\"message\": \"Hello, world!\"}")
}

/// Records as the codec writes a list: `[`, the records joined by `,`, `]`.
pub open spec fn encode_list(rs: Seq<(Seq<char>, u8)>) -> Seq<char> {
    seq!['['] + join_records(rs) + seq![']']
}

pub open spec fn join_records(rs: Seq<(Seq<char>, u8)>) -> Seq<char>
    decreases rs.len(),
{
    if rs.len() == 0 {
        Seq::<char>::empty()
    } else if rs.len() == 1 {
        encode_record(rs[0].0, rs[0].1)
    } else {
        join_records(rs.drop_last()) + seq![','] + encode_record(rs.last().0, rs.last().1)
    }
}

/// The JSON array of `records`.
pub fn users_json(records: &Vec<Record>) -> (r: String)
    ensures
        r@ == encode_list(records_view(records@)),
{
    let mut out: Vec<char> = Vec::new();
    out.push('[');
    let mut i: usize = 0;
    while i < records.len()
        invariant
            i <= records@.len(),
            out@ == seq!['['] + join_records(records_view(records@.take(i as int))),
        decreases records@.len() - i,
    {
        let ghost pre = records_view(records@.take(i as int));
        let ghost cur = records_view(records@.take(i + 1));
        proof {
            assert(cur.drop_last() =~= pre);
            assert(cur.last() == records@[i as int]@);
            assert(i == 0 ==> cur[0] == records@[0]@);
        }
        if i > 0 {
            out.push(',');
        }
        push_record(&mut out, records[i].name.as_str(), records[i].age);
        i = i + 1;
        proof {
            assert(out@ =~= seq!['['] + join_records(cur));
        }
    }
    out.push(']');
    proof {
        assert(records@.take(i as int) =~= records@);
    }
    chars_to_string(&out)
}

/// Answers `GET /users?<query>`: the records of `store` that pass the
/// query's filters, as a JSON array in insertion order.
pub fn get_users(store: &RecordStore, query: &str) -> (r: String)
    ensures
        r@ == json_response(encode_list(filtered(store@, user_query(query@)))),
{
    let filter = parse_user_query(query);
    let listed = store.list(&filter);
    let json = users_json(&listed);
    serve_json(json.as_str())
}

/// Answers `POST /users` with `body`: a decodable user is appended to
/// `store` (201); anything else leaves it as it was (400).
pub fn post_user(body: &str, store: &mut RecordStore) -> (r: String)
    ensures
        decode_user(body@) matches Some(u) ==> final(store)@ == old(store)@.push(u) && r@
            == empty_response(201),
        decode_user(body@) is None ==> final(store)@ == old(store)@ && r@ == empty_response(400),
{
    match parse_json_user(body) {
        Some((name, age)) => {
            store.append(Record::new(name, age));
            empty_reply(201)
        },
        None => bad_request(),
    }
}


/// A created user is listed: after `POST /users` with a decodable body, a
/// listing whose filters the new record passes holds it exactly once more,
/// after all earlier matches, which keep their order.
pub proof fn lemma_created_user_listed(s: Seq<(Seq<char>, u8)>, body: Seq<char>, query: Seq<char>)
    requires
        decode_user(body) is Some,
        passes(user_query(query), decode_user(body)->Some_0),
    ensures
        filtered(s.push(decode_user(body)->Some_0), user_query(query)) == filtered(
            s,
            user_query(query),
        ).push(decode_user(body)->Some_0),
{
    s.lemma_filter_push(decode_user(body)->Some_0, passes_fn(user_query(query)));
}

} // verus!
