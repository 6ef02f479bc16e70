use rust_server::http::{
    bad_request, fallback_page, get_users, hello, method_not_allowed, parse_request, post_user,
    route, serve_json, serve_page, static_page, users_json, Route,
};
use rust_server::json::{parse_json_math, parse_json_user, push_record};
use rust_server::math::{math_response, post_math, MathCall, MathOp};
use rust_server::pool::{JobQueue, WorkerStep};
use rust_server::store::{parse_user_query, Record, RecordStore, UserFilter};
use rust_server::text::{parse_i64_chars, parse_u8_chars, to_chars};

const BAD: &str = "HTTP/1.1 400 BAD REQUEST\r\nContent-Length: 0\r\n\r\n";
const CREATED: &str = "HTTP/1.1 201 CREATED\r\nContent-Length: 0\r\n\r\n";

fn json_reply(body: &str, len: usize) -> String {
    format!(
        "HTTP/1.1 200 OK\r\nContent-Type: application/json\r\nContent-Length: {}\r\n\r\n{}",
        len, body
    )
}

fn store_of(users: &[(&str, u8)]) -> RecordStore {
    let mut store = RecordStore::new();
    for (name, age) in users {
        let body = format!("{{\"name\":\"{}\",\"age\":{}}}", name, age);
        assert_eq!(post_user(&body, &mut store), CREATED);
    }
    store
}

#[test]
fn hello_is_exact_json() {
    let body = "{\"message\": \"Hello, world!\"}";
    assert_eq!(hello(), json_reply(body, 28));
    assert_eq!(body.len(), 28);
}

#[test]
fn math_division_by_zero_is_bad_request() {
    assert_eq!(post_math("{\"operator\":\"/\",\"arg1\":10,\"arg2\":0}"), None);
    assert_eq!(bad_request(), BAD);
}

#[test]
fn math_addition_answers_five() {
    let call = post_math("{\"operator\":\"+\",\"arg1\":2,\"arg2\":3}").unwrap();
    assert_eq!(call, MathCall { op: MathOp::Add, arg1: 2, arg2: 3 });
    let body = "{\"result\":5,\"expression\":\"2 + 3 = 5\"}";
    assert_eq!(math_response(&call, 5), json_reply(body, 37));
}

#[test]
fn math_negative_operands_and_division() {
    let call = post_math("{\"operator\":\"/\",\"arg1\":-7,\"arg2\":2}").unwrap();
    assert_eq!(call, MathCall { op: MathOp::Div, arg1: -7, arg2: 2 });
    let body = "{\"result\":-3,\"expression\":\"-7 / 2 = -3\"}";
    assert_eq!(math_response(&call, -3), json_reply(body, body.len()));
    let call = post_math("{\"operator\":\"*\",\"arg1\":-9223372036854775808,\"arg2\":1}").unwrap();
    assert_eq!(call.arg1, i64::MIN);
    assert_eq!(call.op, MathOp::Mul);
    let call = post_math("{\"operator\":\"-\",\"arg1\":\"4\",\"arg2\":+1}").unwrap();
    assert_eq!(call, MathCall { op: MathOp::Sub, arg1: 4, arg2: 1 });
}

#[test]
fn math_malformed_bodies_are_refused() {
    assert_eq!(post_math("{\"operator\":\"%\",\"arg1\":1,\"arg2\":2}"), None);
    assert_eq!(post_math("{\"operator\":\"+\",\"arg1\":1}"), None);
    assert_eq!(post_math("{\"operator\":\"+\",\"arg1\":x,\"arg2\":2}"), None);
    assert_eq!(post_math("\"operator\":\"+\",\"arg1\":1,\"arg2\":2"), None);
    assert_eq!(post_math("{\"arg1\":1,\"arg2\":2}"), None);
    assert_eq!(post_math("{\"operator\":\"+\",\"arg1\":9223372036854775808,\"arg2\":2}"), None);
    assert_eq!(post_math(""), None);
}

#[test]
fn parse_json_math_reads_fields() {
    assert_eq!(
        parse_json_math(" {\"operator\" : \"*\", \"arg1\": 6, \"arg2\": 7}\0\0"),
        Some(("*".to_string(), 6, 7))
    );
    assert_eq!(
        parse_json_math("{\"operator\":\"^\",\"arg1\":6,\"arg2\":7}"),
        Some(("^".to_string(), 6, 7))
    );
}

#[test]
fn codec_round_trip() {
    for (name, age) in [("alice", 30u8), (" spaced name ", 0), ("{x}", 255), ("é", 7)] {
        let mut out = Vec::new();
        push_record(&mut out, name, age);
        let text: String = out.iter().collect();
        assert_eq!(text, format!("{{\"name\":\"{}\",\"age\":{}}}", name, age));
        assert_eq!(parse_json_user(&text), Some((name.to_string(), age)));
    }
}

#[test]
fn parse_json_user_rules() {
    assert_eq!(parse_json_user("{\"name\":\"bob\",\"age\":25}"), Some(("bob".to_string(), 25)));
    assert_eq!(
        parse_json_user("\0 {\"age\":\"+25\", \"x\":1, \"name\": \"bob\" }\n\0\0"),
        Some(("bob".to_string(), 25))
    );
    assert_eq!(
        parse_json_user("{\"name\":\"a\",\"name\":\"b\",\"age\":1}"),
        Some(("b".to_string(), 1))
    );
    assert_eq!(
        parse_json_user("{\"name\":\"a:b\",\"age\":1}"),
        Some(("a:b".to_string(), 1))
    );
    assert_eq!(parse_json_user("{}"), None);
    assert_eq!(parse_json_user("{\"name\":\"bob\"}"), None);
    assert_eq!(parse_json_user("{\"name\":\"bob\",\"age\":\"old\"}"), None);
    assert_eq!(parse_json_user("{\"name\":\"bob\",\"age\":256}"), None);
    assert_eq!(parse_json_user("{\"name\":\"bob\",\"age\":-1}"), None);
    assert_eq!(parse_json_user("{\"name\":\"\",\"age\":1}"), None);
    assert_eq!(parse_json_user("{\"name\":\"bob\",\"age\":1,junk}"), None);
    assert_eq!(parse_json_user("[\"name\":\"bob\",\"age\":1]"), None);
    assert_eq!(parse_json_user("{\"name\":\"bob\",\"age\":1"), None);
}

#[test]
fn post_user_malformed_is_bad_request() {
    let mut store = RecordStore::new();
    for body in ["{\"name\":\"bob\"}", "{\"name\":\"bob\",\"age\":x}", "name:bob,age:1", ""] {
        assert_eq!(post_user(body, &mut store), BAD);
    }
    assert_eq!(store.len(), 0);
}

#[test]
fn created_user_is_listed_once_in_order() {
    let mut store = store_of(&[("alice", 30), ("bob", 25)]);
    assert_eq!(post_user("{\"name\":\"alicia\",\"age\":30}", &mut store), CREATED);
    assert_eq!(store.len(), 3);
    let body = "[{\"name\":\"alice\",\"age\":30},{\"name\":\"alicia\",\"age\":30}]";
    assert_eq!(get_users(&store, "age=30"), json_reply(body, 54));
    assert_eq!(get_users(&store, "name=ali&age=30"), json_reply(body, 54));
}

#[test]
fn listing_filters_compose() {
    let store = store_of(&[("alice", 30), ("bob", 25), ("Alicia", 25)]);
    let all = "[{\"name\":\"alice\",\"age\":30},{\"name\":\"bob\",\"age\":25},{\"name\":\"Alicia\",\"age\":25}]";
    assert_eq!(get_users(&store, ""), json_reply(all, all.len()));
    assert_eq!(
        get_users(&store, "name=ali"),
        json_reply("[{\"name\":\"alice\",\"age\":30}]", 27)
    );
    assert_eq!(
        get_users(&store, "age=25&name=bo"),
        json_reply("[{\"name\":\"bob\",\"age\":25}]", 25)
    );
    assert_eq!(get_users(&store, "name=zed"), json_reply("[]", 2));
    assert_eq!(get_users(&store, "name=alice&age=25"), json_reply("[]", 2));
    // an age that does not parse clears the age filter
    assert_eq!(get_users(&store, "age=25&age=old"), json_reply(all, all.len()));
}

#[test]
fn user_query_parsing() {
    let f = parse_user_query("name=al&age=7&other=1&noeq");
    assert_eq!(f.name, Some("al".to_string()));
    assert_eq!(f.age, Some(7));
    let f = parse_user_query("name=a=b");
    assert_eq!(f.name, Some("a".to_string()));
    assert_eq!(f.age, None);
    let f: UserFilter = parse_user_query("");
    assert_eq!(f.name, None);
}

#[test]
fn store_list_and_json() {
    let mut store = RecordStore::new();
    store.append(Record::new("x".to_string(), 1));
    store.append(Record::new("y".to_string(), 2));
    let listed = store.list(&UserFilter { name: None, age: Some(2) });
    assert_eq!(listed.len(), 1);
    assert_eq!(listed[0].name, "y");
    assert_eq!(users_json(&listed), "[{\"name\":\"y\",\"age\":2}]");
    assert_eq!(users_json(&Vec::new()), "[]");
}

#[test]
fn request_parsing() {
    let req = parse_request("POST /users?x=1 HTTP/1.1\r\nHost: a\r\n\r\n{\"name\":\"a\",\"age\":1}\0\0");
    assert_eq!(req.method, "POST");
    assert_eq!(req.path, "/users");
    assert_eq!(req.query, "x=1");
    assert_eq!(req.body, "{\"name\":\"a\",\"age\":1}\0\0");
    let req = parse_request("");
    assert_eq!((req.method.as_str(), req.path.as_str(), req.query.as_str()), ("GET", "/", ""));
    assert_eq!(req.body, "");
    let req = parse_request("  DELETE\t/a?b?c\nrest");
    assert_eq!((req.method.as_str(), req.path.as_str(), req.query.as_str()), ("DELETE", "/a", "b?c"));
    let req = parse_request("GET / HTTP/1.1\r\n\r\nfirst\r\n\r\nsecond");
    assert_eq!(req.body, "first");
}

#[test]
fn routing() {
    let r = |t: &str| route(&parse_request(t));
    assert_eq!(r("GET / HTTP/1.1\r\n"), Route::Root);
    assert_eq!(r("GET /users?name=a HTTP/1.1\r\n"), Route::ListUsers);
    assert_eq!(r("GET /error HTTP/1.1\r\n"), Route::Error);
    assert_eq!(r("GET /sleep HTTP/1.1\r\n"), Route::Sleep);
    assert_eq!(r("GET /api/hello HTTP/1.1\r\n"), Route::Hello);
    assert_eq!(r("POST /users HTTP/1.1\r\n"), Route::CreateUser);
    assert_eq!(r("POST /math HTTP/1.1\r\n"), Route::Math);
    assert_eq!(r("GET /nothing HTTP/1.1\r\n"), Route::NotFound);
    assert_eq!(r("POST / HTTP/1.1\r\n"), Route::NotFound);
    assert_eq!(r("PUT /users HTTP/1.1\r\n"), Route::MethodNotAllowed);
    assert_eq!(r(""), Route::Root);
    assert_eq!(method_not_allowed(), "HTTP/1.1 405 METHOD NOT ALLOWED\r\nContent-Length: 0\r\n\r\n");
}

#[test]
fn static_pages() {
    let p = static_page(Route::Root).unwrap();
    assert_eq!((p.file.as_str(), p.status), ("index.html", 200));
    let p = static_page(Route::Error).unwrap();
    assert_eq!((p.file.as_str(), p.status), ("non-existent file.html", 200));
    let p = static_page(Route::NotFound).unwrap();
    assert_eq!((p.file.as_str(), p.status), ("404.html", 404));
    assert!(static_page(Route::Hello).is_none());
    let p = fallback_page();
    assert_eq!((p.file.as_str(), p.status), ("500.html", 500));
    assert_eq!(
        serve_page(404, "<p>é</p>"),
        "HTTP/1.1 404 NOT FOUND\r\nContent-Type: text/html;\r\nContent-Length: 9\r\n\r\n<p>é</p>"
    );
    assert_eq!(
        serve_page(500, ""),
        "HTTP/1.1 500 INTERNAL SERVER ERROR\r\nContent-Type: text/html;\r\nContent-Length: 0\r\n\r\n"
    );
    assert_eq!(serve_json("€"), json_reply("€", 3));
}

#[test]
fn integer_parsing() {
    assert_eq!(parse_u8_chars(&to_chars("+7")), Some(7));
    assert_eq!(parse_u8_chars(&to_chars("007")), Some(7));
    assert_eq!(parse_u8_chars(&to_chars("255")), Some(255));
    assert_eq!(parse_u8_chars(&to_chars("256")), None);
    assert_eq!(parse_u8_chars(&to_chars("-1")), None);
    assert_eq!(parse_u8_chars(&to_chars("+")), None);
    assert_eq!(parse_u8_chars(&to_chars("")), None);
    assert_eq!(parse_i64_chars(&to_chars("-9223372036854775808")), Some(i64::MIN));
    assert_eq!(parse_i64_chars(&to_chars("9223372036854775807")), Some(i64::MAX));
    assert_eq!(parse_i64_chars(&to_chars("9223372036854775808")), None);
    assert_eq!(parse_i64_chars(&to_chars("-")), None);
    assert_eq!(parse_i64_chars(&to_chars("1 2")), None);
}

#[test]
fn pool_runs_at_most_size_jobs_in_order() {
    let mut q = JobQueue::new(2);
    assert_eq!(q.size(), 2);
    assert_eq!(q.next_for(0), WorkerStep::Wait);
    for job in 1..=3 {
        q.execute(job);
    }
    assert_eq!(q.next_for(0), WorkerStep::Run(1));
    assert_eq!(q.next_for(1), WorkerStep::Run(2));
    // both workers are busy: job 3 waits until one finishes
    q.finish(1);
    assert_eq!(q.next_for(1), WorkerStep::Run(3));
    q.finish(0);
    assert_eq!(q.next_for(0), WorkerStep::Wait);
}

#[test]
fn pool_stop_abandons_waiting_jobs() {
    let mut q = JobQueue::new(1);
    q.execute(10);
    q.execute(11);
    assert_eq!(q.next_for(0), WorkerStep::Run(10));
    q.stop();
    q.finish(0);
    assert_eq!(q.next_for(0), WorkerStep::Exit);
}
