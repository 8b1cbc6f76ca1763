use sincere::app::{App, Context, Handler, Route};
use sincere::http::method::Method;
use sincere::http::multipart::FormData;
use sincere::http::request::Request;
use sincere::http::response::Response;
use sincere::http::wire::{is_complete, split_target, write_decimal};

#[test]
fn response_on_the_wire() {
    let mut response = Response::empty(404);
    response.header(("X-B", "2")).from_text("Not Found").unwrap().header(("X-A", "1")).header(("X-B", "3"));
    let bytes = response.encode("Thu, 1 Jan 1970 00:00:00 GMT", "Sincere");
    assert_eq!(
        String::from_utf8(bytes).unwrap(),
        "HTTP/1.1 404 Not Found\r\n\
         Date: Thu, 1 Jan 1970 00:00:00 GMT\r\n\
         Server: Sincere\r\n\
         X-B: 3\r\n\
         Content-Type: text/plain; charset=UTF-8\r\n\
         X-A: 1\r\n\
         Content-Length: 9\r\n\
         \r\n\
         Not Found"
    );
    let empty = Response::empty(299).encode("now", "s");
    assert_eq!(empty, b"HTTP/1.1 299 Unknown\r\nDate: now\r\nServer: s\r\nContent-Length: 0\r\n\r\n".to_vec());
}

#[test]
fn decimal_digits() {
    for (n, text) in [(0usize, "0"), (7, "7"), (10, "10"), (404, "404"), (65535, "65535"), (1000000, "1000000")] {
        let mut buf = b"n=".to_vec();
        write_decimal(&mut buf, n);
        assert_eq!(buf, format!("n={}", text).into_bytes());
    }
    let mut buf = Vec::new();
    write_decimal(&mut buf, usize::MAX);
    assert_eq!(buf, usize::MAX.to_string().into_bytes());
}

#[test]
fn target_is_split_at_the_first_question_mark() {
    assert_eq!(split_target("/a/b?x=1&y=2"), ("/a/b".to_string(), "x=1&y=2".to_string()));
    assert_eq!(split_target("/a/b"), ("/a/b".to_string(), "".to_string()));
    assert_eq!(split_target("/a?"), ("/a".to_string(), "".to_string()));
    assert_eq!(split_target("/a?b?c"), ("/a".to_string(), "b?c".to_string()));
    assert_eq!(split_target(""), ("".to_string(), "".to_string()));
    assert_eq!(split_target("/caf\u{e9}?q=\u{e9}"), ("/caf\u{e9}".to_string(), "q=\u{e9}".to_string()));
}

#[test]
fn request_is_complete_with_its_whole_body() {
    assert!(!is_complete(None, 0, 100));
    assert!(is_complete(Some(40), 0, 40));
    assert!(!is_complete(Some(40), 5, 44));
    assert!(is_complete(Some(40), 5, 45));
    assert!(is_complete(Some(40), 5, 50));
    assert!(!is_complete(Some(40), 0, 39));
}

#[test]
fn with_body_gives_the_empty_form_for_a_bad_body() {
    assert_eq!(FormData::with_body(b"garbage", "b"), FormData::new());
    let form = FormData::with_body(b"--b\r\nContent-Disposition: form-data; name=\"a\"\r\n\r\n1\r\n--b--", "b");
    assert_eq!(form.fields, vec![("a".to_string(), "1".to_string())]);
}

#[test]
fn lossy_text_and_media_type_come_from_their_crates() {
    let body = b"--b\r\nContent-Disposition: form-data; name=\"f\"; filename=\"x\"\r\nContent-Type: Text/Plain; Charset=UTF-8\r\n\r\ndata\r\n--b\r\nContent-Disposition: form-data; name=\"t\"\r\n\r\na\xffb\r\n--b--";
    let form = FormData::parse(body, "b").unwrap();
    assert_eq!(form.files[0].content_type, "text/plain; charset=utf-8");
    assert_eq!(form.fields, vec![("t".to_string(), "a\u{fffd}b".to_string())]);
    let bad = b"--b\r\nContent-Disposition: form-data; name=\"f\"; filename=\"x\"\r\nContent-Type: not a type\r\n\r\ndata\r\n--b--";
    assert_eq!(FormData::parse(bad, "b").unwrap().files[0].content_type, "application/octet-stream");
}

#[test]
fn content_type_is_read_whatever_its_case() {
    let request = Request::new(
        Method::Post,
        "/".to_string(),
        String::new(),
        vec![("CONTENT-TYPE".to_string(), "Multipart/Form-Data; boundary=b".to_string())],
        b"--b\r\nContent-Disposition: form-data; name=\"a\"\r\n\r\n1\r\n--b--".to_vec(),
    );
    let media = request.content_type().unwrap();
    assert_eq!((media.kind.as_str(), media.subtype.as_str()), ("multipart", "form-data"));
    assert_eq!(media.boundary.as_deref(), Some("b"));
    assert_eq!(request.post("a"), Some("1".to_string()));
}

struct Nothing;

impl Handler for Nothing {
    fn call(&self, _context: &mut Context<Nothing>) {}
}

struct Remember;

impl Handler for Remember {
    fn call(&self, context: &mut Context<Remember>) {
        let seen = context.contexts.get("seen").is_some();
        context.contexts.insert("seen", "yes");
        context.response.from_text(if seen { "again" } else { "first" }).unwrap();
    }
}

#[test]
fn route_compiles_its_pattern() {
    let route = Route::new(Method::Get, "/user/{id:[0-9]+}".to_string(), Nothing).unwrap();
    assert_eq!(route.expression(), Some("^/user/([0-9]+)$"));
    assert_eq!(route.path(), vec![("id".to_string(), 1)]);
    assert_eq!(route.pattern(), "/user/{id:[0-9]+}");
    assert_eq!(*route.method(), Method::Get);
    assert_eq!(route.matches("/user/7"), Some(vec![("id".to_string(), "7".to_string())]));
    assert_eq!(route.matches("/user/x"), None);
    let literal = Route::new(Method::Get, "/a.b/".to_string(), Nothing).unwrap();
    assert_eq!(literal.expression(), None);
    assert_eq!(literal.matches("/a.b"), Some(vec![]));
    assert_eq!(literal.matches("/aXb"), None);
    let braces = Route::new(Method::Get, "/a/{1}".to_string(), Nothing).unwrap();
    assert_eq!(braces.expression(), None);
    assert_eq!(braces.matches("/a/{1}"), Some(vec![]));
}

#[test]
fn a_group_that_took_no_part_binds_the_empty_text() {
    let route = Route::new(Method::Get, "/{a:(x)|(y)}".to_string(), Nothing).unwrap();
    assert_eq!(route.matches("/x"), Some(vec![("a".to_string(), "x".to_string())]));
    assert_eq!(route.matches("/y"), Some(vec![("a".to_string(), "".to_string())]));
}

#[test]
fn the_bag_passes_values_between_handlers() {
    let mut app = App::new();
    app.before(Remember);
    app.get("/", Remember).unwrap();
    let response = app.handle(Request::new(Method::Get, "/".to_string(), String::new(), Vec::new(), Vec::new()));
    assert_eq!(response.get_body(), b"again");
}
