use sincere::app::{App, Context, Group, Handler};
use sincere::http::method::Method;
use sincere::http::request::Request;
use sincere::Error;

/// The handlers that the tests register.
enum Do {
    Hello,
    ShowId,
    Text(&'static str),
    Status(u16),
    RequireToken,
    Stop,
    Mark(&'static str),
    Knows(&'static str),
}

impl Handler for Do {
    fn call(&self, context: &mut Context<Do>) {
        match self {
            Do::Hello => {
                context.response.from_text("Hello world!").unwrap();
            }
            Do::ShowId => {
                let id = context.request.param("id").unwrap_or_default();
                context.response.from_text(&id).unwrap();
            }
            Do::Text(text) => {
                context.response.from_text(text).unwrap();
            }
            Do::Status(code) => {
                context.response.status_code(*code);
            }
            Do::RequireToken => {
                if context.request.header("Token").is_none() {
                    context.response.status_code(401);
                    context.stop();
                }
            }
            Do::Knows(path) => {
                let known = context.app.find_route(Method::Get, path).is_some();
                context.response.from_text(if known { "known" } else { "unknown" }).unwrap();
            }
            Do::Stop => {
                context.stop();
            }
            Do::Mark(name) => {
                let seen = match context.response.get_header("Trace") {
                    Some(s) => format!("{},{}", s, name),
                    None => name.to_string(),
                };
                context.response.header(("Trace", &seen));
            }
        }
    }
}

fn request(method: Method, path: &str) -> Request {
    Request::new(method, path.to_string(), String::new(), Vec::new(), Vec::new())
}

fn request_with(method: Method, path: &str, headers: &[(&str, &str)]) -> Request {
    let headers = headers.iter().map(|(k, v)| (k.to_string(), v.to_string())).collect();
    Request::new(method, path.to_string(), String::new(), headers, Vec::new())
}

#[test]
fn hello_world_and_not_found() {
    let mut app = App::new();
    app.get("/", Do::Hello).unwrap();

    let response = app.handle(request(Method::Get, "/"));
    assert_eq!(response.get_status_code(), 200);
    assert_eq!(response.get_body(), b"Hello world!");
    assert_eq!(
        response.get_header("Content-Type").map(|s| s.as_str()),
        Some("text/plain; charset=UTF-8")
    );

    let response = app.handle(request(Method::Get, "/x"));
    assert_eq!(response.get_status_code(), 404);
    assert_eq!(response.get_body(), b"Not Found");
}

#[test]
fn parameter_with_inline_expression() {
    let mut app = App::new();
    app.get("/user/{id:[0-9]+}", Do::ShowId).unwrap();

    let response = app.handle(request(Method::Get, "/user/42"));
    assert_eq!(response.get_status_code(), 200);
    assert_eq!(response.get_body(), b"42");

    let response = app.handle(request(Method::Get, "/user/abc"));
    assert_eq!(response.get_status_code(), 404);
}

#[test]
fn find_route_binds_the_declared_parameters() {
    let mut app = App::new();
    app.get("/{year:[0-9]{4}}/{title}", Do::Hello).unwrap();
    let (group, route, params) = app.find_route(Method::Get, "/2024/rust").unwrap();
    assert_eq!((group, route), (0, 0));
    assert_eq!(
        params,
        vec![("year".to_string(), "2024".to_string()), ("title".to_string(), "rust".to_string())]
    );
    assert!(app.find_route(Method::Get, "/20x4/rust").is_none());
    assert!(app.find_route(Method::Post, "/2024/rust").is_none());
}

#[test]
fn group_prefix() {
    let mut app = App::new();
    app.mount("/app", |group| {
        group.post("/x", Do::Text("in group")).unwrap();
    });

    let response = app.handle(request(Method::Post, "/app/x"));
    assert_eq!(response.get_status_code(), 200);
    assert_eq!(response.get_body(), b"in group");

    let response = app.handle(request(Method::Post, "/x"));
    assert_eq!(response.get_status_code(), 404);

    let response = app.handle(request(Method::Get, "/app/x"));
    assert_eq!(response.get_status_code(), 404);
}

#[test]
fn mounted_group_value() {
    let mut group = Group::new("/api");
    group.get("/ping", Do::Text("pong")).unwrap();
    let mut app = App::new();
    app.mount_group(group);
    let response = app.handle(request(Method::Get, "/api/ping/"));
    assert_eq!(response.get_body(), b"pong");
}

#[test]
fn before_stops_a_request_without_token() {
    let mut app = App::new();
    app.before(Do::RequireToken);
    app.get("/", Do::Hello).unwrap();

    let response = app.handle(request(Method::Get, "/"));
    assert_eq!(response.get_status_code(), 401);
    assert_eq!(response.get_body(), b"");

    let response = app.handle(request_with(Method::Get, "/", &[("token", "abc")]));
    assert_eq!(response.get_status_code(), 200);
    assert_eq!(response.get_body(), b"Hello world!");
}

#[test]
fn stages_run_in_order() {
    let mut app = App::new();
    app.begin(Do::Mark("begin"));
    app.before(Do::Mark("before"));
    app.after(Do::Mark("after"));
    app.finish(Do::Mark("finish"));
    app.mount("/g", |group| {
        group.before(Do::Mark("group-before"));
        group.after(Do::Mark("group-after"));
        group
            .get("/r", Do::Mark("handler"))
            .unwrap()
            .before(Do::Mark("route-before"))
            .after(Do::Mark("route-after"));
    });
    let response = app.handle(request(Method::Get, "/g/r"));
    assert_eq!(
        response.get_header("Trace").map(|s| s.as_str()),
        Some("begin,before,group-before,route-before,handler,route-after,group-after,after,finish")
    );
}

#[test]
fn stop_skips_what_is_guarded_but_not_begin_and_finish() {
    let mut app = App::new();
    app.begin(Do::Mark("begin"));
    app.before(Do::Mark("before-1"));
    app.before(Do::Stop);
    app.before(Do::Mark("before-2"));
    app.after(Do::Mark("after"));
    app.finish(Do::Mark("finish-1"));
    app.finish(Do::Mark("finish-2"));
    app.get("/", Do::Mark("handler")).unwrap().before(Do::Mark("route-before"));

    let response = app.handle(request(Method::Get, "/"));
    assert_eq!(
        response.get_header("Trace").map(|s| s.as_str()),
        Some("begin,before-1,finish-1,finish-2")
    );
}

#[test]
fn stop_in_begin_skips_routing_and_fallback() {
    let mut app = App::new();
    app.begin(Do::Stop);
    app.begin(Do::Mark("begin-2"));
    app.finish(Do::Mark("finish"));
    app.get("/", Do::Hello).unwrap();

    let response = app.handle(request(Method::Get, "/nowhere"));
    assert_eq!(response.get_status_code(), 200);
    assert_eq!(response.get_header("Trace").map(|s| s.as_str()), Some("begin-2,finish"));
}

#[test]
fn fallback_handler_replaces_the_default() {
    let mut app = App::new();
    app.not_found(Do::Status(410));
    app.get("/", Do::Hello).unwrap();
    let response = app.handle(request(Method::Get, "/gone"));
    assert_eq!(response.get_status_code(), 410);
}

#[test]
fn first_registration_wins() {
    let mut app = App::new();
    app.get("/{any}", Do::Text("first")).unwrap();
    app.get("/exact", Do::Text("second")).unwrap();
    let response = app.handle(request(Method::Get, "/exact"));
    assert_eq!(response.get_body(), b"first");
}

#[test]
fn literal_pattern_matches_itself_with_and_without_slash() {
    let mut app = App::new();
    app.get("/foo", Do::Hello).unwrap();
    assert!(app.find_route(Method::Get, "/foo").is_some());
    assert_eq!(app.handle(request(Method::Get, "/foo/")).get_status_code(), 200);
    assert_eq!(app.handle(request(Method::Get, "/foo")).get_status_code(), 200);
    assert_eq!(app.handle(request(Method::Get, "/foo//")).get_status_code(), 404);
    assert_eq!(app.handle(request(Method::Get, "/foo/bar")).get_status_code(), 404);
    assert_eq!(app.handle(request(Method::Get, "/fo")).get_status_code(), 404);
}

#[test]
fn registration_refuses_bad_patterns() {
    let mut app = App::new();
    assert!(matches!(app.get("/{id}\u{e9}", Do::Hello), Err(Error::PatternNotAscii)));
    assert!(matches!(app.get("/(a|b)\u{e9}", Do::Hello), Err(Error::PatternNotAscii)));
    assert!(matches!(app.get("/{id:[0-9}", Do::Hello), Err(Error::Regex(_))));
    assert!(app.find_route(Method::Get, "/x").is_none());
    assert_eq!(app.handle(request(Method::Get, "/7\u{e9}")).get_status_code(), 404);
}

#[test]
fn a_plain_pattern_may_hold_any_character() {
    let mut app = App::new();
    app.get("/caf\u{e9}", Do::Hello).unwrap();
    let (group, route, params) = app.find_route(Method::Get, "/caf\u{e9}").unwrap();
    assert_eq!((group, route), (0, 0));
    assert!(params.is_empty());
    assert_eq!(app.handle(request(Method::Get, "/caf\u{e9}")).get_status_code(), 200);
    assert_eq!(app.handle(request(Method::Get, "/caf\u{e9}/")).get_status_code(), 200);
    assert_eq!(app.handle(request(Method::Get, "/caf\u{e9}//")).get_status_code(), 404);
    assert_eq!(app.handle(request(Method::Get, "/cafe")).get_status_code(), 404);
}

#[test]
fn the_last_of_two_parameters_with_one_name_wins() {
    let mut app = App::new();
    app.get("/{id}/{id}", Do::ShowId).unwrap();
    let response = app.handle(request(Method::Get, "/first/second"));
    assert_eq!(response.get_body(), b"second");
}

#[test]
fn finish_sees_the_response_that_is_returned() {
    let mut app = App::new();
    app.get("/", Do::Hello).unwrap();
    app.finish(Do::Status(299));
    let response = app.handle(request(Method::Get, "/"));
    assert_eq!(response.get_status_code(), 299);
    assert_eq!(response.get_body(), b"Hello world!");
    let response = app.handle(request(Method::Get, "/missing"));
    assert_eq!(response.get_status_code(), 299);
    assert_eq!(response.get_body(), b"Not Found");
}

#[test]
fn the_root_path_keeps_its_slash() {
    let mut app = App::new();
    app.get("/", Do::Hello).unwrap();
    assert_eq!(app.handle(request(Method::Get, "/")).get_status_code(), 200);
    assert_eq!(app.handle(request(Method::Get, "//")).get_status_code(), 200);
    assert_eq!(app.handle(request(Method::Get, "///")).get_status_code(), 404);
    assert_eq!(app.handle(request(Method::Get, "")).get_status_code(), 404);
}

#[test]
fn a_request_has_a_version_and_a_target() {
    let mut q = Request::new(Method::Get, "/a".to_string(), "x=1".to_string(), Vec::new(), Vec::new());
    assert_eq!(q.version(), (1, 1));
    q.set_version(1, 0);
    assert_eq!(q.version(), (1, 0));
    assert_eq!(q.uri(), "/a?x=1");
    assert_eq!(request(Method::Get, "/a").uri(), "/a");
}

#[test]
fn a_handler_sees_its_application() {
    let mut app = App::new();
    app.get("/a", Do::Knows("/b")).unwrap();
    app.get("/c", Do::Knows("/d")).unwrap();
    app.get("/b", Do::Hello).unwrap();
    assert_eq!(app.handle(request(Method::Get, "/a")).get_body(), b"known");
    assert_eq!(app.handle(request(Method::Get, "/c")).get_body(), b"unknown");
}

#[test]
fn middleware_is_set_up_in_one_place() {
    let mut app = App::new();
    app.middleware(|app| {
        app.begin(Do::Mark("begin"));
        app.finish(Do::Mark("finish"));
    })
    .get("/", Do::Mark("handler"))
    .unwrap();
    let response = app.handle(request(Method::Get, "/"));
    assert_eq!(response.get_header("Trace").map(|s| s.as_str()), Some("begin,handler,finish"));
}
