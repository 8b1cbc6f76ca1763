use sincere::http::method::Method;
use sincere::http::multipart::{FilePart, FormData};
use sincere::http::request::Request;
use sincere::http::response::Response;
use sincere::http::status::StatusCode;
use sincere::util::string_map::StringMap;

#[test]
fn response_helpers() {
    let mut response = Response::empty(200);
    assert_eq!(response.get_status_code(), 200);
    assert_eq!(response.get_headers().len(), 0);
    response.status_code(201).from_html("<p>hi</p>").unwrap().header(("X-A", "1")).header(("X-A", "2"));
    assert_eq!(response.get_status_code(), 201);
    assert_eq!(response.get_body(), b"<p>hi</p>");
    assert_eq!(response.get_header("Content-Type").unwrap(), "text/html; charset=UTF-8");
    assert_eq!(response.get_header("X-A").unwrap(), "2");
    assert_eq!(response.get_headers().len(), 2);
    assert!(response.get_header("x-a").is_none());
    response.from_data("application/octet-stream", vec![1, 2, 3]).unwrap();
    assert_eq!(response.get_body(), &[1, 2, 3]);
    assert_eq!(response.get_header("Content-Type").unwrap(), "application/octet-stream");
    response.from_json(b"{}".to_vec()).unwrap();
    assert_eq!(response.get_header("Content-Type").unwrap(), "application/json; charset=UTF-8");
    let built = Response::new(StatusCode(204), StringMap::new(), Vec::new());
    assert_eq!(built.get_status_code(), 204);
}

#[test]
fn reason_phrases() {
    assert_eq!(StatusCode(200).default_reason_phrase(), "OK");
    assert_eq!(StatusCode(404).default_reason_phrase(), "Not Found");
    assert_eq!(StatusCode::from(505).default_reason_phrase(), "HTTP Version not supported");
    assert_eq!(StatusCode(299).default_reason_phrase(), "Unknown");
}

#[test]
fn methods() {
    assert_eq!(Method::Get.as_str(), "GET");
    assert_eq!(Method::Connect.as_str(), "CONNECT");
    assert_eq!(Method::parse("PATCH"), Some(Method::Patch));
    assert_eq!(Method::parse("patch"), None);
    assert_eq!(Method::parse("BREW"), None);
}

#[test]
fn query_is_parsed_in_order_with_duplicates() {
    let request = Request::new(
        Method::Get,
        "/".to_string(),
        "a=1&b=x%20y&a=2&c".to_string(),
        Vec::new(),
        Vec::new(),
    );
    let expected: Vec<(String, String)> = vec![
        ("a".into(), "1".into()),
        ("b".into(), "x y".into()),
        ("a".into(), "2".into()),
        ("c".into(), "".into()),
    ];
    assert_eq!(request.querys(), &expected);
    assert_eq!(request.query("a"), Some("1".to_string()));
    assert_eq!(request.query("z"), None);
    assert_eq!(request.query_string(), "a=1&b=x%20y&a=2&c");
}

#[test]
fn urlencoded_round_trip() {
    let pairs: Vec<(String, String)> = vec![
        ("name".into(), "alice & bob".into()),
        ("name".into(), "=?%".into()),
        ("\u{e9}".into(), "a+b c".into()),
        ("".into(), "x".into()),
    ];
    let encoded = url::form_urlencoded::Serializer::new(String::new())
        .extend_pairs(pairs.iter().map(|(k, v)| (k.as_str(), v.as_str())))
        .finish();
    assert_eq!(sincere::util::url::from_str(&encoded), pairs);
    assert_eq!(sincere::util::url::from_bytes(encoded.as_bytes()), pairs);
}

#[test]
fn urlencoded_body_becomes_form_fields() {
    let request = Request::new(
        Method::Post,
        "/".to_string(),
        String::new(),
        vec![("Content-Type".to_string(), "application/x-www-form-urlencoded".to_string())],
        b"k=v&k2=v+2".to_vec(),
    );
    assert_eq!(request.post("k"), Some("v".to_string()));
    assert_eq!(request.post("k2"), Some("v 2".to_string()));
    assert_eq!(request.posts().len(), 2);
    assert!(!request.has_file());
    assert_eq!(request.header("content-type"), Some("application/x-www-form-urlencoded".to_string()));
}

fn png_body(boundary: &str) -> Vec<u8> {
    let mut body: Vec<u8> = Vec::new();
    body.extend_from_slice(format!("--{}\r\n", boundary).as_bytes());
    body.extend_from_slice(b"Content-Disposition: form-data; name=\"name\"\r\n\r\nalice\r\n");
    body.extend_from_slice(format!("--{}\r\n", boundary).as_bytes());
    body.extend_from_slice(
        b"Content-Disposition: form-data; name=\"avatar\"; filename=\"a.png\"\r\nContent-Type: image/png\r\n\r\n",
    );
    body.extend_from_slice(b"\x89PNG\r\n\x1a\n--not the end");
    body.extend_from_slice(format!("\r\n--{}--\r\n", boundary).as_bytes());
    body
}

#[test]
fn multipart_field_and_file() {
    let request = Request::new(
        Method::Post,
        "/upload".to_string(),
        String::new(),
        vec![("Content-Type".to_string(), "multipart/form-data; boundary=XyZ".to_string())],
        png_body("XyZ"),
    );
    let fields: Vec<(String, String)> = vec![("name".into(), "alice".into())];
    assert_eq!(request.posts(), &fields);
    assert!(request.has_file());
    assert_eq!(
        request.files(),
        &vec![FilePart {
            name: "avatar".to_string(),
            filename: "a.png".to_string(),
            content_type: "image/png".to_string(),
            data: b"\x89PNG\r\n\x1a\n--not the end".to_vec(),
        }]
    );
    let form = request.parse_formdata().unwrap();
    assert!(form.has_file());
    assert_eq!(form.fields, fields);
}

#[test]
fn multipart_file_without_type_is_octet_stream() {
    let body = b"--b\r\nContent-Disposition: form-data; name=\"f\"; filename=\"x\"\r\n\r\ndata\r\n--b--";
    let form = FormData::parse(body, "b").unwrap();
    assert_eq!(form.files[0].content_type, "application/octet-stream");
    assert_eq!(form.files[0].data, b"data");
    assert!(form.fields.is_empty());
}

#[test]
fn multipart_rejects_malformed_bodies() {
    // Does not start with the delimiter.
    assert_eq!(FormData::parse(b"\r\n--b\r\nContent-Disposition: form-data; name=\"a\"\r\n\r\n1\r\n--b--", "b"), None);
    // Truncated: no closing delimiter.
    assert_eq!(FormData::parse(b"--b\r\nContent-Disposition: form-data; name=\"a\"\r\n\r\n1\r\n", "b"), None);
    // Delimiter not at the start of a line.
    assert_eq!(FormData::parse(b"--b\r\nContent-Disposition: form-data; name=\"a\"\r\n\r\n1--b--", "b"), None);
    // A part without a Content-Disposition header.
    assert_eq!(FormData::parse(b"--b\r\nContent-Type: text/plain\r\n\r\n1\r\n--b--", "b"), None);
    // A part without a name.
    assert_eq!(FormData::parse(b"--b\r\nContent-Disposition: form-data\r\n\r\n1\r\n--b--", "b"), None);
    // A name that is too short to be quoted.
    assert_eq!(FormData::parse(b"--b\r\nContent-Disposition: form-data; name\r\n\r\n1\r\n--b--", "b"), None);
    // Headers that never end.
    assert_eq!(FormData::parse(b"--b\r\nContent-Disposition: form-data; name=\"a\"\r\n--b--", "b"), None);
    // Something else than a line break or dashes after a delimiter.
    assert_eq!(FormData::parse(b"--bxx\r\nContent-Disposition: form-data; name=\"a\"\r\n\r\n1\r\n--b--", "b"), None);
    // Too short.
    assert_eq!(FormData::parse(b"--b--", "b"), None);
    assert_eq!(FormData::parse(b"", "b"), None);
    assert_eq!(FormData::parse(b"", ""), None);
}

#[test]
fn multipart_empty_form_and_empty_boundary() {
    assert_eq!(FormData::parse(b"--b--\r\n", "b"), Some(FormData::new()));
    let form = FormData::parse(b"--\r\nContent-Disposition: form-data; name=\"a\"\r\n\r\n1\r\n----", "").unwrap();
    assert_eq!(form.fields, vec![("a".to_string(), "1".to_string())]);
}

#[test]
fn multipart_boundary_inside_a_part_needs_a_line_break() {
    let body = b"--b\r\nContent-Disposition: form-data; name=\"a\"\r\n\r\nx\r\n--b\r\nContent-Disposition: form-data; name=\"c\"\r\n\r\ny\r\n--b--";
    let form = FormData::parse(body, "b").unwrap();
    assert_eq!(
        form.fields,
        vec![("a".to_string(), "x".to_string()), ("c".to_string(), "y".to_string())]
    );
}
