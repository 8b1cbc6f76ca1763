use sincere::http::client::{gen_boundary, random_alphanumeric, Multipart, BOUNDARY_LEN};
use sincere::http::multipart::{FilePart, FormData};
use sincere::text::unwords;

#[test]
fn boundary_is_alphanumeric() {
    let boundary = gen_boundary();
    assert_eq!(boundary.len(), BOUNDARY_LEN);
    assert!(boundary.chars().all(|c| c.is_ascii_alphanumeric()));
    assert_eq!(random_alphanumeric(0), "");
    assert_eq!(random_alphanumeric(5).len(), 5);
    assert_ne!(random_alphanumeric(32), random_alphanumeric(32));
}

#[test]
fn encode_writes_the_parts_in_order() {
    let mut form = Multipart::new();
    form.add_text("hello", "world");
    let body = form.encode("B");
    assert_eq!(
        body,
        b"--B\r\nContent-Disposition: form-data; name=\"hello\"\r\n\r\nworld\r\n--B--\r\n".to_vec()
    );
    assert_eq!(form.encode("B"), b"--B--\r\n".to_vec());
}

#[test]
fn multipart_round_trip() {
    let mut form = Multipart::new();
    form.add_text("name", "alice")
        .add_stream("avatar", b"\x89PNG\r\n\x1a\n".to_vec(), Some("a.png"), Some("image/png"))
        .add_text("note", "two\r\nlines")
        .add_stream("blob", vec![0, 1, 2, 255], Some("blob.bin"), None);
    let (boundary, body) = form.convert().unwrap();
    let parsed = FormData::parse(&body, &boundary).unwrap();
    assert_eq!(
        parsed.fields,
        vec![
            ("name".to_string(), "alice".to_string()),
            ("note".to_string(), "two\r\nlines".to_string())
        ]
    );
    assert_eq!(
        parsed.files,
        vec![
            FilePart {
                name: "avatar".to_string(),
                filename: "a.png".to_string(),
                content_type: "image/png".to_string(),
                data: b"\x89PNG\r\n\x1a\n".to_vec(),
            },
            FilePart {
                name: "blob".to_string(),
                filename: "blob.bin".to_string(),
                content_type: "application/octet-stream".to_string(),
                data: vec![0, 1, 2, 255],
            },
        ]
    );
}

#[test]
fn empty_form_round_trip() {
    let mut form = Multipart::new();
    let (boundary, body) = form.convert().unwrap();
    assert_eq!(FormData::parse(&body, &boundary), Some(FormData::new()));
}

#[test]
fn unwords_makes_header_names() {
    assert_eq!(unwords("content_type", "_"), "Content-Type");
    assert_eq!(unwords("X_FORWARDED_for", "_"), "X-Forwarded-For");
    assert_eq!(unwords("", "_"), "");
    assert_eq!(unwords("a__b", "_"), "A--B");
    assert_eq!(unwords("\u{e9}t\u{e9}_9lives", "_"), "\u{e9}t\u{e9}-9lives");
}

#[test]
fn a_stream_without_file_name_reads_back_as_a_text_field() {
    let mut form = Multipart::new();
    form.add_stream("raw", b"bytes".to_vec(), None, Some("text/plain"));
    let (boundary, body) = form.convert().unwrap();
    let parsed = FormData::parse(&body, &boundary).unwrap();
    assert_eq!(parsed.fields, vec![("raw".to_string(), "bytes".to_string())]);
    assert!(parsed.files.is_empty());
}

#[test]
fn a_name_is_read_up_to_its_first_semicolon() {
    let mut form = Multipart::new();
    form.add_text("a;b", "v").add_text("q\"uote", "w");
    let body = form.encode("B");
    let parsed = FormData::parse(&body, "B").unwrap();
    assert_eq!(
        parsed.fields,
        vec![(String::new(), "v".to_string()), ("q\"uote".to_string(), "w".to_string())]
    );
}

#[test]
fn words_are_cut_at_separators_found_from_the_left() {
    assert_eq!(unwords("axxxb", "xx"), "A-Xb");
    assert_eq!(unwords("AxxxxB", "xx"), "A--B");
    assert_eq!(unwords("xx", "xx"), "-");
    assert_eq!(unwords("a_b", "__"), "A_b");
}
