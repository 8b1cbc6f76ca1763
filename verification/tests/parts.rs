use sincere::app::route::bind_groups;
use sincere::http::multipart::{find_header, read_disposition, FormData};
use sincere::http::wire::{content_length, read_number};
use sincere::server::worker::Worker;
use sincere::text::join_words;

fn headers(list: &[(&str, &str)]) -> Vec<(String, Vec<u8>)> {
    list.iter().map(|(name, value)| (name.to_string(), value.as_bytes().to_vec())).collect()
}

#[test]
fn words_are_joined_with_capitals_and_hyphens() {
    let words = vec!["content".to_string(), "type".to_string()];
    assert_eq!(join_words(&words), "Content-Type");
    assert_eq!(join_words(&vec!["x".to_string(), String::new(), "9a".to_string()]), "X--9a");
    assert_eq!(join_words(&vec![String::new()]), "");
    assert_eq!(join_words(&Vec::new()), "");
}

#[test]
fn groups_are_bound_to_names_in_the_order_of_the_index() {
    let index = vec![("year".to_string(), 1), ("title".to_string(), 3), ("rest".to_string(), 7)];
    let groups = vec![
        Some("/2024/x/rust".to_string()),
        Some("2024".to_string()),
        None,
        Some("rust".to_string()),
    ];
    assert_eq!(
        bind_groups(&index, &groups),
        vec![
            ("year".to_string(), "2024".to_string()),
            ("title".to_string(), "rust".to_string()),
            ("rest".to_string(), String::new()),
        ]
    );
    let skipped = vec![("a".to_string(), 2)];
    assert_eq!(bind_groups(&skipped, &groups), vec![("a".to_string(), String::new())]);
    assert!(bind_groups(&Vec::new(), &groups).is_empty());
}

#[test]
fn numbers_are_read_digit_by_digit() {
    assert_eq!(read_number(b"0"), Some(0));
    assert_eq!(read_number(b"007"), Some(7));
    assert_eq!(read_number(b"1234567890"), Some(1234567890));
    assert_eq!(read_number(b""), None);
    assert_eq!(read_number(b"+5"), None);
    assert_eq!(read_number(b"12a"), None);
    assert_eq!(read_number(b" 12"), None);
    let most = usize::MAX.to_string();
    assert_eq!(read_number(most.as_bytes()), Some(usize::MAX));
    let more = format!("{}0", most);
    assert_eq!(read_number(more.as_bytes()), None);
    assert_eq!(read_number(b"99999999999999999999999999"), None);
}

#[test]
fn the_body_length_is_what_the_first_header_of_that_name_says() {
    assert_eq!(content_length(&headers(&[("Host", "x")])), Some(0));
    assert_eq!(content_length(&Vec::new()), Some(0));
    assert_eq!(content_length(&headers(&[("Host", "x"), ("Content-Length", "42")])), Some(42));
    assert_eq!(content_length(&headers(&[("CONTENT-length", " 5\t")])), Some(5));
    assert_eq!(
        content_length(&headers(&[("content-length", "1"), ("Content-Length", "2")])),
        Some(1)
    );
    assert_eq!(content_length(&headers(&[("Content-Length", "")])), None);
    assert_eq!(content_length(&headers(&[("Content-Length", "-1")])), None);
    assert_eq!(content_length(&headers(&[("Content-Length", "1 2")])), None);
    assert_eq!(content_length(&headers(&[("Content-Length", "x"), ("Content-Length", "2")])), None);
}

#[test]
fn headers_of_a_part_are_found_by_their_exact_name() {
    let list = headers(&[("Content-Type", "a/b"), ("X", "1"), ("X", "2")]);
    assert_eq!(find_header(&list, "X"), Some(&b"1".to_vec()));
    assert_eq!(find_header(&list, "Content-Type"), Some(&b"a/b".to_vec()));
    assert_eq!(find_header(&list, "content-type"), None);
    assert_eq!(find_header(&Vec::new(), "X"), None);
}

#[test]
fn a_disposition_gives_the_places_of_its_names() {
    let value = b"form-data; name=\"avatar\"; filename=\"a.png\"";
    let (name, filename) = read_disposition(value).unwrap();
    let name = name.unwrap();
    let filename = filename.unwrap();
    assert_eq!(&value[name.0..name.1], b"avatar");
    assert_eq!(&value[filename.0..filename.1], b"a.png");
    assert_eq!(read_disposition(b"form-data"), Some((None, None)));
    assert_eq!(read_disposition(b""), Some((None, None)));
    assert_eq!(read_disposition(b"form-data; name=\"\""), Some((Some((17, 17)), None)));
    assert_eq!(read_disposition(b"form-data; name"), None);
    assert_eq!(read_disposition(b"form-data; name=\"a\"; filename="), None);
    let (first, _) = read_disposition(b"name=\"a\";name=\"bc\"").unwrap();
    assert_eq!(first, Some((15, 17)));
}

#[test]
fn a_part_is_added_from_its_headers() {
    let mut form = FormData::new();
    let part = b"HEAD1";
    let field = headers(&[("Content-Disposition", "form-data; name=\"a\"")]);
    assert!(form.add_entry(part, 4, &field));
    assert_eq!(form.fields, vec![("a".to_string(), "1".to_string())]);
    let file = headers(&[
        ("Content-Disposition", "form-data; name=\"f\"; filename=\"x.bin\""),
        ("Content-Type", "image/png"),
    ]);
    assert!(form.add_entry(part, 0, &file));
    assert_eq!(form.files.len(), 1);
    assert_eq!(form.files[0].name, "f");
    assert_eq!(form.files[0].filename, "x.bin");
    assert_eq!(form.files[0].content_type, "image/png");
    assert_eq!(form.files[0].data, b"HEAD1");
    let before = form.clone();
    assert!(!form.add_entry(part, 6, &field));
    assert!(!form.add_entry(part, 0, &headers(&[("Content-Type", "image/png")])));
    assert!(!form.add_entry(part, 0, &headers(&[("Content-Disposition", "form-data")])));
    assert!(!form.add_entry(part, 0, &headers(&[("content-disposition", "form-data; name=\"a\"")])));
    assert_eq!(form, before);
    assert!(form.add_entry(part, 5, &field));
    assert_eq!(form.fields[1], ("a".to_string(), String::new()));
}

#[test]
fn a_worker_knows_whether_it_runs_over_tls() {
    assert!(Worker::new(1, true).is_secure());
    assert!(!Worker::new(1, false).is_secure());
}
