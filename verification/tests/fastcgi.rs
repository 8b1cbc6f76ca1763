use sincere::fastcgi::record::{receive, ProtocolStatus, Record};
use sincere::fastcgi::session::{
    begin, is_allowed, parse_addrs, write_stream, Request, Serving, Waiting, CHUNK,
};
use sincere::fastcgi::{
    get_values, read_len, read_pair, read_pairs, read_record, write_len, write_pairs, write_record,
    Role, HEADER_LEN, LENGTH_LIMIT,
};

#[test]
fn roles() {
    assert_eq!(Role::from_code(1), Ok(Role::Responder));
    assert_eq!(Role::from_code(2), Ok(Role::Authorizer));
    assert_eq!(Role::from_code(3), Ok(Role::Filter));
    assert_eq!(Role::from_code(0), Err(0));
    assert_eq!(Role::from_code(9), Err(9));
    assert_eq!(Role::Filter.code(), 3);
}

#[test]
fn lengths_take_one_byte_or_four() {
    let mut buf = Vec::new();
    write_len(&mut buf, 0);
    write_len(&mut buf, 127);
    write_len(&mut buf, 128);
    write_len(&mut buf, 0x0102_0304);
    write_len(&mut buf, LENGTH_LIMIT - 1);
    assert_eq!(
        buf,
        vec![0, 127, 0x80, 0, 0, 128, 0x81, 2, 3, 4, 0xff, 0xff, 0xff, 0xff]
    );
    assert_eq!(read_len(&buf, 0), Some((0, 1)));
    assert_eq!(read_len(&buf, 1), Some((127, 2)));
    assert_eq!(read_len(&buf, 2), Some((128, 6)));
    assert_eq!(read_len(&buf, 6), Some((0x0102_0304, 10)));
    assert_eq!(read_len(&buf, 10), Some((LENGTH_LIMIT - 1, 14)));
    assert_eq!(read_len(&buf, 14), None);
    assert_eq!(read_len(&buf, 11), None);
    assert_eq!(read_len(&buf, 100), None);
}

#[test]
fn pairs_round_trip() {
    let long = vec![b'x'; 300];
    let pairs = vec![
        (b"SCRIPT_NAME".to_vec(), b"/index".to_vec()),
        (b"".to_vec(), b"".to_vec()),
        (b"LONG".to_vec(), long.clone()),
        (long, b"v".to_vec()),
    ];
    let mut buf = Vec::new();
    write_pairs(&mut buf, &pairs);
    assert_eq!(&buf[..19], b"\x0b\x06SCRIPT_NAME/index");
    assert_eq!(read_pairs(&buf), pairs);
    assert_eq!(read_pair(&buf, 0), Some((pairs[0].clone(), 19)));
    // A truncated pair ends the list.
    assert_eq!(read_pairs(&buf[..buf.len() - 1]), pairs[..3].to_vec());
    assert_eq!(read_pairs(b""), vec![]);
    assert_eq!(read_pair(b"\x05\x00ab", 0), None);
}

#[test]
fn known_variables_are_answered() {
    let keys: Vec<String> = ["FCGI_MPXS_CONNS", "OTHER", "FCGI_MAX_CONNS", "FCGI_MAX_REQS", "fcgi_max_reqs"]
        .iter()
        .map(|s| s.to_string())
        .collect();
    let expected: Vec<(String, String)> = vec![
        ("FCGI_MPXS_CONNS".into(), "0".into()),
        ("FCGI_MAX_CONNS".into(), "1".into()),
        ("FCGI_MAX_REQS".into(), "1".into()),
    ];
    assert_eq!(get_values(keys), expected);
    assert_eq!(get_values(Vec::new()), vec![]);
}

#[test]
fn records_round_trip() {
    assert_eq!(HEADER_LEN, 8);
    let mut buf = Vec::new();
    write_record(&mut buf, 6, 0x0102, b"hello");
    write_record(&mut buf, 3, 1, b"");
    assert_eq!(buf, b"\x01\x06\x01\x02\x00\x05\x00\x00hello\x01\x03\x00\x01\x00\x00\x00\x00".to_vec());
    assert_eq!(read_record(&buf, 0), Some(((6, 0x0102, b"hello".to_vec()), 13)));
    assert_eq!(read_record(&buf, 13), Some(((3, 1, Vec::new()), 21)));
    assert_eq!(read_record(&buf, 21), None);
    // Padding is skipped.
    assert_eq!(read_record(b"\x01\x05\x00\x07\x00\x01\x02\x00Xpp", 0), Some(((5, 7, b"X".to_vec()), 11)));
    // Another version, a short header, short content.
    assert_eq!(read_record(b"\x02\x05\x00\x07\x00\x00\x00\x00", 0), None);
    assert_eq!(read_record(b"\x01\x05\x00\x07\x00\x00\x00", 0), None);
    assert_eq!(read_record(b"\x01\x05\x00\x07\x00\x02\x00\x00X", 0), None);
}

#[test]
fn records_are_sent_and_received() {
    let mut buf = Vec::new();
    assert!(Record::EndRequest { request_id: 7, app_status: -1, protocol_status: ProtocolStatus::UnknownRole }
        .send(&mut buf));
    assert_eq!(buf, b"\x01\x03\x00\x07\x00\x08\x00\x00\xff\xff\xff\xff\x03\x00\x00\x00".to_vec());
    buf.clear();
    assert!(Record::EndRequest { request_id: 1, app_status: 0x0102_0304, protocol_status: ProtocolStatus::RequestComplete }
        .send(&mut buf));
    assert_eq!(&buf[8..], b"\x01\x02\x03\x04\x00\x00\x00\x00");
    buf.clear();
    assert!(Record::Stdout { request_id: 1, content: b"hi".to_vec() }.send(&mut buf));
    assert!(Record::Stderr { request_id: 1, content: Vec::new() }.send(&mut buf));
    assert!(Record::UnknownType(99).send(&mut buf));
    assert!(Record::GetValuesResult(vec![("A".to_string(), "1".to_string())]).send(&mut buf));
    assert_eq!(
        buf,
        b"\x01\x06\x00\x01\x00\x02\x00\x00hi\x01\x07\x00\x01\x00\x00\x00\x00\x01\x0b\x00\x00\x00\x08\x00\x00\x63\x00\x00\x00\x00\x00\x00\x00\x01\x0a\x00\x00\x00\x04\x00\x00\x01\x01A1"
            .to_vec()
    );
    let before = buf.clone();
    assert!(!Record::AbortRequest { request_id: 1 }.send(&mut buf));
    assert!(!Record::Stdout { request_id: 1, content: vec![0; 65536] }.send(&mut buf));
    assert_eq!(buf, before);

    assert_eq!(
        receive(1, 5, b"\x00\x01\x01\x00\x00\x00\x00\x00".to_vec()),
        Some(Record::BeginRequest { request_id: 5, role: Ok(Role::Responder), keep_conn: true })
    );
    assert_eq!(
        receive(1, 5, b"\x00\x09\x00".to_vec()),
        Some(Record::BeginRequest { request_id: 5, role: Err(9), keep_conn: false })
    );
    assert_eq!(receive(1, 5, b"\x00\x01".to_vec()), None);
    assert_eq!(receive(2, 5, Vec::new()), Some(Record::AbortRequest { request_id: 5 }));
    assert_eq!(receive(4, 5, b"p".to_vec()), Some(Record::Params { request_id: 5, content: b"p".to_vec() }));
    assert_eq!(receive(5, 5, b"i".to_vec()), Some(Record::Stdin { request_id: 5, content: b"i".to_vec() }));
    assert_eq!(receive(8, 5, b"d".to_vec()), Some(Record::Data { request_id: 5, content: b"d".to_vec() }));
    assert_eq!(receive(9, 0, b"\x01\x00A\x02\x00BC".to_vec()), Some(Record::GetValues(vec!["A".to_string(), "BC".to_string()])));
    assert_eq!(receive(11, 0, Vec::new()), Some(Record::UnknownType(11)));
    assert_eq!(receive(200, 0, Vec::new()), Some(Record::UnknownType(200)));
    for sendable in [0u8, 3, 6, 7, 10] {
        assert_eq!(receive(sendable, 0, Vec::new()), None);
    }
}

#[test]
fn a_request_runs_its_course() {
    assert_eq!(
        begin(Record::BeginRequest { request_id: 3, role: Ok(Role::Filter), keep_conn: false }),
        Waiting::Start { request_id: 3, role: Role::Filter, keep_conn: false }
    );
    assert_eq!(
        begin(Record::BeginRequest { request_id: 3, role: Err(8), keep_conn: false }),
        Waiting::Reply(Record::EndRequest { request_id: 3, app_status: 0, protocol_status: ProtocolStatus::UnknownRole })
    );
    assert_eq!(begin(Record::UnknownType(42)), Waiting::Reply(Record::UnknownType(42)));
    assert_eq!(
        begin(Record::GetValues(vec!["FCGI_MAX_REQS".to_string(), "X".to_string()])),
        Waiting::Reply(Record::GetValuesResult(vec![("FCGI_MAX_REQS".to_string(), "1".to_string())]))
    );
    assert_eq!(begin(Record::AbortRequest { request_id: 3 }), Waiting::Ignore);

    let mut request = Request::new(3, Role::Filter);
    assert_eq!(request.role(), Role::Filter);
    let mut params = Vec::new();
    write_pairs(&mut params, &vec![(b"A".to_vec(), b"1".to_vec()), (b"B".to_vec(), b"2".to_vec()), (b"A".to_vec(), b"3".to_vec())]);
    let (first, second) = params.split_at(5);
    assert_eq!(request.collect(Record::Params { request_id: 3, content: first.to_vec() }), Serving::More);
    assert_eq!(request.collect(Record::Params { request_id: 4, content: b"zz".to_vec() }), Serving::Ignore);
    assert_eq!(
        request.collect(Record::BeginRequest { request_id: 4, role: Ok(Role::Responder), keep_conn: true }),
        Serving::Reply(Record::EndRequest { request_id: 4, app_status: 0, protocol_status: ProtocolStatus::CantMpxConn })
    );
    assert_eq!(request.collect(Record::Params { request_id: 3, content: second.to_vec() }), Serving::More);
    assert_eq!(request.param("A"), None);
    assert_eq!(request.collect(Record::Params { request_id: 3, content: Vec::new() }), Serving::Ready);
    assert_eq!(request.param("A"), Some("3".to_string()));
    assert_eq!(request.param("B"), Some("2".to_string()));
    assert_eq!(request.params().len(), 2);

    assert!(request.needs_input());
    assert!(!request.start_filter_data());
    assert_eq!(request.fill(Record::Data { request_id: 3, content: b"early".to_vec() }), Serving::Ignore);
    assert_eq!(request.fill(Record::Stdin { request_id: 3, content: b"input".to_vec() }), Serving::Ready);
    assert_eq!(request.buffered(), b"input");
    request.consume(2);
    assert_eq!(request.buffered(), b"put");
    assert!(!request.needs_input());
    request.consume(100);
    assert_eq!(request.buffered(), b"");
    assert!(request.needs_input());
    assert_eq!(request.fill(Record::Stdin { request_id: 3, content: Vec::new() }), Serving::Ready);
    assert!(!request.needs_input());
    assert!(request.start_filter_data());
    assert!(request.needs_input());
    assert_eq!(request.fill(Record::Stdin { request_id: 3, content: b"late".to_vec() }), Serving::Ignore);
    assert_eq!(request.fill(Record::Data { request_id: 3, content: b"data".to_vec() }), Serving::Ready);
    assert_eq!(request.buffered(), b"data");
    assert_eq!(request.fill(Record::AbortRequest { request_id: 9 }), Serving::Ignore);
    assert!(!request.is_aborted());
    assert_eq!(request.fill(Record::AbortRequest { request_id: 3 }), Serving::Aborted);
    assert!(request.is_aborted());
    assert!(!request.needs_input());
    request.exit(2);
    assert_eq!(
        request.finish(),
        b"\x01\x06\x00\x03\x00\x00\x00\x00\x01\x07\x00\x03\x00\x00\x00\x00\x01\x03\x00\x03\x00\x08\x00\x00\x00\x00\x00\x02\x00\x00\x00\x00".to_vec()
    );
}

#[test]
fn output_is_cut_into_records() {
    let mut buf = Vec::new();
    write_stream(&mut buf, 6, 1, b"");
    assert!(buf.is_empty());
    write_stream(&mut buf, 6, 1, b"abc");
    assert_eq!(buf, b"\x01\x06\x00\x01\x00\x03\x00\x00abc".to_vec());
    buf.clear();
    let data = vec![7u8; CHUNK + 2];
    write_stream(&mut buf, 7, 2, &data);
    assert_eq!(buf.len(), 8 + CHUNK + 8 + 2);
    assert_eq!(&buf[..8], b"\x01\x07\x00\x02\xff\xff\x00\x00");
    assert_eq!(&buf[8 + CHUNK..8 + CHUNK + 8], b"\x01\x07\x00\x02\x00\x02\x00\x00");
}

#[test]
fn only_listed_peers_are_served() {
    let addrs = parse_addrs("10.0.0.1,10.0.0.2");
    assert_eq!(addrs, vec!["10.0.0.1".to_string(), "10.0.0.2".to_string()]);
    assert!(is_allowed(Some(&addrs), Some("10.0.0.2")));
    assert!(!is_allowed(Some(&addrs), Some("10.0.0.3")));
    assert!(!is_allowed(Some(&addrs), None));
    assert!(is_allowed(None, None));
    assert!(is_allowed(None, Some("anyone")));
}

#[test]
fn addresses_are_cut_at_every_comma() {
    assert_eq!(parse_addrs("a,,b,"), vec!["a", "", "b", ""]);
    assert_eq!(parse_addrs(""), vec![""]);
    assert_eq!(parse_addrs(","), vec!["", ""]);
    assert_eq!(parse_addrs("one"), vec!["one"]);
}
