use sincere::util::token::{BufReadExt, ChunkReader};

#[test]
fn stream_until_token() {
    let mut buf = ChunkReader::new(b"123456".to_vec());
    let mut result: Vec<u8> = Vec::new();
    assert_eq!(buf.stream_until_token(b"78", &mut result), (6, false));
    assert_eq!(result, b"123456");

    let mut buf = ChunkReader::new(b"12345678".to_vec());
    let mut result: Vec<u8> = Vec::new();
    assert_eq!(buf.stream_until_token(b"34", &mut result), (2, true));
    assert_eq!(result, b"12");

    result.truncate(0);
    assert_eq!(buf.stream_until_token(b"78", &mut result), (2, true));
    assert_eq!(result, b"56");

    let mut buf = ChunkReader::new(b"bananas for nana".to_vec());
    let mut result: Vec<u8> = Vec::new();
    assert_eq!(buf.stream_until_token(b"nan", &mut result), (2, true));
    assert_eq!(result, b"ba");

    result.truncate(0);
    assert_eq!(buf.stream_until_token(b"nan", &mut result), (7, true));
    assert_eq!(result, b"as for ");

    result.truncate(0);
    assert_eq!(buf.stream_until_token(b"nan", &mut result), (1, false));
    assert_eq!(result, b"a");

    result.truncate(0);
    assert_eq!(buf.stream_until_token(b"nan", &mut result), (0, false));
    assert_eq!(result, b"");
}

#[test]
fn stream_until_token_straddle_test() {
    let mut buf = ChunkReader::with_capacity(8, b"12345TOKEN345678".to_vec());
    let mut result: Vec<u8> = Vec::new();
    assert_eq!(buf.stream_until_token(b"TOKEN", &mut result), (5, true));
    assert_eq!(result, b"12345");

    result.truncate(0);
    assert_eq!(buf.stream_until_token(b"TOKEN", &mut result), (6, false));
    assert_eq!(result, b"345678");

    result.truncate(0);
    assert_eq!(buf.stream_until_token(b"TOKEN", &mut result), (0, false));
    assert_eq!(result, b"");

    //                                          <------><------><------>
    let mut buf = ChunkReader::with_capacity(8, b"12345TOKE23456781TOKEN78".to_vec());
    let mut result: Vec<u8> = Vec::new();
    assert_eq!(buf.stream_until_token(b"TOKEN", &mut result), (17, true));
    assert_eq!(result, b"12345TOKE23456781");
}

#[test]
fn stream_until_token_large_token_test() {
    let mut buf = ChunkReader::with_capacity(8, b"IAMALARGETOKEN7812345678".to_vec());
    let mut v: Vec<u8> = Vec::new();
    assert_eq!(buf.stream_until_token(b"IAMALARGETOKEN", &mut v), (0, true));
    assert_eq!(v, b"");
    assert_eq!(buf.stream_until_token(b"IAMALARGETOKEN", &mut v), (10, false));
    assert_eq!(v, b"7812345678");

    let mut buf = ChunkReader::with_capacity(8, b"0IAMALARGERTOKEN12345678".to_vec());
    let mut v: Vec<u8> = Vec::new();
    assert_eq!(buf.stream_until_token(b"IAMALARGERTOKEN", &mut v), (1, true));
    assert_eq!(v, b"0");
    v.truncate(0);
    assert_eq!(buf.stream_until_token(b"IAMALARGERTOKEN", &mut v), (8, false));
    assert_eq!(v, b"12345678");
}

#[test]
fn stream_until_token_double_straddle_test() {
    let mut buf = ChunkReader::with_capacity(8, b"12345IAMALARGETOKEN4567".to_vec());
    let mut v: Vec<u8> = Vec::new();
    assert_eq!(buf.stream_until_token(b"IAMALARGETOKEN", &mut v), (5, true));
    assert_eq!(v, b"12345");
    v.truncate(0);
    assert_eq!(buf.stream_until_token(b"IAMALARGETOKEN", &mut v), (4, false));
    assert_eq!(v, b"4567");
}

#[test]
fn stream_until_token_multiple_prefix_test() {
    let mut buf = ChunkReader::with_capacity(8, b"12barbarian4567".to_vec());
    let mut v: Vec<u8> = Vec::new();
    assert_eq!(buf.stream_until_token(b"barbarian", &mut v), (2, true));
    assert_eq!(v, b"12");

    let mut buf = ChunkReader::with_capacity(8, b"12barbarbarian7812".to_vec());
    let mut v: Vec<u8> = Vec::new();
    assert_eq!(buf.stream_until_token(b"barbarian", &mut v), (5, true));
    assert_eq!(v, b"12bar");
}

#[test]
fn stream_until_token_complex_test() {
    //                                             <-TOKEN->
    //                                          <--><--><--><--><--><--><--><-->
    let mut buf = ChunkReader::with_capacity(4, b"A SANTA BARBARA BARBARBARIANEND".to_vec());
    let mut v: Vec<u8> = Vec::new();
    assert_eq!(buf.stream_until_token(b"BARBARIAN", &mut v), (19, true));
    assert_eq!(v, b"A SANTA BARBARA BAR");

    v.truncate(0);
    assert_eq!(buf.stream_until_token(b"BARBARIAN", &mut v), (3, false));
    assert_eq!(v, b"END");
}

#[test]
fn stream_until_token_keeps_a_partial_token_at_the_end() {
    let mut buf = ChunkReader::with_capacity(8, b"12345TOK".to_vec());
    let mut v: Vec<u8> = Vec::new();
    assert_eq!(buf.stream_until_token(b"TOKEN", &mut v), (8, false));
    assert_eq!(v, b"12345TOK");
}

#[test]
fn stream_until_token_with_single_byte_chunks() {
    let mut buf = ChunkReader::with_capacity(1, b"abacd!".to_vec());
    let mut v: Vec<u8> = Vec::new();
    assert_eq!(buf.stream_until_token(b"abacd", &mut v), (0, true));
    assert_eq!(v, b"");
    assert_eq!(buf.stream_until_token(b"abacd", &mut v), (1, false));
    assert_eq!(v, b"!");
}
