//! The wire form of a response, and the split of a request target.

use vstd::prelude::*;
use vstd::string::*;
use vstd::utf8::encode_utf8;
use crate::http::multipart::headers_view;
use crate::http::response::Response;
use crate::text::{char_at, eq_ignore_case, same_ignoring_case, trim_range, trimmed};
use crate::http::status::{reason_phrase, StatusCode};
use crate::util::string_map::{as_map, distinct_keys};
use crate::util::url::pairs_of;

verus! {

/// The decimal digits of a number, as ASCII.
pub open spec fn digits(n: nat) -> Seq<u8>
    decreases n,
{
    if n < 10 {
        seq![(48 + n) as u8]
    } else {
        digits(n / 10).push((48 + n % 10) as u8)
    }
}

/// Writes a number in decimal.
pub fn write_decimal(buf: &mut Vec<u8>, n: usize)
    ensures
        final(buf)@ == old(buf)@ + digits(n as nat),
{
    let mut reversed: Vec<u8> = Vec::new();
    let mut rest = n;
    // The digits come out last first.
    while rest >= 10
        invariant
            digits(n as nat) == digits(rest as nat) + reversed@.reverse(),
        decreases rest,
    {
        let ghost before = reversed@;
        let digit: u8 = (rest % 10) as u8 + 48;
        reversed.push(digit);
        proof {
            assert(reversed@.reverse() =~= seq![digit] + before.reverse());
            assert(digits(rest as nat) =~= digits((rest / 10) as nat) + seq![digit]);
            assert(digits((rest / 10) as nat) + reversed@.reverse() =~= digits(rest as nat)
                + before.reverse());
        }
        rest = rest / 10;
    }
    let ghost before = reversed@;
    let digit: u8 = rest as u8 + 48;
    reversed.push(digit);
    proof {
        assert(reversed@.reverse() =~= seq![digit] + before.reverse());
        assert(digits(rest as nat) =~= seq![digit]);
        assert(digits(n as nat) =~= reversed@.reverse());
    }
    let mut k = reversed.len();
    while k > 0
        invariant
            k <= reversed@.len(),
            buf@ == old(buf)@ + reversed@.reverse().subrange(0, reversed@.len() - k),
        decreases k,
    {
        k -= 1;
        buf.push(reversed[k]);
        assert(buf@ =~= old(buf)@ + reversed@.reverse().subrange(0, reversed@.len() - k));
    }
    assert(reversed@.reverse().subrange(0, reversed@.len() as int) =~= reversed@.reverse());
}

/// A header line.
pub open spec fn header_line(name: Seq<char>, value: Seq<char>) -> Seq<u8> {
    encode_utf8(name) + encode_utf8(": "@) + encode_utf8(value) + encode_utf8("\r\n"@)
}

/// The header lines of the entries from the `from`th on.
pub open spec fn header_lines(entries: Seq<(Seq<char>, Seq<char>)>, from: int) -> Seq<u8>
    decreases entries.len() - from,
{
    if from < 0 || from >= entries.len() {
        Seq::empty()
    } else {
        header_line(entries[from].0, entries[from].1) + header_lines(entries, from + 1)
    }
}

/// The status line, the `Date` and `Server` lines, the headers in the
/// order in which they were set, the `Content-Length` line, an empty line,
/// and the body.
pub open spec fn framed(
    status: u16,
    entries: Seq<(Seq<char>, Seq<char>)>,
    body: Seq<u8>,
    date: Seq<char>,
    server: Seq<char>,
) -> Seq<u8> {
    encode_utf8("HTTP/1.1 "@) + digits(status as nat) + encode_utf8(" "@) + encode_utf8(
        reason_phrase(status),
    ) + encode_utf8("\r\n"@) + header_line("Date"@, date) + header_line("Server"@, server)
        + header_lines(entries, 0) + encode_utf8("Content-Length: "@) + digits(body.len())
        + encode_utf8("\r\n\r\n"@) + body
}

fn write_header(buf: &mut Vec<u8>, name: &str, value: &str)
    ensures
        final(buf)@ == old(buf)@ + header_line(name@, value@),
{
    buf.extend_from_slice(name.as_bytes());
    buf.extend_from_slice(": ".as_bytes());
    buf.extend_from_slice(value.as_bytes());
    buf.extend_from_slice("\r\n".as_bytes());
    assert(buf@ =~= old(buf)@ + header_line(name@, value@));
}

fn write_status_line(buf: &mut Vec<u8>, status: u16)
    ensures
        final(buf)@ == old(buf)@ + (encode_utf8("HTTP/1.1 "@) + digits(status as nat) + encode_utf8(
            " "@,
        ) + encode_utf8(reason_phrase(status)) + encode_utf8("\r\n"@)),
{
    buf.extend_from_slice("HTTP/1.1 ".as_bytes());
    write_decimal(buf, status as usize);
    buf.extend_from_slice(" ".as_bytes());
    buf.extend_from_slice(StatusCode(status).default_reason_phrase().as_bytes());
    buf.extend_from_slice("\r\n".as_bytes());
    assert(buf@ =~= old(buf)@ + (encode_utf8("HTTP/1.1 "@) + digits(status as nat) + encode_utf8(
        " "@,
    ) + encode_utf8(reason_phrase(status)) + encode_utf8("\r\n"@)));
}

fn write_headers(buf: &mut Vec<u8>, entries: &Vec<(String, String)>)
    ensures
        final(buf)@ == old(buf)@ + header_lines(pairs_of(entries@), 0),
{
    assert(buf@ =~= old(buf)@ + header_lines(pairs_of(entries@).subrange(0, 0), 0));
    let mut k: usize = 0;
    while k < entries.len()
        invariant
            k <= entries@.len(),
            buf@ == old(buf)@ + header_lines(pairs_of(entries@).subrange(0, k as int), 0),
        decreases entries@.len() - k,
    {
        let ghost before = buf@;
        write_header(buf, entries[k].0.as_str(), entries[k].1.as_str());
        proof {
            let all = pairs_of(entries@);
            lemma_lines_push(all.subrange(0, k as int), all[k as int], 0);
            assert(all.subrange(0, k + 1) =~= all.subrange(0, k as int).push(all[k as int]));
            assert(buf@ =~= old(buf)@ + header_lines(all.subrange(0, k + 1), 0));
        }
        k += 1;
    }
    assert(pairs_of(entries@).subrange(0, k as int) =~= pairs_of(entries@));
}

proof fn lemma_lines_push(entries: Seq<(Seq<char>, Seq<char>)>, entry: (Seq<char>, Seq<char>), from: int)
    requires
        0 <= from <= entries.len(),
    ensures
        header_lines(entries.push(entry), from) == header_lines(entries, from) + header_line(
            entry.0,
            entry.1,
        ),
    decreases entries.len() - from,
{
    let longer = entries.push(entry);
    if from < entries.len() {
        lemma_lines_push(entries, entry, from + 1);
        assert(longer[from] == entries[from]);
        assert(header_lines(longer, from) =~= header_lines(entries, from) + header_line(
            entry.0,
            entry.1,
        ));
    } else {
        assert(longer[from] == entry);
        assert(header_lines(longer, from + 1) =~= Seq::<u8>::empty());
        assert(header_lines(longer, from) =~= header_lines(entries, from) + header_line(
            entry.0,
            entry.1,
        ));
    }
}

impl Response {
    /// Writes the response as it goes over the wire. `date` is the value of
    /// the `Date` line and `server` that of the `Server` line. The headers
    /// follow in the order in which their names were first set, each name
    /// once.
    pub fn encode(&self, date: &str, server: &str) -> (bytes: Vec<u8>)
        ensures
            bytes@ == framed(self.status(), self.header_list(), self.content(), date@, server@),
            as_map(self.header_list()) == self.header_map(),
            distinct_keys(self.header_list()),
    {
        let mut buf: Vec<u8> = Vec::new();
        let entries = self.get_headers().entries();
        let body = self.get_body();
        write_status_line(&mut buf, self.get_status_code());
        write_header(&mut buf, "Date", date);
        write_header(&mut buf, "Server", server);
        write_headers(&mut buf, entries);
        buf.extend_from_slice("Content-Length: ".as_bytes());
        write_decimal(&mut buf, body.len());
        buf.extend_from_slice("\r\n\r\n".as_bytes());
        buf.extend_from_slice(body.as_slice());
        proof {
            let list = pairs_of(entries@);
            assert(crate::util::string_map::entries_view(entries@) =~= list);
            assert(list == self.header_list());
            assert(buf@ =~= framed(self.status(), list, self.content(), date@, server@));
        }
        buf
    }
}

/// The first position at or after `from` that holds `c`, or the length of
/// the text.
pub open spec fn position_of(text: Seq<char>, c: char, from: int) -> int
    decreases text.len() - from,
{
    if from < 0 || from >= text.len() || text[from] == c {
        from
    } else {
        position_of(text, c, from + 1)
    }
}

/// The path of a request target: what stands before the first question
/// mark.
pub open spec fn path_of(target: Seq<char>) -> Seq<char> {
    target.subrange(0, position_of(target, '?', 0))
}

/// The query string of a request target: what stands after the first
/// question mark, and nothing where there is none.
pub open spec fn query_of(target: Seq<char>) -> Seq<char> {
    if position_of(target, '?', 0) < target.len() {
        target.subrange(position_of(target, '?', 0) + 1, target.len() as int)
    } else {
        Seq::empty()
    }
}

/// Finds the first question mark of a text, or its length where it has
/// none.
fn find_question_mark(target: &str) -> (at: usize)
    ensures
        at == position_of(target@, '?', 0),
        at <= target@.len(),
{
    let n = target.unicode_len();
    let ascii = target.is_ascii();
    let mut k: usize = 0;
    while k < n
        invariant
            ascii == target.is_ascii(),
            n == target@.len(),
            k <= n,
            position_of(target@, '?', 0) == position_of(target@, '?', k as int),
        decreases n - k,
    {
        // In ASCII text a character is found by its position at once.
        let here = if ascii {
            char_at(target, k)
        } else {
            target.get_char(k)
        };
        if here == '?' {
            return k;
        }
        k += 1;
    }
    k
}

/// Splits a request target into its path and its query string.
pub fn split_target(target: &str) -> (parts: (String, String))
    ensures
        parts.0@ == path_of(target@),
        parts.1@ == query_of(target@),
{
    let n = target.unicode_len();
    let at = find_question_mark(target);
    if at < n {
        (target.substring_char(0, at).to_owned(), target.substring_char(at + 1, n).to_owned())
    } else {
        assert(target@.subrange(0, n as int) =~= target@);
        (target.to_owned(), String::new())
    }
}

/// The value of the first header at or after `from` that is named
/// `Content-Length`, whatever the case of its letters.
pub open spec fn length_field(headers: Seq<(Seq<char>, Seq<u8>)>, from: int) -> Option<Seq<u8>>
    decreases headers.len() - from,
{
    if from < 0 || from >= headers.len() {
        None
    } else if same_ignoring_case(encode_utf8(headers[from].0), encode_utf8("content-length"@)) {
        Some(headers[from].1)
    } else {
        length_field(headers, from + 1)
    }
}

pub open spec fn is_digit(c: u8) -> bool {
    48 <= c && c <= 57
}

/// The number that a text of decimal digits writes. A text that is empty or
/// holds anything but digits writes none.
pub open spec fn number(text: Seq<u8>) -> Option<nat>
    decreases text.len(),
{
    if text.len() == 0 || !is_digit(text.last()) {
        None
    } else if text.len() == 1 {
        Some((text.last() - 48) as nat)
    } else {
        match number(text.drop_last()) {
            Some(n) => Some((n * 10 + (text.last() - 48)) as nat),
            None => None,
        }
    }
}

/// The length of the body that the headers announce: zero without a
/// `Content-Length` header, and else the number that its value writes,
/// white space at either end apart. There is none where the value writes no
/// number or one beyond what the machine counts.
pub open spec fn announced_length(headers: Seq<(Seq<char>, Seq<u8>)>) -> Option<nat> {
    match length_field(headers, 0) {
        None => Some(0),
        Some(v) => match number(trimmed(v, 0, v.len() as int)) {
            Some(n) => if n <= usize::MAX {
                Some(n)
            } else {
                None
            },
            None => None,
        },
    }
}

/// A number is at least what any of its leading digits write.
proof fn lemma_number_grows(text: Seq<u8>, k: int)
    requires
        0 < k <= text.len(),
    ensures
        number(text) matches Some(b) ==> number(text.subrange(0, k)) matches Some(a) && a <= b,
    decreases text.len() - k,
{
    if k == text.len() {
        assert(text.subrange(0, k) =~= text);
    } else {
        assert(text.drop_last().subrange(0, k) =~= text.subrange(0, k));
        lemma_number_grows(text.drop_last(), k);
    }
}

/// Reads a number written in decimal digits.
pub fn read_number(text: &[u8]) -> (n: Option<usize>)
    ensures
        match n {
            Some(v) => number(text@) == Some(v as nat),
            None => number(text@) matches Some(v) ==> v > usize::MAX,
        },
{
    let len = text.len();
    if len == 0 {
        return None;
    }
    let mut value: usize = 0;
    let mut k: usize = 0;
    while k < len
        invariant
            len == text@.len(),
            k <= len,
            k > 0 ==> number(text@.subrange(0, k as int)) == Some(value as nat),
            k == 0 ==> value == 0,
        decreases len - k,
    {
        let c = text[k];
        assert(text@.subrange(0, k + 1).drop_last() =~= text@.subrange(0, k as int));
        assert(text@.subrange(0, k + 1).last() == c);
        proof {
            lemma_number_grows(text@, k + 1);
        }
        if c < 48 || c > 57 {
            return None;
        }
        let d: usize = (c - 48) as usize;
        if value > (usize::MAX - d) / 10 {
            return None;
        }
        value = value * 10 + d;
        k += 1;
    }
    assert(text@.subrange(0, len as int) =~= text@);
    Some(value)
}

/// The length of the body that a request announces in its headers.
pub fn content_length(headers: &Vec<(String, Vec<u8>)>) -> (n: Option<usize>)
    ensures
        match n {
            Some(v) => announced_length(headers_view(headers@)) == Some(v as nat),
            None => announced_length(headers_view(headers@)) is None,
        },
{
    let mut k: usize = 0;
    while k < headers.len()
        invariant
            k <= headers@.len(),
            length_field(headers_view(headers@), 0) == length_field(
                headers_view(headers@),
                k as int,
            ),
        decreases headers@.len() - k,
    {
        if eq_ignore_case(headers[k].0.as_str(), "content-length") {
            let value = headers[k].1.as_slice();
            let (lo, hi) = trim_range(value, 0, value.len());
            return read_number(vstd::slice::slice_subrange(value, lo, hi));
        }
        k += 1;
    }
    Some(0)
}

/// Whether a request has arrived in full: its header block is complete,
/// ending at `head`, and at least as many bytes follow it as the request
/// announces.
pub fn is_complete(head: Option<usize>, content_length: usize, buffered: usize) -> (complete: bool)
    ensures
        complete == (head matches Some(h) && h <= buffered && buffered - h >= content_length),
{
    match head {
        Some(h) => h <= buffered && buffered - h >= content_length,
        None => false,
    }
}

} // verus!
