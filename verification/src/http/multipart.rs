//! The `multipart/form-data` decoder.
//!
//! A body is a run of parts. Each part is announced by the delimiter, two
//! dashes and the boundary, on a line of its own; after the last part the
//! delimiter is followed by two more dashes. Decoding is all or nothing: a
//! body that is malformed anywhere yields no form data.

use vstd::prelude::*;
use vstd::slice::slice_subrange;
use vstd::string::*;
use vstd::slice::slice_to_vec;
use crate::http::media::{media_text, media_type};
use crate::text::{
    find_bytes_from, find_from, has_prefix, lemma_find_from, lossy_text, occurs_at, starts_with,
    str_eq, trim_range, trimmed, utf8_lossy,
};

verus! {

/// An uploaded file.
#[derive(Clone, Debug, PartialEq)]
pub struct FilePart {
    /// The name of the form field.
    pub name: String,
    /// The file name the client gave.
    pub filename: String,
    /// The media type of the contents.
    pub content_type: String,
    /// The contents.
    pub data: Vec<u8>,
}

/// A `FilePart` as plain values.
pub struct FileView {
    pub name: Seq<char>,
    pub filename: Seq<char>,
    pub content_type: Seq<char>,
    pub data: Seq<u8>,
}

impl View for FilePart {
    type V = FileView;

    open spec fn view(&self) -> FileView {
        FileView {
            name: self.name@,
            filename: self.filename@,
            content_type: self.content_type@,
            data: self.data@,
        }
    }
}

/// The decoded form: text fields and files, each in the order of the body.
#[derive(Clone, Debug, PartialEq)]
pub struct FormData {
    pub fields: Vec<(String, String)>,
    pub files: Vec<FilePart>,
}

/// A `FormData` as plain values.
pub struct FormView {
    pub fields: Seq<(Seq<char>, Seq<char>)>,
    pub files: Seq<FileView>,
}

pub open spec fn pairs_view(pairs: Seq<(String, String)>) -> Seq<(Seq<char>, Seq<char>)> {
    pairs.map_values(|p: (String, String)| (p.0@, p.1@))
}

pub open spec fn files_view(files: Seq<FilePart>) -> Seq<FileView> {
    files.map_values(|f: FilePart| f@)
}

impl View for FormData {
    type V = FormView;

    open spec fn view(&self) -> FormView {
        FormView { fields: pairs_view(self.fields@), files: files_view(self.files@) }
    }
}

/// The delimiter that announces a part: two dashes and the boundary.
pub open spec fn delimiter(boundary: Seq<u8>) -> Seq<u8> {
    seq![45u8, 45u8] + boundary
}

pub open spec fn crlf_at(body: Seq<u8>, at: int) -> bool {
    0 <= at && at + 2 <= body.len() && body[at] == 13 && body[at + 1] == 10
}

pub open spec fn dashes_at(body: Seq<u8>, at: int) -> bool {
    0 <= at && at + 2 <= body.len() && body[at] == 45 && body[at + 1] == 45
}

/// After the closing dashes, which end at `end`, the body is over, or two
/// more bytes follow.
pub open spec fn ends_at(body: Seq<u8>, end: int) -> bool {
    end == body.len() || end + 2 == body.len()
}

/// The parts that follow position `cursor`, which stands behind a delimiter
/// line. Each part runs up to the line break before the next delimiter.
pub open spec fn frames_from(body: Seq<u8>, delim: Seq<u8>, cursor: int) -> Option<Seq<(int, int)>>
    decreases body.len() - cursor,
{
    match find_from(body, delim, cursor) {
        None => None,
        Some(at) => {
            let after = at + delim.len();
            if at < cursor + 2 || !crlf_at(body, at - 2) {
                None
            } else if dashes_at(body, after) {
                if ends_at(body, after + 2) {
                    Some(seq![(cursor, at - 2)])
                } else {
                    None
                }
            } else if crlf_at(body, after) {
                match frames_from(body, delim, after + 2) {
                    Some(rest) => Some(seq![(cursor, at - 2)] + rest),
                    None => None,
                }
            } else {
                None
            }
        },
    }
}

/// The parts of a body, as ranges of it, or `None` for a body that is not
/// framed as the format demands: it starts with the delimiter, is longer
/// than the delimiter and two bytes, and after every delimiter come either a
/// line break and a part that ends in a line break, or two dashes and the
/// end.
pub open spec fn frames(body: Seq<u8>, delim: Seq<u8>) -> Option<Seq<(int, int)>> {
    if !occurs_at(body, delim, 0) || body.len() <= delim.len() + 2 {
        None
    } else if dashes_at(body, delim.len() as int) {
        if ends_at(body, (delim.len() + 2) as int) {
            Some(Seq::empty())
        } else {
            None
        }
    } else if crlf_at(body, delim.len() as int) {
        frames_from(body, delim, (delim.len() + 2) as int)
    } else {
        None
    }
}

pub open spec fn ranges_view(ranges: Seq<(usize, usize)>) -> Seq<(int, int)> {
    ranges.map_values(|r: (usize, usize)| (r.0 as int, r.1 as int))
}

/// Every part lies inside the body.
pub open spec fn ranges_within(ranges: Seq<(int, int)>, len: int) -> bool {
    forall|k: int| 0 <= k < ranges.len() ==> 0 <= (#[trigger] ranges[k]).0 <= ranges[k].1 <= len
}

/// Splits a body into its parts.
pub fn split_parts(body: &[u8], delim: &[u8]) -> (parts: Option<Vec<(usize, usize)>>)
    ensures
        match parts {
            Some(p) => frames(body@, delim@) == Some(ranges_view(p@)) && ranges_within(
                ranges_view(p@),
                body@.len() as int,
            ),
            None => frames(body@, delim@) is None,
        },
{
    let n = body.len();
    let d = delim.len();
    if d > n || n - d <= 2 {
        return None;
    }
    if !starts_with(body, 0, n, delim) {
        assert(body@.subrange(0, n as int) =~= body@);
        return None;
    }
    assert(body@.subrange(0, n as int) =~= body@);
    let mut parts: Vec<(usize, usize)> = Vec::new();
    assert(ranges_view(parts@) =~= Seq::<(int, int)>::empty());
    if body[d] == 45 && body[d + 1] == 45 {
        if n - d == 4 {
            return Some(parts);
        }
        return None;
    }
    if !(body[d] == 13 && body[d + 1] == 10) {
        return None;
    }
    let mut cursor: usize = d + 2;
    loop
        invariant
            n == body@.len(),
            d == delim@.len(),
            2 <= cursor <= n,
            ranges_within(ranges_view(parts@), n as int),
            frames(body@, delim@) == match frames_from(body@, delim@, cursor as int) {
                Some(rest) => Some(ranges_view(parts@) + rest),
                None => None,
            },
        decreases n - cursor,
    {
        let ghost done = ranges_view(parts@);
        let at = match find_bytes_from(body, delim, cursor) {
            Some(at) => at,
            None => {
                return None;
            },
        };
        proof {
            lemma_find_from(body@, delim@, cursor as int);
        }
        if at - cursor < 2 || !(body[at - 2] == 13 && body[at - 1] == 10) {
            return None;
        }
        let after = at + d;
        if n - after < 2 {
            return None;
        }
        parts.push((cursor, at - 2));
        assert(ranges_view(parts@) =~= done + seq![(cursor as int, at - 2)]);
        if body[after] == 45 && body[after + 1] == 45 {
            if after + 2 == n || n - after == 4 {
                return Some(parts);
            }
            return None;
        }
        if !(body[after] == 13 && body[after + 1] == 10) {
            return None;
        }
        proof {
            let rest = frames_from(body@, delim@, after + 2);
            if let Some(r) = rest {
                assert(done + (seq![(cursor as int, at - 2)] + r) =~= ranges_view(parts@) + r);
            }
        }
        cursor = after + 2;
    }
}

/// The number of headers that a part may have.
pub const PART_HEADERS: usize = 4;

/// What `httparse::parse_headers` makes of `src` with room for `room`
/// headers: where the header block ends and the headers in it, each a name
/// and a value, or `None` where the block is incomplete, malformed or holds
/// more headers than there is room for.
pub uninterp spec fn header_block(src: Seq<u8>, room: nat) -> Option<
    (nat, Seq<(Seq<char>, Seq<u8>)>),
>;

pub open spec fn headers_view(headers: Seq<(String, Vec<u8>)>) -> Seq<(Seq<char>, Seq<u8>)> {
    headers.map_values(|h: (String, Vec<u8>)| (h.0@, h.1@))
}

/// Parses the header block at the start of a part with
/// `httparse::parse_headers`, which is given room for `room` headers.
#[verifier::external_body]
fn parse_header_block(src: &[u8], room: usize) -> (parsed: Option<(usize, Vec<(String, Vec<u8>)>)>)
    ensures
        match parsed {
            Some(p) => header_block(src@, room as nat) == Some((p.0 as nat, headers_view(p.1@))),
            None => header_block(src@, room as nat) is None,
        },
{
    let mut room = vec![httparse::EMPTY_HEADER; room];
    match httparse::parse_headers(src, &mut room) {
        Ok(httparse::Status::Complete((end, found))) => Some(
            (end, found.iter().map(|h| (h.name.to_string(), h.value.to_vec())).collect()),
        ),
        Ok(httparse::Status::Partial) => None,
        Err(_) => None,
    }
}

/// The value of the first header at or after `from` whose name is `name`.
pub open spec fn header_named(headers: Seq<(Seq<char>, Seq<u8>)>, name: Seq<char>, from: int) -> Option<
    Seq<u8>,
>
    decreases headers.len() - from,
{
    if from < 0 || from >= headers.len() {
        None
    } else if headers[from].0 == name {
        Some(headers[from].1)
    } else {
        header_named(headers, name, from + 1)
    }
}

/// Finds the value of the first header with the given name.
pub fn find_header<'a>(headers: &'a Vec<(String, Vec<u8>)>, name: &str) -> (value: Option<&'a Vec<u8>>)
    ensures
        match value {
            Some(v) => header_named(headers_view(headers@), name@, 0) == Some(v@),
            None => header_named(headers_view(headers@), name@, 0) is None,
        },
{
    let mut k: usize = 0;
    while k < headers.len()
        invariant
            k <= headers@.len(),
            header_named(headers_view(headers@), name@, 0) == header_named(
                headers_view(headers@),
                name@,
                k as int,
            ),
        decreases headers@.len() - k,
    {
        if str_eq(headers[k].0.as_str(), name) {
            return Some(&headers[k].1);
        }
        k += 1;
    }
    None
}

/// `name`, the key of the parameter that names the field.
pub open spec fn name_key() -> Seq<u8> {
    seq![110u8, 97u8, 109u8, 101u8]
}

/// `filename`, the key of the parameter that marks a file.
pub open spec fn filename_key() -> Seq<u8> {
    seq![102u8, 105u8, 108u8, 101u8, 110u8, 97u8, 109u8, 101u8]
}

/// What a `Content-Disposition` value says of a part.
pub struct Disposition {
    pub name: Option<Seq<u8>>,
    pub filename: Option<Seq<u8>>,
}

/// The end of the segment that starts at `from`: the next semicolon, or the
/// end of the value.
pub open spec fn segment_end(v: Seq<u8>, from: int) -> int
    decreases v.len() - from,
{
    if from < 0 || from >= v.len() || v[from] == 59 {
        from
    } else {
        segment_end(v, from + 1)
    }
}

/// Takes one trimmed segment into account. A segment that begins with
/// `name` gives the field name: what stands between its seventh character
/// and its last, so that `name="a"` gives `a`. One that begins with
/// `filename` gives the file name in the same way, from the eleventh
/// character on. A segment too short for that is malformed.
pub open spec fn with_segment(d: Disposition, seg: Seq<u8>) -> Option<Disposition> {
    if has_prefix(seg, name_key()) {
        if seg.len() >= 7 {
            Some(Disposition { name: Some(seg.subrange(6, seg.len() - 1)), ..d })
        } else {
            None
        }
    } else if has_prefix(seg, filename_key()) {
        if seg.len() >= 11 {
            Some(Disposition { filename: Some(seg.subrange(10, seg.len() - 1)), ..d })
        } else {
            None
        }
    } else {
        Some(d)
    }
}

/// Reads the segments of a value from `from` on, separated by semicolons.
pub open spec fn disposition_from(v: Seq<u8>, from: int, d: Disposition) -> Option<Disposition>
    decreases v.len() - from,
{
    if from < 0 || from > v.len() {
        None
    } else {
        let end = segment_end(v, from);
        match with_segment(d, trimmed(v, from, end)) {
            None => None,
            Some(next) => if from <= end < v.len() {
                disposition_from(v, end + 1, next)
            } else {
                Some(next)
            },
        }
    }
}

pub open spec fn disposition(v: Seq<u8>) -> Option<Disposition> {
    disposition_from(v, 0, Disposition { name: None, filename: None })
}

pub open spec fn range_of(v: Seq<u8>, r: Option<(usize, usize)>) -> Option<Seq<u8>> {
    match r {
        Some((a, b)) => Some(v.subrange(a as int, b as int)),
        None => None,
    }
}

/// Reads a `Content-Disposition` value. The two results are the ranges of
/// the value that hold the field name and the file name.
pub fn read_disposition(v: &[u8]) -> (r: Option<(Option<(usize, usize)>, Option<(usize, usize)>)>)
    ensures
        match r {
            Some((name, filename)) => {
                &&& disposition(v@) == Some(
                    Disposition { name: range_of(v@, name), filename: range_of(v@, filename) },
                )
                &&& name matches Some(n) ==> n.0 <= n.1 <= v@.len()
                &&& filename matches Some(f) ==> f.0 <= f.1 <= v@.len()
            },
            None => disposition(v@) is None,
        },
{
    let n = v.len();
    let name_word: [u8; 4] = [110, 97, 109, 101];
    let filename_word: [u8; 8] = [102, 105, 108, 101, 110, 97, 109, 101];
    assert(name_word@ =~= name_key());
    assert(filename_word@ =~= filename_key());
    let mut name: Option<(usize, usize)> = None;
    let mut filename: Option<(usize, usize)> = None;
    let mut from: usize = 0;
    loop
        invariant
            n == v@.len(),
            from <= n,
            name_word@ == name_key(),
            filename_word@ == filename_key(),
            name matches Some(r) ==> r.0 <= r.1 <= n,
            filename matches Some(r) ==> r.0 <= r.1 <= n,
            disposition(v@) == disposition_from(
                v@,
                from as int,
                Disposition { name: range_of(v@, name), filename: range_of(v@, filename) },
            ),
        decreases n - from,
    {
        let mut end = from;
        while end < n && v[end] != 59
            invariant
                n == v@.len(),
                from <= end <= n,
                segment_end(v@, from as int) == segment_end(v@, end as int),
            decreases n - end,
        {
            end += 1;
        }
        let (lo, hi) = trim_range(v, from, end);
        let ghost seg = v@.subrange(lo as int, hi as int);
        if starts_with(v, lo, hi, name_word.as_slice()) {
            if hi - lo < 7 {
                return None;
            }
            name = Some((lo + 6, hi - 1));
            assert(seg.subrange(6, seg.len() - 1) =~= v@.subrange(lo + 6, hi - 1));
        } else if starts_with(v, lo, hi, filename_word.as_slice()) {
            if hi - lo < 11 {
                return None;
            }
            filename = Some((lo + 10, hi - 1));
            assert(seg.subrange(10, seg.len() - 1) =~= v@.subrange(lo + 10, hi - 1));
        }
        if end >= n {
            return Some((name, filename));
        }
        from = end + 1;
    }
}

/// One decoded part.
pub enum Entry {
    /// A text field: its name and value.
    Field(Seq<char>, Seq<char>),
    /// A file.
    File(FileView),
}

/// The media type of a part: what its `Content-Type` header gives where the
/// `mime` crate accepts it, and `application/octet-stream` otherwise.
pub open spec fn content_type_of(headers: Seq<(Seq<char>, Seq<u8>)>) -> Seq<char> {
    match header_named(headers, "Content-Type"@, 0) {
        Some(v) => match media_text(lossy_text(v)) {
            Some(m) => m.text,
            None => "application/octet-stream"@,
        },
        None => "application/octet-stream"@,
    }
}

/// What a part decodes to whose header block ends at `end` and holds
/// `headers`. The block must end within the part and hold a
/// `Content-Disposition` header that names the field. With a file name the
/// part is a file, whatever its media type; without one it is a text field.
/// What follows the header block is the value.
pub open spec fn entry_of(part: Seq<u8>, end: nat, headers: Seq<(Seq<char>, Seq<u8>)>) -> Option<
    Entry,
> {
    if end > part.len() {
        None
    } else {
        match header_named(headers, "Content-Disposition"@, 0) {
            None => None,
            Some(value) => match disposition(value) {
                None => None,
                Some(d) => match d.name {
                    None => None,
                    Some(name) => {
                        let data = part.subrange(end as int, part.len() as int);
                        match d.filename {
                            Some(filename) => Some(
                                Entry::File(
                                    FileView {
                                        name: lossy_text(name),
                                        filename: lossy_text(filename),
                                        content_type: content_type_of(headers),
                                        data,
                                    },
                                ),
                            ),
                            None => Some(Entry::Field(lossy_text(name), lossy_text(data))),
                        }
                    },
                },
            },
        }
    }
}

/// What a part decodes to. Its header block must be complete, with four
/// headers at most; the rest is up to what the block holds.
pub open spec fn entry(part: Seq<u8>) -> Option<Entry> {
    match header_block(part, PART_HEADERS as nat) {
        None => None,
        Some((end, headers)) => entry_of(part, end, headers),
    }
}

/// The form made of the parts from the `k`th on, added to what `acc` holds.
pub open spec fn collect(body: Seq<u8>, parts: Seq<(int, int)>, k: int, acc: FormView) -> Option<
    FormView,
>
    decreases parts.len() - k,
{
    if k < 0 || k >= parts.len() {
        Some(acc)
    } else {
        match entry(body.subrange(parts[k].0, parts[k].1)) {
            None => None,
            Some(Entry::Field(name, value)) => collect(
                body,
                parts,
                k + 1,
                FormView { fields: acc.fields.push((name, value)), ..acc },
            ),
            Some(Entry::File(file)) => collect(
                body,
                parts,
                k + 1,
                FormView { files: acc.files.push(file), ..acc },
            ),
        }
    }
}

/// What a body with the given boundary decodes to.
pub open spec fn decoded(body: Seq<u8>, boundary: Seq<u8>) -> Option<FormView> {
    match frames(body, delimiter(boundary)) {
        None => None,
        Some(parts) => collect(
            body,
            parts,
            0,
            FormView { fields: Seq::empty(), files: Seq::empty() },
        ),
    }
}

impl FormData {
    pub fn new() -> (form: FormData)
        ensures
            form@.fields.len() == 0,
            form@.files.len() == 0,
    {
        FormData { fields: Vec::new(), files: Vec::new() }
    }

    pub fn has_file(&self) -> (r: bool)
        ensures
            r == (self@.files.len() > 0),
    {
        self.files.len() > 0
    }

    /// Adds the part whose header block ends at `end` and holds `headers`.
    /// Returns whether the part was well formed; the form is left as it was
    /// when it is not.
    pub fn add_entry(&mut self, part: &[u8], end: usize, headers: &Vec<(String, Vec<u8>)>) -> (ok:
        bool)
        ensures
            match entry_of(part@, end as nat, headers_view(headers@)) {
                None => !ok && *final(self) == *old(self),
                Some(Entry::Field(name, value)) => ok && final(self)@ == (FormView {
                    fields: old(self)@.fields.push((name, value)),
                    ..old(self)@
                }),
                Some(Entry::File(file)) => ok && final(self)@ == (FormView {
                    files: old(self)@.files.push(file),
                    ..old(self)@
                }),
            },
    {
        if end > part.len() {
            return false;
        }
        let value = match find_header(headers, "Content-Disposition") {
            Some(v) => v,
            None => {
                return false;
            },
        };
        let (name, filename) = match read_disposition(value.as_slice()) {
            Some(d) => d,
            None => {
                return false;
            },
        };
        let name = match name {
            Some(r) => utf8_lossy(slice_subrange(value.as_slice(), r.0, r.1)),
            None => {
                return false;
            },
        };
        let data = slice_subrange(part, end, part.len());
        match filename {
            Some(r) => {
                let filename = utf8_lossy(slice_subrange(value.as_slice(), r.0, r.1));
                let content_type = match find_header(headers, "Content-Type") {
                    Some(v) => match media_type(utf8_lossy(v.as_slice()).as_str()) {
                        Some(m) => m.text,
                        None => String::from_str("application/octet-stream"),
                    },
                    None => String::from_str("application/octet-stream"),
                };
                let file = FilePart { name, filename, content_type, data: slice_to_vec(data) };
                let ghost before = files_view(self.files@);
                self.files.push(file);
                assert(files_view(self.files@) =~= before.push(file@));
            },
            None => {
                let value = utf8_lossy(data);
                let ghost before = pairs_view(self.fields@);
                self.fields.push((name, value));
                assert(pairs_view(self.fields@) =~= before.push((name@, value@)));
            },
        }
        true
    }

    /// Decodes one part and adds it to the form. Returns whether the part
    /// was well formed; the form is left as it was when it is not.
    fn add_part(&mut self, part: &[u8]) -> (ok: bool)
        ensures
            match entry(part@) {
                None => !ok && *final(self) == *old(self),
                Some(Entry::Field(name, value)) => ok && final(self)@ == (FormView {
                    fields: old(self)@.fields.push((name, value)),
                    ..old(self)@
                }),
                Some(Entry::File(file)) => ok && final(self)@ == (FormView {
                    files: old(self)@.files.push(file),
                    ..old(self)@
                }),
            },
    {
        match parse_header_block(part, PART_HEADERS) {
            Some((end, headers)) => self.add_entry(part, end, &headers),
            None => false,
        }
    }

    /// Decodes a `multipart/form-data` body; a body that does not decode
    /// gives the empty form.
    pub fn with_body(body: &[u8], boundary: &str) -> (form: FormData)
        ensures
            form@ == match decoded(body@, boundary.spec_bytes()) {
                Some(f) => f,
                None => FormView { fields: Seq::empty(), files: Seq::empty() },
            },
    {
        match FormData::parse(body, boundary) {
            Some(form) => form,
            None => {
                let form = FormData::new();
                assert(form@.fields =~= Seq::empty());
                assert(form@.files =~= Seq::empty());
                form
            },
        }
    }

    /// Decodes a `multipart/form-data` body.
    ///
    /// The result is `None` unless the body is framed by the boundary from
    /// its first byte to its end and every part decodes.
    pub fn parse(body: &[u8], boundary: &str) -> (form: Option<FormData>)
        ensures
            match form {
                Some(f) => decoded(body@, boundary.spec_bytes()) == Some(f@),
                None => decoded(body@, boundary.spec_bytes()) is None,
            },
    {
        let mut delim: Vec<u8> = Vec::new();
        delim.push(45);
        delim.push(45);
        delim.extend_from_slice(boundary.as_bytes());
        assert(delim@ =~= delimiter(boundary.spec_bytes()));
        let parts = match split_parts(body, delim.as_slice()) {
            Some(p) => p,
            None => {
                return None;
            },
        };
        let mut form = FormData::new();
        assert(form@.fields =~= Seq::empty());
        assert(form@.files =~= Seq::empty());
        let mut k: usize = 0;
        while k < parts.len()
            invariant
                k <= parts@.len(),
                ranges_within(ranges_view(parts@), body@.len() as int),
                decoded(body@, boundary.spec_bytes()) == collect(
                    body@,
                    ranges_view(parts@),
                    k as int,
                    form@,
                ),
            decreases parts@.len() - k,
        {
            let (start, end) = parts[k];
            assert(ranges_view(parts@)[k as int] == (start as int, end as int));
            if !form.add_part(slice_subrange(body, start, end)) {
                return None;
            }
            k += 1;
        }
        Some(form)
    }
}

} // verus!
