//! Building a `multipart/form-data` body, for the client side.

use rand::Rng;
use vstd::prelude::*;
use vstd::string::*;
use vstd::utf8::encode_utf8;
use crate::error::Result;

verus! {

/// The length of a generated boundary.
pub const BOUNDARY_LEN: usize = 32;

/// An ASCII letter or digit.
pub open spec fn is_alphanumeric(c: char) -> bool {
    ('a' <= c && c <= 'z') || ('A' <= c && c <= 'Z') || ('0' <= c && c <= '9')
}

/// Draws `len` characters with the `Alphanumeric` distribution of the
/// `rand` crate from the generator of the thread. Which characters come is
/// chance; all of them are ASCII letters or digits.
#[verifier::external_body]
pub fn random_alphanumeric(len: usize) -> (text: String)
    ensures
        text@.len() == len,
        forall|i: int| 0 <= i < len ==> is_alphanumeric(#[trigger] text@[i]),
{
    rand::thread_rng().sample_iter(&rand::distributions::Alphanumeric).take(len).collect()
}

/// A fresh boundary.
pub fn gen_boundary() -> (boundary: String)
    ensures
        boundary@.len() == BOUNDARY_LEN,
        forall|i: int| 0 <= i < BOUNDARY_LEN ==> is_alphanumeric(#[trigger] boundary@[i]),
{
    random_alphanumeric(BOUNDARY_LEN)
}

/// What a field of the form holds.
#[derive(Debug, Clone, PartialEq)]
pub enum Data {
    /// A text.
    Text(String),
    /// The contents of a file or stream, with the file name, if any, and
    /// the media type.
    File { filename: Option<String>, content_type: String, data: Vec<u8> },
}

#[derive(Debug, Clone, PartialEq)]
pub struct Field {
    pub name: String,
    pub data: Data,
}

/// The bytes of a part: its headers, an empty line, and its contents.
pub open spec fn part_bytes(field: Field) -> Seq<u8> {
    let head = encode_utf8("Content-Disposition: form-data; name=\""@) + encode_utf8(field.name@)
        + encode_utf8("\""@);
    match field.data {
        Data::Text(value) => head + encode_utf8("\r\n\r\n"@) + encode_utf8(value@),
        Data::File { filename, content_type, data } => {
            let named = match filename {
                Some(f) => head + encode_utf8("; filename=\""@) + encode_utf8(f@) + encode_utf8("\""@),
                None => head,
            };
            named + encode_utf8("\r\nContent-Type: "@) + encode_utf8(content_type@) + encode_utf8(
                "\r\n\r\n"@,
            ) + data@
        },
    }
}

/// The bytes of the parts from the `from`th on, each behind a delimiter
/// line and followed by a line break.
pub open spec fn parts_bytes(fields: Seq<Field>, boundary: Seq<u8>, from: int) -> Seq<u8>
    decreases fields.len() - from,
{
    if from < 0 || from >= fields.len() {
        Seq::empty()
    } else {
        encode_utf8("--"@) + boundary + encode_utf8("\r\n"@) + part_bytes(fields[from]) + encode_utf8(
            "\r\n"@,
        ) + parts_bytes(fields, boundary, from + 1)
    }
}

/// The body of a form: its parts, and the closing delimiter on a line of
/// its own.
pub open spec fn body_bytes(fields: Seq<Field>, boundary: Seq<u8>) -> Seq<u8> {
    parts_bytes(fields, boundary, 0) + encode_utf8("--"@) + boundary + encode_utf8("--\r\n"@)
}

pub proof fn lemma_parts_push(fields: Seq<Field>, boundary: Seq<u8>, field: Field, from: int)
    requires
        0 <= from <= fields.len(),
    ensures
        parts_bytes(fields.push(field), boundary, from) == parts_bytes(fields, boundary, from)
            + parts_bytes(seq![field], boundary, 0),
    decreases fields.len() - from,
{
    let longer = fields.push(field);
    if from < fields.len() {
        lemma_parts_push(fields, boundary, field, from + 1);
        assert(longer[from] == fields[from]);
        assert(parts_bytes(longer, boundary, from) =~= parts_bytes(fields, boundary, from)
            + parts_bytes(seq![field], boundary, 0));
    } else {
        assert(longer[from] == field);
        assert(parts_bytes(longer, boundary, from + 1) =~= Seq::<u8>::empty());
        assert(parts_bytes(seq![field], boundary, 1) =~= Seq::<u8>::empty());
        assert(parts_bytes(longer, boundary, from) =~= parts_bytes(fields, boundary, from)
            + parts_bytes(seq![field], boundary, 0));
    }
}

/// Writes the headers of a part up to the name of the field.
fn write_head(buf: &mut Vec<u8>, name: &str)
    ensures
        final(buf)@ == old(buf)@ + (encode_utf8("Content-Disposition: form-data; name=\""@)
            + encode_utf8(name@) + encode_utf8("\""@)),
{
    buf.extend_from_slice("Content-Disposition: form-data; name=\"".as_bytes());
    buf.extend_from_slice(name.as_bytes());
    buf.extend_from_slice("\"".as_bytes());
    assert(buf@ =~= old(buf)@ + (encode_utf8("Content-Disposition: form-data; name=\""@)
        + encode_utf8(name@) + encode_utf8("\""@)));
}

/// Writes the file name of a part.
fn write_filename(buf: &mut Vec<u8>, filename: &str)
    ensures
        final(buf)@ == old(buf)@ + encode_utf8("; filename=\""@) + encode_utf8(filename@) + encode_utf8(
            "\""@,
        ),
{
    buf.extend_from_slice("; filename=\"".as_bytes());
    buf.extend_from_slice(filename.as_bytes());
    buf.extend_from_slice("\"".as_bytes());
}

/// Writes the media type of a part, the empty line and the contents.
fn write_contents(buf: &mut Vec<u8>, content_type: &str, data: &[u8])
    ensures
        final(buf)@ == old(buf)@ + encode_utf8("\r\nContent-Type: "@) + encode_utf8(content_type@)
            + encode_utf8("\r\n\r\n"@) + data@,
{
    buf.extend_from_slice("\r\nContent-Type: ".as_bytes());
    buf.extend_from_slice(content_type.as_bytes());
    buf.extend_from_slice("\r\n\r\n".as_bytes());
    buf.extend_from_slice(data);
}

/// Writes a part.
fn write_part(buf: &mut Vec<u8>, field: &Field)
    ensures
        final(buf)@ == old(buf)@ + part_bytes(*field),
{
    write_head(buf, field.name.as_str());
    let ghost head = encode_utf8("Content-Disposition: form-data; name=\""@) + encode_utf8(
        field.name@,
    ) + encode_utf8("\""@);
    match &field.data {
        Data::Text(value) => {
            buf.extend_from_slice("\r\n\r\n".as_bytes());
            buf.extend_from_slice(value.as_str().as_bytes());
            assert(buf@ =~= old(buf)@ + (head + encode_utf8("\r\n\r\n"@) + encode_utf8(value@)));
        },
        Data::File { filename, content_type, data } => {
            match filename {
                Some(f) => {
                    write_filename(buf, f.as_str());
                    let ghost named = head + encode_utf8("; filename=\""@) + encode_utf8(f@)
                        + encode_utf8("\""@);
                    assert(buf@ =~= old(buf)@ + named);
                    write_contents(buf, content_type.as_str(), data.as_slice());
                    assert(buf@ =~= old(buf)@ + (named + encode_utf8("\r\nContent-Type: "@)
                        + encode_utf8(content_type@) + encode_utf8("\r\n\r\n"@) + data@));
                },
                None => {
                    write_contents(buf, content_type.as_str(), data.as_slice());
                    assert(buf@ =~= old(buf)@ + (head + encode_utf8("\r\nContent-Type: "@)
                        + encode_utf8(content_type@) + encode_utf8("\r\n\r\n"@) + data@));
                },
            }
        },
    }
}

/// A form under construction.
#[derive(Debug)]
pub struct Multipart {
    fields: Vec<Field>,
}

impl Multipart {
    /// The fields in the order in which they were added.
    pub closed spec fn field_list(&self) -> Seq<Field> {
        self.fields@
    }

    /// The empty form.
    pub fn new() -> (form: Multipart)
        ensures
            form.field_list().len() == 0,
    {
        Multipart { fields: Vec::new() }
    }

    /// Adds a text field.
    pub fn add_text(&mut self, name: &str, value: &str) -> (r: &mut Multipart)
        ensures
            r.field_list().len() == old(self).field_list().len() + 1,
            r.field_list().drop_last() == old(self).field_list(),
            r.field_list().last().name@ == name@,
            r.field_list().last().data matches Data::Text(v) && v@ == value@,
            *final(self) == *final(r),
    {
        self.fields.push(Field { name: name.to_owned(), data: Data::Text(value.to_owned()) });
        assert(self.fields@.drop_last() =~= old(self).fields@);
        self
    }

    /// Adds the contents of a file or stream, with its file name, if it
    /// has one, and its media type, which is `application/octet-stream`
    /// where none is given.
    pub fn add_stream(
        &mut self,
        name: &str,
        stream: Vec<u8>,
        filename: Option<&str>,
        mime: Option<&str>,
    ) -> (r: &mut Multipart)
        ensures
            r.field_list().len() == old(self).field_list().len() + 1,
            r.field_list().drop_last() == old(self).field_list(),
            r.field_list().last().name@ == name@,
            r.field_list().last().data matches Data::File { filename: f, content_type, data } && data
                == stream && content_type@ == (match mime {
                Some(m) => m@,
                None => "application/octet-stream"@,
            }) && (match filename {
                Some(given) => f matches Some(kept) && kept@ == given@,
                None => f is None,
            }),
            *final(self) == *final(r),
    {
        let content_type = match mime {
            Some(m) => m.to_owned(),
            None => "application/octet-stream".to_owned(),
        };
        let filename = match filename {
            Some(f) => Some(f.to_owned()),
            None => None,
        };
        self.fields.push(
            Field { name: name.to_owned(), data: Data::File { filename, content_type, data: stream } },
        );
        assert(self.fields@.drop_last() =~= old(self).fields@);
        self
    }

    /// Writes the form out with the given boundary. The form is empty
    /// afterwards.
    pub fn encode(&mut self, boundary: &str) -> (body: Vec<u8>)
        ensures
            body@ == body_bytes(old(self).field_list(), boundary.spec_bytes()),
            final(self).field_list().len() == 0,
    {
        let mut fields: Vec<Field> = Vec::new();
        core::mem::swap(&mut self.fields, &mut fields);
        let mut buf: Vec<u8> = Vec::new();
        let mut k: usize = 0;
        assert(buf@ =~= parts_bytes(fields@.subrange(0, 0), boundary.spec_bytes(), 0));
        while k < fields.len()
            invariant
                k <= fields@.len(),
                buf@ == parts_bytes(fields@.subrange(0, k as int), boundary.spec_bytes(), 0),
            decreases fields@.len() - k,
        {
            let ghost before = buf@;
            buf.extend_from_slice("--".as_bytes());
            buf.extend_from_slice(boundary.as_bytes());
            buf.extend_from_slice("\r\n".as_bytes());
            write_part(&mut buf, &fields[k]);
            buf.extend_from_slice("\r\n".as_bytes());
            proof {
                let done = fields@.subrange(0, k as int);
                assert(fields@.subrange(0, k + 1) =~= done.push(fields@[k as int]));
                lemma_parts_push(done, boundary.spec_bytes(), fields@[k as int], 0);
                assert(parts_bytes(seq![fields@[k as int]], boundary.spec_bytes(), 1) =~= Seq::<
                    u8,
                >::empty());
                assert(buf@ =~= before + (encode_utf8("--"@) + boundary.spec_bytes() + encode_utf8(
                    "\r\n"@,
                ) + part_bytes(fields@[k as int]) + encode_utf8("\r\n"@)));
                assert(parts_bytes(seq![fields@[k as int]], boundary.spec_bytes(), 0) =~= encode_utf8(
                    "--"@,
                ) + boundary.spec_bytes() + encode_utf8("\r\n"@) + part_bytes(fields@[k as int])
                    + encode_utf8("\r\n"@));
            }
            k += 1;
        }
        assert(fields@.subrange(0, k as int) =~= fields@);
        buf.extend_from_slice("--".as_bytes());
        buf.extend_from_slice(boundary.as_bytes());
        buf.extend_from_slice("--\r\n".as_bytes());
        assert(buf@ =~= body_bytes(fields@, boundary.spec_bytes()));
        buf
    }

    /// Writes the form out with a fresh boundary and returns the boundary
    /// with the body. The form is empty afterwards.
    pub fn convert(&mut self) -> (r: Result<(String, Vec<u8>)>)
        ensures
            r matches Ok((boundary, body)) && body@ == body_bytes(
                old(self).field_list(),
                encode_utf8(boundary@),
            ) && boundary@.len() == BOUNDARY_LEN && (forall|i: int|
                0 <= i < BOUNDARY_LEN ==> is_alphanumeric(#[trigger] boundary@[i])),
            final(self).field_list().len() == 0,
    {
        let boundary = gen_boundary();
        let body = self.encode(boundary.as_str());
        Ok((boundary, body))
    }
}

} // verus!
