//! What the decoder makes of a part that the client side wrote.
//!
//! The decoder reads a part in two steps. A header parser finds the header
//! block; the decoder then looks up the `Content-Disposition` header, reads
//! the field name and the file name out of its value, and takes what
//! follows the block as the contents. This module is about the second
//! step: given the headers as they were written, a part reads back as the
//! field it was written from.

use vstd::prelude::*;
use vstd::string::*;
use vstd::utf8::{encode_utf8, is_ascii_chars, is_ascii_chars_encode_utf8};
use crate::http::client::{body_bytes, part_bytes, Data, Field};
use crate::http::multipart::{
    content_type_of, decoded, delimiter, disposition, disposition_from, entry, entry_of,
    filename_key, header_block, name_key, segment_end, with_segment, Disposition, Entry, FileView,
    FormView, PART_HEADERS,
};
use crate::http::round_trip::{delimited, gathered, law_decoding_what_was_written, written};
use crate::text::{drop_space, has_prefix, is_space, lossy_text, skip_space, trimmed};

verus! {

/// The value of the `Content-Disposition` header of a part with the given
/// field name and file name.
pub open spec fn disposition_value(name: Seq<u8>, filename: Option<Seq<u8>>) -> Seq<u8> {
    let named = encode_utf8("form-data; name=\""@) + name + encode_utf8("\""@);
    match filename {
        Some(f) => named + encode_utf8("; filename=\""@) + f + encode_utf8("\""@),
        None => named,
    }
}

/// The file name that is written for a field.
pub open spec fn filename_written(field: Field) -> Option<Seq<u8>> {
    match field.data {
        Data::File { filename: Some(f), content_type, data } => Some(encode_utf8(f@)),
        _ => None,
    }
}

/// The headers that are written for a field, each a name and a value.
pub open spec fn headers_written(field: Field) -> Seq<(Seq<char>, Seq<u8>)> {
    let first = (
        "Content-Disposition"@,
        disposition_value(encode_utf8(field.name@), filename_written(field)),
    );
    match field.data {
        Data::Text(value) => seq![first],
        Data::File { filename, content_type, data } => seq![
            first,
            ("Content-Type"@, encode_utf8(content_type@)),
        ],
    }
}

/// The contents that are written for a field.
pub open spec fn contents_written(field: Field) -> Seq<u8> {
    match field.data {
        Data::Text(value) => encode_utf8(value@),
        Data::File { filename, content_type, data } => data@,
    }
}

/// Where the header block of a written part ends: where its contents
/// start.
pub open spec fn head_len(field: Field) -> nat {
    (part_bytes(field).len() - contents_written(field).len()) as nat
}

/// What a written field reads back as. A file with a file name reads back
/// as a file. A text reads back as a text field, and so do the contents of
/// a stream that was written without a file name.
pub open spec fn read_back(field: Field) -> Entry {
    match filename_written(field) {
        Some(f) => Entry::File(
            FileView {
                name: lossy_text(encode_utf8(field.name@)),
                filename: lossy_text(f),
                content_type: content_type_of(headers_written(field)),
                data: contents_written(field),
            },
        ),
        None => Entry::Field(
            lossy_text(encode_utf8(field.name@)),
            lossy_text(contents_written(field)),
        ),
    }
}

/// A text without a semicolon.
pub open spec fn no_semicolon(bytes: Seq<u8>) -> bool {
    forall|i: int| 0 <= i < bytes.len() ==> #[trigger] bytes[i] != 59
}

/// A field whose name and file name hold no semicolon: the decoder splits
/// the value of `Content-Disposition` at every semicolon.
pub open spec fn readable(field: Field) -> bool {
    &&& no_semicolon(encode_utf8(field.name@))
    &&& filename_written(field) matches Some(f) ==> no_semicolon(f)
}

spec fn opening() -> Seq<u8> {
    seq![
        102u8, 111u8, 114u8, 109u8, 45u8, 100u8, 97u8, 116u8, 97u8, 59u8, 32u8, 110u8, 97u8, 109u8,
        101u8, 61u8, 34u8,
    ]
}

spec fn file_opening() -> Seq<u8> {
    seq![59u8, 32u8, 102u8, 105u8, 108u8, 101u8, 110u8, 97u8, 109u8, 101u8, 61u8, 34u8]
}

spec fn quote() -> Seq<u8> {
    seq![34u8]
}

proof fn lemma_value_literals()
    ensures
        encode_utf8("form-data; name=\""@) == opening(),
        encode_utf8("; filename=\""@) == file_opening(),
        encode_utf8("\""@) == quote(),
{
    reveal_strlit("form-data; name=\"");
    reveal_strlit("; filename=\"");
    reveal_strlit("\"");
    assert(is_ascii_chars("form-data; name=\""@));
    assert(is_ascii_chars("; filename=\""@));
    assert(is_ascii_chars("\""@));
    is_ascii_chars_encode_utf8("form-data; name=\""@);
    is_ascii_chars_encode_utf8("; filename=\""@);
    is_ascii_chars_encode_utf8("\""@);
    assert(encode_utf8("form-data; name=\""@) =~= opening());
    assert(encode_utf8("; filename=\""@) =~= file_opening());
    assert(encode_utf8("\""@) =~= quote());
}

proof fn lemma_segment_end(v: Seq<u8>, from: int, end: int)
    requires
        0 <= from <= end <= v.len(),
        forall|i: int| from <= i < end ==> #[trigger] v[i] != 59,
        end < v.len() ==> v[end] == 59,
    ensures
        segment_end(v, from) == end,
    decreases end - from,
{
    if from < end {
        assert(v[from] != 59);
        lemma_segment_end(v, from + 1, end);
    }
}

proof fn lemma_skip_space(v: Seq<u8>, from: int, lo: int)
    requires
        0 <= from <= lo < v.len(),
        forall|i: int| from <= i < lo ==> is_space(#[trigger] v[i]),
        !is_space(v[lo]),
    ensures
        skip_space(v, from) == lo,
    decreases lo - from,
{
    if from < lo {
        assert(is_space(v[from]));
        lemma_skip_space(v, from + 1, lo);
    }
}

/// A segment without white space at its end, behind `lo - from` blanks.
proof fn lemma_trimmed(v: Seq<u8>, from: int, lo: int, end: int)
    requires
        0 <= from <= lo < end <= v.len(),
        forall|i: int| from <= i < lo ==> is_space(#[trigger] v[i]),
        !is_space(v[lo]),
        !is_space(v[end - 1]),
    ensures
        trimmed(v, from, end) == v.subrange(lo, end),
{
    lemma_skip_space(v, from, lo);
    assert(drop_space(v, lo, end) == end);
}

/// The first segment, `form-data`, says nothing of the part.
proof fn lemma_first_segment(v: Seq<u8>, d: Disposition)
    requires
        v.len() > 17,
        v.subrange(0, 17) == opening(),
    ensures
        disposition_from(v, 0, d) == disposition_from(v, 10, d),
{
    assert forall|i: int| 0 <= i < 17 implies v[i] == opening()[i] by {
        assert(v.subrange(0, 17)[i] == v[i]);
    }
    assert forall|i: int| 0 <= i < 9 implies #[trigger] v[i] != 59 by {
        assert(v[i] == opening()[i]);
    }
    assert(v[9] == opening()[9]);
    lemma_segment_end(v, 0, 9);
    assert(v[0] == opening()[0]);
    assert(v[8] == opening()[8]);
    lemma_trimmed(v, 0, 0, 9);
    let seg = v.subrange(0, 9);
    assert(seg.subrange(0, 4)[0] == v[0]);
    assert(name_key()[0] == 110);
    assert(!has_prefix(seg, name_key()));
    assert(seg.subrange(0, 8)[1] == v[1]);
    assert(v[1] == opening()[1]);
    assert(filename_key()[1] == 105);
    assert(!has_prefix(seg, filename_key()));
    assert(with_segment(d, seg) == Some(d));
}

/// The segment that names the field.
proof fn lemma_name_segment(v: Seq<u8>, name: Seq<u8>, d: Disposition)
    requires
        v.len() >= 18 + name.len() as int,
        v.subrange(0, 17) == opening(),
        v.subrange(17, 17 + name.len() as int) == name,
        v[17 + name.len() as int] == 34,
        no_semicolon(name),
        v.len() > 18 + name.len() as int ==> v[18 + name.len() as int] == 59,
    ensures
        segment_end(v, 10) == 18 + name.len() as int,
        with_segment(d, trimmed(v, 10, 18 + name.len() as int)) == Some(Disposition { name: Some(name), ..d }),
{
    let end = 18 + name.len() as int;
    assert forall|i: int| 0 <= i < 17 implies v[i] == opening()[i] by {
        assert(v.subrange(0, 17)[i] == v[i]);
    }
    assert forall|i: int| 0 <= i < name.len() implies v[17 + i] == name[i] by {
        assert(v.subrange(17, 17 + name.len() as int)[i] == v[17 + i]);
    }
    assert forall|i: int| 10 <= i < end implies #[trigger] v[i] != 59 by {
        if i < 17 {
            assert(v[i] == opening()[i]);
        } else if i < 17 + name.len() as int {
            assert(v[17 + (i - 17)] == name[i - 17]);
        }
    }
    lemma_segment_end(v, 10, end);
    assert(v[10] == opening()[10]);
    assert(v[11] == opening()[11]);
    lemma_trimmed(v, 10, 11, end);
    let seg = v.subrange(11, end);
    assert(seg.subrange(0, 4) =~= name_key()) by {
        assert(v[11] == opening()[11]);
        assert(v[12] == opening()[12]);
        assert(v[13] == opening()[13]);
        assert(v[14] == opening()[14]);
    }
    assert(seg.subrange(6, seg.len() - 1) =~= name) by {
        assert forall|i: int| 0 <= i < name.len() implies seg.subrange(6, seg.len() - 1)[i] == name[i] by {
            assert(v[17 + i] == name[i]);
        }
    }
}

/// The segment that names the file.
proof fn lemma_file_segment(v: Seq<u8>, from: int, f: Seq<u8>, d: Disposition)
    requires
        0 <= from,
        v.len() == from + 12 + f.len() as int,
        v.subrange(from - 1, from + 11) == file_opening(),
        v.subrange(from + 11, from + 11 + f.len() as int) == f,
        v[from + 11 + f.len() as int] == 34,
        from >= 1,
        no_semicolon(f),
    ensures
        segment_end(v, from) == v.len(),
        with_segment(d, trimmed(v, from, v.len() as int)) == Some(
            Disposition { filename: Some(f), ..d },
        ),
{
    let end = v.len() as int;
    assert forall|i: int| 0 <= i < 12 implies v[from - 1 + i] == file_opening()[i] by {
        assert(v.subrange(from - 1, from + 11)[i] == v[from - 1 + i]);
    }
    assert forall|i: int| 0 <= i < f.len() implies v[from + 11 + i] == f[i] by {
        assert(v.subrange(from + 11, from + 11 + f.len() as int)[i] == v[from + 11 + i]);
    }
    assert forall|i: int| from <= i < end implies #[trigger] v[i] != 59 by {
        if i < from + 11 {
            assert(v[from - 1 + (i - from + 1)] == file_opening()[i - from + 1]);
        } else if i < from + 11 + f.len() as int {
            assert(v[from + 11 + (i - from - 11)] == f[i - from - 11]);
        }
    }
    lemma_segment_end(v, from, end);
    assert(v[from - 1 + 1] == file_opening()[1]);
    assert(v[from - 1 + 2] == file_opening()[2]);
    lemma_trimmed(v, from, from + 1, end);
    let seg = v.subrange(from + 1, end);
    assert(seg.subrange(0, 4)[0] == v[from + 1]);
    assert(name_key()[0] == 110);
    assert(!has_prefix(seg, name_key()));
    assert(seg.subrange(0, 8) =~= filename_key()) by {
        assert forall|i: int| 0 <= i < 8 implies seg.subrange(0, 8)[i] == filename_key()[i] by {
            assert(v[from - 1 + (i + 2)] == file_opening()[i + 2]);
        }
    }
    assert(seg.subrange(10, seg.len() - 1) =~= f) by {
        assert forall|i: int| 0 <= i < f.len() implies seg.subrange(10, seg.len() - 1)[i] == f[i] by {
            assert(v[from + 11 + i] == f[i]);
        }
    }
}

/// The decoder reads out of a `Content-Disposition` value the field name
/// and the file name that were written into it, where neither holds a
/// semicolon.
pub proof fn law_disposition_reads_back(name: Seq<u8>, filename: Option<Seq<u8>>)
    requires
        no_semicolon(name),
        filename matches Some(f) ==> no_semicolon(f),
    ensures
        disposition(disposition_value(name, filename)) == Some(
            Disposition { name: Some(name), filename },
        ),
{
    lemma_value_literals();
    let v = disposition_value(name, filename);
    let none = Disposition { name: None, filename: None };
    let named = Disposition { name: Some(name), filename: None };
    let end = 18 + name.len() as int;
    assert(v.subrange(0, 17) =~= opening());
    assert(v.subrange(17, 17 + name.len() as int) =~= name);
    lemma_first_segment(v, none);
    lemma_name_segment(v, name, none);
    match filename {
        Some(f) => {
            assert(v[end] == file_opening()[0]);
            assert(v.subrange(end, end + 12) =~= file_opening());
            assert(v.subrange(end + 12, end + 12 + f.len() as int) =~= f);
            lemma_file_segment(v, end + 1, f, named);
            assert(disposition_from(v, end + 1, named) == Some(
                Disposition { name: Some(name), filename },
            ));
            assert(disposition_from(v, 10, none) == disposition_from(v, end + 1, named));
        },
        None => {
            assert(disposition_from(v, 10, none) == Some(named));
        },
    }
}

/// Given its headers as they were written, a part that the client side
/// wrote reads back as the field it was written from: under its name, with
/// its file name and its contents, the texts decoded from the bytes that
/// were written for them.
pub proof fn law_written_part_reads_back(field: Field)
    requires
        readable(field),
    ensures
        entry_of(part_bytes(field), head_len(field), headers_written(field)) == Some(
            read_back(field),
        ),
{
    let part = part_bytes(field);
    let headers = headers_written(field);
    let contents = contents_written(field);
    law_disposition_reads_back(encode_utf8(field.name@), filename_written(field));
    assert(part.subrange(head_len(field) as int, part.len() as int) =~= contents);
    assert(headers[0].0 == "Content-Disposition"@);
}

/// The form that the fields from the `k`th on read back as, added to what
/// `acc` holds.
pub open spec fn form_read_back(fields: Seq<Field>, k: int, acc: FormView) -> FormView
    decreases fields.len() - k,
{
    if k < 0 || k >= fields.len() {
        acc
    } else {
        match read_back(fields[k]) {
            Entry::Field(name, value) => form_read_back(
                fields,
                k + 1,
                FormView { fields: acc.fields.push((name, value)), ..acc },
            ),
            Entry::File(file) => form_read_back(
                fields,
                k + 1,
                FormView { files: acc.files.push(file), ..acc },
            ),
        }
    }
}

/// Whether the header parser finds in the part of a field the headers that
/// were written for it.
pub open spec fn headers_found(field: Field) -> bool {
    header_block(part_bytes(field), PART_HEADERS as nat) == Some(
        (head_len(field), headers_written(field)),
    )
}

proof fn lemma_gathered_reads_back(fields: Seq<Field>, k: int, acc: FormView)
    requires
        0 <= k <= fields.len(),
        forall|j: int| 0 <= j < fields.len() ==> readable(#[trigger] fields[j]),
        forall|j: int| 0 <= j < fields.len() ==> headers_found(#[trigger] fields[j]),
    ensures
        gathered(written(fields), k, acc) == Some(form_read_back(fields, k, acc)),
    decreases fields.len() - k,
{
    if k < fields.len() {
        assert(readable(fields[k]));
        assert(headers_found(fields[k]));
        assert(written(fields)[k] == part_bytes(fields[k]));
        law_written_part_reads_back(fields[k]);
        assert(entry(written(fields)[k]) == Some(read_back(fields[k])));
        match read_back(fields[k]) {
            Entry::Field(name, value) => {
                lemma_gathered_reads_back(
                    fields,
                    k + 1,
                    FormView { fields: acc.fields.push((name, value)), ..acc },
                );
            },
            Entry::File(file) => {
                lemma_gathered_reads_back(
                    fields,
                    k + 1,
                    FormView { files: acc.files.push(file), ..acc },
                );
            },
        }
    }
}

/// Where the header parser finds in every part the headers that were
/// written for it, decoding a body that the client side wrote gives the
/// fields back: every field in its place among the text fields or the
/// files, in the order in which they were written.
///
/// This holds where every part is delimited and no name holds a semicolon.
pub proof fn law_written_form_reads_back(fields: Seq<Field>, boundary: Seq<u8>)
    requires
        forall|j: int| 0 <= j < fields.len() ==> delimited(
            #[trigger] part_bytes(fields[j]),
            delimiter(boundary),
        ),
        forall|j: int| 0 <= j < fields.len() ==> readable(#[trigger] fields[j]),
    ensures
        (forall|j: int| 0 <= j < fields.len() ==> headers_found(#[trigger] fields[j])) ==> decoded(
            body_bytes(fields, boundary),
            boundary,
        ) == Some(
            form_read_back(fields, 0, FormView { fields: Seq::empty(), files: Seq::empty() }),
        ),
{
    law_decoding_what_was_written(fields, boundary);
    if forall|j: int| 0 <= j < fields.len() ==> headers_found(#[trigger] fields[j]) {
        lemma_gathered_reads_back(
            fields,
            0,
            FormView { fields: Seq::empty(), files: Seq::empty() },
        );
    }
}

} // verus!
