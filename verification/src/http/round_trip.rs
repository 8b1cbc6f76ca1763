//! What the decoder makes of a body that the client side wrote.

use vstd::prelude::*;
use vstd::utf8::{encode_utf8, is_ascii_chars, is_ascii_chars_encode_utf8};
use crate::http::client::{body_bytes, part_bytes, parts_bytes, Field};
use crate::http::multipart::{
    collect, crlf_at, dashes_at, decoded, delimiter, ends_at, entry, frames, frames_from, Entry,
    FormView,
};
use crate::text::{find_from, lemma_find_from, lemma_find_from_unique, occurs_at};

verus! {

pub open spec fn line_break() -> Seq<u8> {
    seq![13u8, 10u8]
}

pub open spec fn dashes() -> Seq<u8> {
    seq![45u8, 45u8]
}

/// Whether a part can be told from what follows it: in the part, followed
/// by a line break and the delimiter, the delimiter does not occur before
/// the place where it was put.
pub open spec fn delimited(part: Seq<u8>, delim: Seq<u8>) -> bool {
    find_from(part + line_break() + delim, delim, 0) == Some(part.len() as int + 2)
}

/// The parts from the `k`th on, each behind a delimiter line and followed
/// by a line break, and the closing delimiter on a line of its own.
pub open spec fn wrapped(parts: Seq<Seq<u8>>, delim: Seq<u8>, k: int) -> Seq<u8>
    decreases parts.len() - k,
{
    if k < 0 || k >= parts.len() {
        delim + dashes() + line_break()
    } else {
        delim + line_break() + parts[k] + line_break() + wrapped(parts, delim, k + 1)
    }
}

/// `head`, a part, a line break, and what follows.
pub open spec fn glued(head: Seq<u8>, part: Seq<u8>, next: Seq<u8>) -> Seq<u8> {
    head + part + line_break() + next
}

proof fn lemma_glued(head: Seq<u8>, part: Seq<u8>, next: Seq<u8>, m: int)
    requires
        0 <= m <= next.len(),
    ensures
        glued(head, part, next).len() == head.len() as int + part.len() + 2 + next.len(),
        glued(head, part, next).subrange(head.len() as int, head.len() as int + part.len()) == part,
        crlf_at(glued(head, part, next), head.len() as int + part.len()),
        glued(head, part, next).subrange(
            head.len() as int + part.len() + 2,
            head.len() as int + part.len() + 2 + m,
        ) == next.subrange(0, m),
        glued(head, part, next).subrange(head.len() as int, head.len() as int + part.len() + 2 + m) == part
            + line_break() + next.subrange(0, m),
        forall|i: int|
            0 <= i < next.len() ==> glued(head, part, next)[head.len() as int + part.len() + 2 + i]
                == #[trigger] next[i],
{
    let g = glued(head, part, next);
    assert(g.subrange(head.len() as int, head.len() as int + part.len()) =~= part);
    assert(g.subrange(head.len() as int + part.len() + 2, head.len() as int + part.len() + 2 + m)
        =~= next.subrange(0, m));
    assert(g.subrange(head.len() as int, head.len() as int + part.len() + 2 + m) =~= part + line_break()
        + next.subrange(0, m));
}

proof fn lemma_glued_again(head: Seq<u8>, part: Seq<u8>, delim: Seq<u8>, second: Seq<u8>, next: Seq<u8>)
    ensures
        glued(head, part, delim + line_break() + second + line_break() + next) == glued(
            head + part + line_break() + delim + line_break(),
            second,
            next,
        ),
{
    assert(glued(head, part, delim + line_break() + second + line_break() + next) =~= glued(
        head + part + line_break() + delim + line_break(),
        second,
        next,
    ));
}

/// What is wrapped starts with the delimiter; a line break follows it
/// where a part comes, and dashes and the end where none does.
proof fn lemma_wrapped_starts(parts: Seq<Seq<u8>>, delim: Seq<u8>, k: int)
    requires
        0 <= k <= parts.len(),
    ensures
        wrapped(parts, delim, k).len() >= delim.len() + 4,
        wrapped(parts, delim, k).subrange(0, delim.len() as int) == delim,
        k == parts.len() ==> wrapped(parts, delim, k).len() == delim.len() + 4 && dashes_at(
            wrapped(parts, delim, k),
            delim.len() as int,
        ),
        k < parts.len() ==> crlf_at(wrapped(parts, delim, k), delim.len() as int) && !dashes_at(
            wrapped(parts, delim, k),
            delim.len() as int,
        ),
{
    let w = wrapped(parts, delim, k);
    if k == parts.len() {
        assert(w == delim + dashes() + line_break());
        assert(w.subrange(0, delim.len() as int) =~= delim);
        assert(w[delim.len() as int] == 45);
        assert(w[delim.len() as int + 1] == 45);
    } else {
        let next = wrapped(parts, delim, k + 1);
        assert(w == delim + line_break() + parts[k] + line_break() + next);
        assert(w.subrange(0, delim.len() as int) =~= delim);
        assert(w[delim.len() as int] == 13);
        assert(w[delim.len() as int + 1] == 10);
    }
}

/// Where the parts from the `k`th on lie, the `k`th starting at `cursor`.
pub open spec fn places(parts: Seq<Seq<u8>>, delim: Seq<u8>, k: int, cursor: int) -> Seq<(int, int)>
    decreases parts.len() - k,
{
    if k < 0 || k >= parts.len() {
        Seq::empty()
    } else {
        let end = cursor + parts[k].len();
        seq![(cursor, end)] + places(parts, delim, k + 1, end + 2 + delim.len() + 2)
    }
}

/// Whether the ranges from the `k`th part on hold the parts.
pub open spec fn holds_parts(body: Seq<u8>, ranges: Seq<(int, int)>, parts: Seq<Seq<u8>>, k: int) -> bool {
    &&& ranges.len() == parts.len() - k
    &&& forall|j: int|
        0 <= j < ranges.len() ==> 0 <= (#[trigger] ranges[j]).0 <= ranges[j].1 <= body.len()
            && body.subrange(ranges[j].0, ranges[j].1) == parts[k + j]
}

/// Up to the delimiter that follows a part, the delimiter does not occur.
proof fn lemma_next_delimiter(head: Seq<u8>, part: Seq<u8>, next: Seq<u8>, delim: Seq<u8>)
    requires
        delimited(part, delim),
        next.len() >= delim.len(),
        next.subrange(0, delim.len() as int) == delim,
    ensures
        find_from(glued(head, part, next), delim, head.len() as int) == Some(
            head.len() as int + part.len() + 2,
        ),
{
    let body = glued(head, part, next);
    let cursor = head.len() as int;
    let at = cursor + part.len() + 2;
    let probe = part + line_break() + delim;
    lemma_glued(head, part, next, delim.len() as int);
    assert(body.subrange(cursor, at + delim.len()) == probe);
    assert(body.subrange(at, at + delim.len()) == delim);
    lemma_find_from(probe, delim, 0);
    assert forall|p: int| cursor <= p < at implies !occurs_at(body, delim, p) by {
        if occurs_at(body, delim, p) {
            assert(probe.subrange(p - cursor, p - cursor + delim.len()) =~= body.subrange(
                p,
                p + delim.len(),
            ));
            assert(occurs_at(probe, delim, p - cursor));
        }
    }
    lemma_find_from_unique(body, delim, cursor, at);
}

/// The walk over the parts from the `k`th on, which starts at the end of
/// `head`.
#[verifier::rlimit(40)]
proof fn lemma_frames_from(parts: Seq<Seq<u8>>, delim: Seq<u8>, k: int, head: Seq<u8>)
    requires
        0 <= k < parts.len(),
        head.len() >= 2,
        forall|j: int| 0 <= j < parts.len() ==> delimited(#[trigger] parts[j], delim),
    ensures
        frames_from(
            glued(head, parts[k], wrapped(parts, delim, k + 1)),
            delim,
            head.len() as int,
        ) matches Some(ranges) && holds_parts(
            glued(head, parts[k], wrapped(parts, delim, k + 1)),
            ranges,
            parts,
            k,
        ),
    decreases parts.len() - k,
{
    let part = parts[k];
    let next = wrapped(parts, delim, k + 1);
    let body = glued(head, part, next);
    let cursor = head.len() as int;
    let at = cursor + part.len() + 2;
    let after = at + delim.len();
    lemma_wrapped_starts(parts, delim, k + 1);
    lemma_next_delimiter(head, part, next, delim);
    lemma_glued(head, part, next, delim.len() as int);
    assert(crlf_at(body, at - 2));
    assert(body[after] == next[delim.len() as int]);
    assert(body[after + 1] == next[delim.len() as int + 1]);
    let first = seq![(cursor, at - 2)];
    if k + 1 == parts.len() {
        assert(dashes_at(body, after));
        assert(ends_at(body, after + 2));
        assert(frames_from(body, delim, cursor) == Some(first));
        assert(holds_parts(body, first, parts, k));
    } else {
        assert(!dashes_at(body, after));
        assert(crlf_at(body, after));
        let longer = head + part + line_break() + delim + line_break();
        lemma_glued_again(head, part, delim, parts[k + 1], wrapped(parts, delim, k + 2));
        assert(body == glued(longer, parts[k + 1], wrapped(parts, delim, k + 2)));
        lemma_frames_from(parts, delim, k + 1, longer);
        assert(longer.len() == after + 2);
        let tail = frames_from(body, delim, after + 2).unwrap();
        let all = first + tail;
        assert(frames_from(body, delim, cursor) == Some(all));
        assert forall|j: int| 0 <= j < all.len() implies 0 <= (#[trigger] all[j]).0 <= all[j].1
            <= body.len() && body.subrange(all[j].0, all[j].1) == parts[k + j] by {
            if j > 0 {
                assert(all[j] == tail[j - 1]);
            }
        }
        assert(holds_parts(body, all, parts, k));
    }
}

/// The decoder splits what is wrapped at the parts that were wrapped.
proof fn lemma_frames_of_wrapped(parts: Seq<Seq<u8>>, delim: Seq<u8>)
    requires
        delim.len() >= 2,
        forall|j: int| 0 <= j < parts.len() ==> delimited(#[trigger] parts[j], delim),
    ensures
        frames(wrapped(parts, delim, 0), delim) matches Some(ranges) && holds_parts(
            wrapped(parts, delim, 0),
            ranges,
            parts,
            0,
        ),
{
    let body = wrapped(parts, delim, 0);
    lemma_wrapped_starts(parts, delim, 0);
    assert(occurs_at(body, delim, 0));
    if parts.len() == 0 {
        assert(ends_at(body, (delim.len() + 2) as int));
        assert(holds_parts(body, Seq::<(int, int)>::empty(), parts, 0));
    } else {
        let head = delim + line_break();
        assert(body =~= glued(head, parts[0], wrapped(parts, delim, 1)));
        lemma_frames_from(parts, delim, 0, head);
    }
}

/// The bytes of the fields.
pub open spec fn written(fields: Seq<Field>) -> Seq<Seq<u8>> {
    Seq::new(fields.len(), |j: int| part_bytes(fields[j]))
}

proof fn lemma_literals()
    ensures
        encode_utf8("--"@) == dashes(),
        encode_utf8("\r\n"@) == line_break(),
        encode_utf8("--\r\n"@) == dashes() + line_break(),
{
    reveal_strlit("--");
    reveal_strlit("\r\n");
    reveal_strlit("--\r\n");
    assert(is_ascii_chars("--"@));
    assert(is_ascii_chars("\r\n"@));
    assert(is_ascii_chars("--\r\n"@));
    is_ascii_chars_encode_utf8("--"@);
    is_ascii_chars_encode_utf8("\r\n"@);
    is_ascii_chars_encode_utf8("--\r\n"@);
    assert(encode_utf8("--"@) =~= dashes());
    assert(encode_utf8("\r\n"@) =~= line_break());
    assert(encode_utf8("--\r\n"@) =~= dashes() + line_break());
}

/// A body is its parts, wrapped.
proof fn lemma_body_is_wrapped(fields: Seq<Field>, boundary: Seq<u8>, k: int)
    requires
        0 <= k <= fields.len(),
    ensures
        parts_bytes(fields, boundary, k) + encode_utf8("--"@) + boundary + encode_utf8("--\r\n"@)
            == wrapped(written(fields), delimiter(boundary), k),
    decreases fields.len() - k,
{
    lemma_literals();
    let d = delimiter(boundary);
    let closing = encode_utf8("--"@) + boundary + encode_utf8("--\r\n"@);
    assert(closing =~= d + dashes() + line_break());
    if k == fields.len() {
        assert(parts_bytes(fields, boundary, k) + encode_utf8("--"@) + boundary + encode_utf8(
            "--\r\n"@,
        ) =~= closing);
    } else {
        lemma_body_is_wrapped(fields, boundary, k + 1);
        let next = parts_bytes(fields, boundary, k + 1);
        let part = part_bytes(fields[k]);
        assert(written(fields)[k] == part);
        assert(parts_bytes(fields, boundary, k) == encode_utf8("--"@) + boundary + encode_utf8(
            "\r\n"@,
        ) + part + encode_utf8("\r\n"@) + next);
        assert(parts_bytes(fields, boundary, k) + encode_utf8("--"@) + boundary + encode_utf8(
            "--\r\n"@,
        ) =~= d + line_break() + part + line_break() + (next + encode_utf8("--"@) + boundary
            + encode_utf8("--\r\n"@)));
    }
}

/// The decoder finds in a body exactly the parts that the client side
/// wrote into it, in their order.
///
/// This is the framing half of the round trip. It holds where every part
/// is delimited: the delimiter does not occur in a part, the line break
/// behind it and the delimiter that follows, before the place where that
/// delimiter was put. The other half, that each part decodes to the field
/// it was written from, rests on what the header parser makes of the
/// part's headers.
pub proof fn law_decoder_finds_the_parts_written(fields: Seq<Field>, boundary: Seq<u8>)
    requires
        forall|j: int| 0 <= j < fields.len() ==> delimited(
            #[trigger] part_bytes(fields[j]),
            delimiter(boundary),
        ),
    ensures
        frames(body_bytes(fields, boundary), delimiter(boundary)) matches Some(ranges)
            && holds_parts(body_bytes(fields, boundary), ranges, written(fields), 0),
{
    let d = delimiter(boundary);
    let parts = written(fields);
    lemma_body_is_wrapped(fields, boundary, 0);
    assert forall|j: int| 0 <= j < parts.len() implies delimited(#[trigger] parts[j], d) by {
        assert(parts[j] == part_bytes(fields[j]));
    }
    lemma_frames_of_wrapped(parts, d);
}

/// The form made of the parts from the `k`th on, each decoded by itself,
/// added to what `acc` holds; `None` if one of them does not decode.
pub open spec fn gathered(parts: Seq<Seq<u8>>, k: int, acc: FormView) -> Option<FormView>
    decreases parts.len() - k,
{
    if k < 0 || k >= parts.len() {
        Some(acc)
    } else {
        match entry(parts[k]) {
            None => None,
            Some(Entry::Field(name, value)) => gathered(
                parts,
                k + 1,
                FormView { fields: acc.fields.push((name, value)), ..acc },
            ),
            Some(Entry::File(file)) => gathered(
                parts,
                k + 1,
                FormView { files: acc.files.push(file), ..acc },
            ),
        }
    }
}

proof fn lemma_collect_gathers(
    body: Seq<u8>,
    ranges: Seq<(int, int)>,
    parts: Seq<Seq<u8>>,
    k: int,
    acc: FormView,
)
    requires
        0 <= k <= parts.len(),
        holds_parts(body, ranges, parts, 0),
    ensures
        collect(body, ranges, k, acc) == gathered(parts, k, acc),
    decreases parts.len() - k,
{
    if k < parts.len() {
        assert(body.subrange(ranges[k].0, ranges[k].1) == parts[k]);
        match entry(parts[k]) {
            None => {},
            Some(Entry::Field(name, value)) => {
                lemma_collect_gathers(
                    body,
                    ranges,
                    parts,
                    k + 1,
                    FormView { fields: acc.fields.push((name, value)), ..acc },
                );
            },
            Some(Entry::File(file)) => {
                lemma_collect_gathers(
                    body,
                    ranges,
                    parts,
                    k + 1,
                    FormView { files: acc.files.push(file), ..acc },
                );
            },
        }
    }
}

/// Decoding a body that the client side wrote is decoding the parts that
/// were written into it, one by one and in their order: nothing of the
/// framing gets into a part, and no part is lost or split.
///
/// This holds where every part is delimited.
pub proof fn law_decoding_what_was_written(fields: Seq<Field>, boundary: Seq<u8>)
    requires
        forall|j: int| 0 <= j < fields.len() ==> delimited(
            #[trigger] part_bytes(fields[j]),
            delimiter(boundary),
        ),
    ensures
        decoded(body_bytes(fields, boundary), boundary) == gathered(
            written(fields),
            0,
            FormView { fields: Seq::empty(), files: Seq::empty() },
        ),
{
    law_decoder_finds_the_parts_written(fields, boundary);
    let body = body_bytes(fields, boundary);
    let ranges = frames(body, delimiter(boundary)).unwrap();
    lemma_collect_gathers(
        body,
        ranges,
        written(fields),
        0,
        FormView { fields: Seq::empty(), files: Seq::empty() },
    );
}

} // verus!
