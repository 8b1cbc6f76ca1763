//! The FastCGI wire format: lengths, name-value pairs and record frames.
//!
//! A length below 128 takes one byte. A longer one takes four, the first
//! with its high bit set, and must stay below 2^31. A pair is the length
//! of its name, the length of its value, the name and the value. A record
//! is a header of eight bytes, its content, and padding.

pub mod record;
pub mod session;

use vstd::prelude::*;
use vstd::slice::{slice_subrange, slice_to_vec};
use crate::text::str_eq;

verus! {

/// The part that an application plays in a request.
#[derive(Debug, Clone, Copy, PartialEq, Eq, Structural)]
pub enum Role {
    Responder,
    Authorizer,
    Filter,
}

impl Role {
    /// The number that stands for a role on the wire.
    pub open spec fn number(self) -> u16 {
        match self {
            Role::Responder => 1,
            Role::Authorizer => 2,
            Role::Filter => 3,
        }
    }

    pub fn code(&self) -> (code: u16)
        ensures
            code == self.number(),
    {
        match self {
            Role::Responder => 1,
            Role::Authorizer => 2,
            Role::Filter => 3,
        }
    }

    /// The role that a number stands for; a number that stands for none
    /// is handed back.
    pub open spec fn from_code_spec(code: u16) -> core::result::Result<Role, u16> {
        match code {
            1 => Ok(Role::Responder),
            2 => Ok(Role::Authorizer),
            3 => Ok(Role::Filter),
            _ => Err(code),
        }
    }

    pub fn from_code(code: u16) -> (role: core::result::Result<Role, u16>)
        ensures
            role == Self::from_code_spec(code),
            match role {
                Ok(r) => r.number() == code,
                Err(c) => c == code && forall|r: Role| r.number() != code,
            },
    {
        match code {
            1 => Ok(Role::Responder),
            2 => Ok(Role::Authorizer),
            3 => Ok(Role::Filter),
            _ => Err(code),
        }
    }
}

/// The largest length that can be written, and one more.
pub const LENGTH_LIMIT: u32 = 0x8000_0000;

/// The bytes of a length.
pub open spec fn length_bytes(n: nat) -> Seq<u8> {
    if n < 128 {
        seq![n as u8]
    } else {
        seq![
            (128 + n / 0x100_0000) as u8,
            (n / 0x1_0000 % 256) as u8,
            (n / 0x100 % 256) as u8,
            (n % 256) as u8,
        ]
    }
}

/// The length that stands at `at`, with the position behind it; `None`
/// where the bytes run out.
pub open spec fn length_at(bytes: Seq<u8>, at: int) -> Option<(nat, int)> {
    if at < 0 || at >= bytes.len() {
        None
    } else if bytes[at] < 128 {
        Some((bytes[at] as nat, at + 1))
    } else if at + 4 > bytes.len() {
        None
    } else {
        Some(
            (
                ((bytes[at] - 128) * 0x100_0000 + bytes[at + 1] * 0x1_0000 + bytes[at + 2] * 0x100
                    + bytes[at + 3]) as nat,
                at + 4,
            ),
        )
    }
}

/// Reads a length.
pub fn read_len(bytes: &[u8], at: usize) -> (r: Option<(u32, usize)>)
    ensures
        match r {
            Some((n, next)) => length_at(bytes@, at as int) == Some((n as nat, next as int)) && at
                < next <= bytes@.len() && n < LENGTH_LIMIT,
            None => length_at(bytes@, at as int) is None,
        },
{
    if at >= bytes.len() {
        return None;
    }
    let first = bytes[at];
    if first < 128 {
        return Some((first as u32, at + 1));
    }
    if bytes.len() - at < 4 {
        return None;
    }
    let n: u32 = (first - 128) as u32 * 0x100_0000 + bytes[at + 1] as u32 * 0x1_0000 + bytes[at
        + 2] as u32 * 0x100 + bytes[at + 3] as u32;
    Some((n, at + 4))
}

/// Writes a length.
pub fn write_len(buf: &mut Vec<u8>, n: u32)
    requires
        n < LENGTH_LIMIT,
    ensures
        final(buf)@ == old(buf)@ + length_bytes(n as nat),
{
    if n < 128 {
        buf.push(n as u8);
        assert(buf@ =~= old(buf)@ + length_bytes(n as nat));
    } else {
        buf.push((128 + n / 0x100_0000) as u8);
        buf.push((n / 0x1_0000 % 256) as u8);
        buf.push((n / 0x100 % 256) as u8);
        buf.push((n % 256) as u8);
        assert(buf@ =~= old(buf)@ + length_bytes(n as nat));
    }
}

/// A length that was written is read back.
pub proof fn law_length_round_trip(head: Seq<u8>, n: nat, tail: Seq<u8>)
    requires
        n < LENGTH_LIMIT,
    ensures
        length_at(head + length_bytes(n) + tail, head.len() as int) == Some(
            (n, head.len() as int + length_bytes(n).len()),
        ),
{
    let bytes = head + length_bytes(n) + tail;
    let at = head.len() as int;
    if n < 128 {
        assert(bytes[at] == n as u8);
    } else {
        assert(bytes[at] == (128 + n / 0x100_0000) as u8);
        assert(bytes[at + 1] == (n / 0x1_0000 % 256) as u8);
        assert(bytes[at + 2] == (n / 0x100 % 256) as u8);
        assert(bytes[at + 3] == (n % 256) as u8);
        assert(n == (n / 0x100_0000) * 0x100_0000 + (n / 0x1_0000 % 256) * 0x1_0000 + (n / 0x100
            % 256) * 0x100 + n % 256);
    }
}

/// The pair that stands at `at`, with the position behind it; `None`
/// where the bytes run out.
pub open spec fn pair_at(bytes: Seq<u8>, at: int) -> Option<((Seq<u8>, Seq<u8>), int)> {
    match length_at(bytes, at) {
        None => None,
        Some((name_len, second)) => match length_at(bytes, second) {
            None => None,
            Some((value_len, start)) => if start + name_len + value_len > bytes.len() {
                None
            } else {
                Some(
                    (
                        (
                            bytes.subrange(start, start + name_len),
                            bytes.subrange(start + name_len, start + name_len + value_len),
                        ),
                        start + name_len + value_len,
                    ),
                )
            },
        },
    }
}

/// The pairs that stand at `at` and behind it, up to where the bytes run
/// out.
pub open spec fn pairs_from(bytes: Seq<u8>, at: int) -> Seq<(Seq<u8>, Seq<u8>)>
    decreases bytes.len() - at,
{
    match pair_at(bytes, at) {
        Some((pair, next)) => if at < next {
            seq![pair] + pairs_from(bytes, next)
        } else {
            seq![pair]
        },
        None => Seq::empty(),
    }
}

pub open spec fn raw_pairs(pairs: Seq<(Vec<u8>, Vec<u8>)>) -> Seq<(Seq<u8>, Seq<u8>)> {
    pairs.map_values(|p: (Vec<u8>, Vec<u8>)| (p.0@, p.1@))
}

/// Reads a pair.
pub fn read_pair(bytes: &[u8], at: usize) -> (r: Option<((Vec<u8>, Vec<u8>), usize)>)
    ensures
        match r {
            Some((pair, next)) => pair_at(bytes@, at as int) == Some(
                ((pair.0@, pair.1@), next as int),
            ) && at < next <= bytes@.len(),
            None => pair_at(bytes@, at as int) is None,
        },
{
    let (name_len, second) = match read_len(bytes, at) {
        Some(r) => r,
        None => {
            return None;
        },
    };
    let (value_len, start) = match read_len(bytes, second) {
        Some(r) => r,
        None => {
            return None;
        },
    };
    let left = bytes.len() - start;
    if name_len as usize > left || value_len as usize > left - name_len as usize {
        return None;
    }
    let middle = start + name_len as usize;
    let end = middle + value_len as usize;
    let name = slice_to_vec(slice_subrange(bytes, start, middle));
    let value = slice_to_vec(slice_subrange(bytes, middle, end));
    Some(((name, value), end))
}

/// Reads pairs until the bytes run out.
pub fn read_pairs(bytes: &[u8]) -> (pairs: Vec<(Vec<u8>, Vec<u8>)>)
    ensures
        raw_pairs(pairs@) == pairs_from(bytes@, 0),
{
    let mut pairs: Vec<(Vec<u8>, Vec<u8>)> = Vec::new();
    let mut at: usize = 0;
    assert(raw_pairs(pairs@) =~= Seq::empty());
    loop
        invariant
            at <= bytes@.len(),
            pairs_from(bytes@, 0) == raw_pairs(pairs@) + pairs_from(bytes@, at as int),
        decreases bytes@.len() - at,
    {
        match read_pair(bytes, at) {
            Some((pair, next)) => {
                let ghost before = raw_pairs(pairs@);
                let ghost raw = (pair.0@, pair.1@);
                pairs.push(pair);
                proof {
                    assert(raw_pairs(pairs@) =~= before.push(raw));
                    assert(before + (seq![raw] + pairs_from(bytes@, next as int)) =~= raw_pairs(
                        pairs@,
                    ) + pairs_from(bytes@, next as int));
                }
                at = next;
            },
            None => {
                assert(raw_pairs(pairs@) + Seq::<(Seq<u8>, Seq<u8>)>::empty() =~= raw_pairs(pairs@));
                return pairs;
            },
        }
    }
}

/// The bytes of a pair.
pub open spec fn pair_bytes(pair: (Seq<u8>, Seq<u8>)) -> Seq<u8> {
    length_bytes(pair.0.len()) + length_bytes(pair.1.len()) + pair.0 + pair.1
}

/// The bytes of the pairs from the `from`th on.
pub open spec fn pairs_bytes(pairs: Seq<(Seq<u8>, Seq<u8>)>, from: int) -> Seq<u8>
    decreases pairs.len() - from,
{
    if from < 0 || from >= pairs.len() {
        Seq::empty()
    } else {
        pair_bytes(pairs[from]) + pairs_bytes(pairs, from + 1)
    }
}

/// Whether the names and values are short enough to be written.
pub open spec fn writable(pairs: Seq<(Seq<u8>, Seq<u8>)>) -> bool {
    forall|i: int|
        0 <= i < pairs.len() ==> (#[trigger] pairs[i]).0.len() < LENGTH_LIMIT && pairs[i].1.len()
            < LENGTH_LIMIT
}

proof fn lemma_pairs_bytes_push(pairs: Seq<(Seq<u8>, Seq<u8>)>, pair: (Seq<u8>, Seq<u8>), from: int)
    requires
        0 <= from <= pairs.len(),
    ensures
        pairs_bytes(pairs.push(pair), from) == pairs_bytes(pairs, from) + pair_bytes(pair),
    decreases pairs.len() - from,
{
    let longer = pairs.push(pair);
    if from < pairs.len() {
        lemma_pairs_bytes_push(pairs, pair, from + 1);
        assert(longer[from] == pairs[from]);
        assert(pairs_bytes(longer, from) =~= pairs_bytes(pairs, from) + pair_bytes(pair));
    } else {
        assert(longer[from] == pair);
        assert(pairs_bytes(longer, from + 1) =~= Seq::<u8>::empty());
        assert(pairs_bytes(longer, from) =~= pairs_bytes(pairs, from) + pair_bytes(pair));
    }
}

/// Writes pairs.
pub fn write_pairs(buf: &mut Vec<u8>, pairs: &Vec<(Vec<u8>, Vec<u8>)>)
    requires
        writable(raw_pairs(pairs@)),
    ensures
        final(buf)@ == old(buf)@ + pairs_bytes(raw_pairs(pairs@), 0),
{
    let mut k: usize = 0;
    assert(buf@ =~= old(buf)@ + pairs_bytes(raw_pairs(pairs@).subrange(0, 0), 0));
    while k < pairs.len()
        invariant
            k <= pairs@.len(),
            writable(raw_pairs(pairs@)),
            buf@ == old(buf)@ + pairs_bytes(raw_pairs(pairs@).subrange(0, k as int), 0),
        decreases pairs@.len() - k,
    {
        let ghost before = buf@;
        let ghost all = raw_pairs(pairs@);
        assert(all[k as int] == (pairs@[k as int].0@, pairs@[k as int].1@));
        write_len(buf, pairs[k].0.len() as u32);
        write_len(buf, pairs[k].1.len() as u32);
        buf.extend_from_slice(pairs[k].0.as_slice());
        buf.extend_from_slice(pairs[k].1.as_slice());
        proof {
            assert(buf@ =~= before + pair_bytes(all[k as int]));
            lemma_pairs_bytes_push(all.subrange(0, k as int), all[k as int], 0);
            assert(all.subrange(0, k + 1) =~= all.subrange(0, k as int).push(all[k as int]));
        }
        k += 1;
    }
    assert(raw_pairs(pairs@).subrange(0, k as int) =~= raw_pairs(pairs@));
}

/// A pair that was written is read back.
proof fn lemma_pair_round_trip(head: Seq<u8>, pair: (Seq<u8>, Seq<u8>), tail: Seq<u8>)
    requires
        pair.0.len() < LENGTH_LIMIT,
        pair.1.len() < LENGTH_LIMIT,
    ensures
        pair_at(head + pair_bytes(pair) + tail, head.len() as int) == Some(
            (pair, head.len() as int + pair_bytes(pair).len()),
        ),
        pair_bytes(pair).len() > 0,
{
    let bytes = head + pair_bytes(pair) + tail;
    let at = head.len() as int;
    let first = length_bytes(pair.0.len());
    let second = length_bytes(pair.1.len());
    assert(bytes =~= head + first + (second + pair.0 + pair.1 + tail));
    law_length_round_trip(head, pair.0.len(), second + pair.0 + pair.1 + tail);
    assert(bytes =~= (head + first) + second + (pair.0 + pair.1 + tail));
    law_length_round_trip(head + first, pair.1.len(), pair.0 + pair.1 + tail);
    let start = at + first.len() + second.len();
    assert(bytes.subrange(start, start + pair.0.len()) =~= pair.0);
    assert(bytes.subrange(start + pair.0.len(), start + pair.0.len() + pair.1.len()) =~= pair.1);
}

proof fn lemma_pairs_round_trip(head: Seq<u8>, pairs: Seq<(Seq<u8>, Seq<u8>)>, from: int)
    requires
        writable(pairs),
        0 <= from <= pairs.len(),
    ensures
        pairs_from(head + pairs_bytes(pairs, from), head.len() as int) == pairs.subrange(
            from,
            pairs.len() as int,
        ),
    decreases pairs.len() - from,
{
    let bytes = head + pairs_bytes(pairs, from);
    let at = head.len() as int;
    if from == pairs.len() {
        assert(pairs_bytes(pairs, from) =~= Seq::<u8>::empty());
        assert(bytes =~= head);
        assert(length_at(bytes, at) is None);
        assert(pairs.subrange(from, pairs.len() as int) =~= Seq::empty());
    } else {
        let pair = pairs[from];
        let tail = pairs_bytes(pairs, from + 1);
        assert(bytes =~= head + pair_bytes(pair) + tail);
        lemma_pair_round_trip(head, pair, tail);
        let longer = head + pair_bytes(pair);
        lemma_pairs_round_trip(longer, pairs, from + 1);
        assert(longer + tail =~= bytes);
        assert(pairs.subrange(from, pairs.len() as int) =~= seq![pair] + pairs.subrange(
            from + 1,
            pairs.len() as int,
        ));
    }
}

/// Pairs that were written are read back, each of them and in their
/// order.
pub proof fn law_pairs_round_trip(pairs: Seq<(Seq<u8>, Seq<u8>)>)
    requires
        writable(pairs),
    ensures
        pairs_from(pairs_bytes(pairs, 0), 0) == pairs,
{
    lemma_pairs_round_trip(Seq::empty(), pairs, 0);
    assert(Seq::<u8>::empty() + pairs_bytes(pairs, 0) =~= pairs_bytes(pairs, 0));
    assert(pairs.subrange(0, pairs.len() as int) =~= pairs);
}

/// What the application says of a variable that the server asks about:
/// it takes one connection and one request at a time and does not
/// multiplex. Of any other variable it says nothing.
pub open spec fn known_value(name: Seq<char>) -> Option<Seq<char>> {
    if name == "FCGI_MAX_CONNS"@ {
        Some("1"@)
    } else if name == "FCGI_MAX_REQS"@ {
        Some("1"@)
    } else if name == "FCGI_MPXS_CONNS"@ {
        Some("0"@)
    } else {
        None
    }
}

/// The answers to the names from the `from`th on, in their order.
pub open spec fn answers(names: Seq<Seq<char>>, from: int) -> Seq<(Seq<char>, Seq<char>)>
    decreases names.len() - from,
{
    if from < 0 || from >= names.len() {
        Seq::empty()
    } else {
        match known_value(names[from]) {
            Some(value) => seq![(names[from], value)] + answers(names, from + 1),
            None => answers(names, from + 1),
        }
    }
}

pub open spec fn names_of(keys: Seq<String>) -> Seq<Seq<char>> {
    keys.map_values(|k: String| k@)
}

pub open spec fn values_of(pairs: Seq<(String, String)>) -> Seq<(Seq<char>, Seq<char>)> {
    pairs.map_values(|p: (String, String)| (p.0@, p.1@))
}

proof fn lemma_answers_push(names: Seq<Seq<char>>, name: Seq<char>, from: int)
    requires
        0 <= from <= names.len(),
    ensures
        answers(names.push(name), from) == answers(names, from) + match known_value(name) {
            Some(value) => seq![(name, value)],
            None => Seq::empty(),
        },
    decreases names.len() - from,
{
    let longer = names.push(name);
    let last = match known_value(name) {
        Some(value) => seq![(name, value)],
        None => Seq::empty(),
    };
    if from < names.len() {
        lemma_answers_push(names, name, from + 1);
        assert(longer[from] == names[from]);
        assert(answers(longer, from) =~= answers(names, from) + last);
    } else {
        assert(longer[from] == name);
        assert(answers(longer, from + 1) =~= Seq::empty());
        assert(answers(longer, from) =~= answers(names, from) + last);
    }
}

/// Answers a request for the values of variables.
pub fn get_values(keys: Vec<String>) -> (values: Vec<(String, String)>)
    ensures
        values_of(values@) == answers(names_of(keys@), 0),
{
    let mut values: Vec<(String, String)> = Vec::new();
    let mut k: usize = 0;
    assert(values_of(values@) =~= answers(names_of(keys@).subrange(0, 0), 0));
    while k < keys.len()
        invariant
            k <= keys@.len(),
            values_of(values@) == answers(names_of(keys@).subrange(0, k as int), 0),
        decreases keys@.len() - k,
    {
        let ghost before = values_of(values@);
        let ghost names = names_of(keys@);
        let key = keys[k].as_str();
        proof {
            lemma_answers_push(names.subrange(0, k as int), names[k as int], 0);
            assert(names.subrange(0, k + 1) =~= names.subrange(0, k as int).push(names[k as int]));
        }
        if str_eq(key, "FCGI_MAX_CONNS") {
            values.push((keys[k].clone(), "1".to_owned()));
            assert(values_of(values@) =~= before + seq![(key@, "1"@)]);
        } else if str_eq(key, "FCGI_MAX_REQS") {
            values.push((keys[k].clone(), "1".to_owned()));
            assert(values_of(values@) =~= before + seq![(key@, "1"@)]);
        } else if str_eq(key, "FCGI_MPXS_CONNS") {
            values.push((keys[k].clone(), "0".to_owned()));
            assert(values_of(values@) =~= before + seq![(key@, "0"@)]);
        } else {
            assert(values_of(values@) =~= before + Seq::<(Seq<char>, Seq<char>)>::empty());
        }
        k += 1;
    }
    assert(names_of(keys@).subrange(0, k as int) =~= names_of(keys@));
    values
}

/// The length of a record header.
pub const HEADER_LEN: usize = 8;

/// The header of a record of version 1 without padding.
pub open spec fn header_bytes(record_type: u8, request_id: u16, length: nat) -> Seq<u8> {
    seq![
        1u8,
        record_type,
        (request_id / 256) as u8,
        (request_id % 256) as u8,
        (length / 256) as u8,
        (length % 256) as u8,
        0u8,
        0u8,
    ]
}

/// Writes a record: its header and its content.
pub fn write_record(buf: &mut Vec<u8>, record_type: u8, request_id: u16, content: &[u8])
    requires
        content@.len() <= u16::MAX,
    ensures
        final(buf)@ == old(buf)@ + header_bytes(record_type, request_id, content@.len()) + content@,
{
    let length = content.len();
    buf.push(1);
    buf.push(record_type);
    buf.push((request_id / 256) as u8);
    buf.push((request_id % 256) as u8);
    buf.push((length / 256) as u8);
    buf.push((length % 256) as u8);
    buf.push(0);
    buf.push(0);
    buf.extend_from_slice(content);
    assert(buf@ =~= old(buf)@ + header_bytes(record_type, request_id, content@.len()) + content@);
}

/// A record as it stands on the wire.
pub struct Frame {
    pub record_type: u8,
    pub request_id: u16,
    pub content: Seq<u8>,
}

/// The record that stands at `at`, with the position behind its padding;
/// `None` where the bytes run out or the version is not 1.
pub open spec fn frame_at(bytes: Seq<u8>, at: int) -> Option<(Frame, int)> {
    if at < 0 || at + 8 > bytes.len() || bytes[at] != 1 {
        None
    } else {
        let length = bytes[at + 4] * 256 + bytes[at + 5];
        let padding = bytes[at + 6] as int;
        if at + 8 + length + padding > bytes.len() {
            None
        } else {
            Some(
                (
                    Frame {
                        record_type: bytes[at + 1],
                        request_id: (bytes[at + 2] * 256 + bytes[at + 3]) as u16,
                        content: bytes.subrange(at + 8, at + 8 + length),
                    },
                    at + 8 + length + padding,
                ),
            )
        }
    }
}

/// Reads a record: its type, the number of its request, and its content.
pub fn read_record(bytes: &[u8], at: usize) -> (r: Option<((u8, u16, Vec<u8>), usize)>)
    ensures
        match r {
            Some(((record_type, request_id, content), next)) => frame_at(bytes@, at as int) == Some(
                (Frame { record_type, request_id, content: content@ }, next as int),
            ) && at < next <= bytes@.len(),
            None => frame_at(bytes@, at as int) is None,
        },
{
    if at > bytes.len() || bytes.len() - at < HEADER_LEN || bytes[at] != 1 {
        return None;
    }
    let record_type = bytes[at + 1];
    let request_id: u16 = bytes[at + 2] as u16 * 256 + bytes[at + 3] as u16;
    let length: usize = bytes[at + 4] as usize * 256 + bytes[at + 5] as usize;
    let padding: usize = bytes[at + 6] as usize;
    let left = bytes.len() - at - HEADER_LEN;
    if length + padding > left {
        return None;
    }
    let start = at + HEADER_LEN;
    let content = slice_to_vec(slice_subrange(bytes, start, start + length));
    Some(((record_type, request_id, content), start + length + padding))
}

/// A record that was written is read back.
pub proof fn law_record_round_trip(
    head: Seq<u8>,
    record_type: u8,
    request_id: u16,
    content: Seq<u8>,
    tail: Seq<u8>,
)
    requires
        content.len() <= u16::MAX,
    ensures
        frame_at(
            head + header_bytes(record_type, request_id, content.len()) + content + tail,
            head.len() as int,
        ) == Some(
            (Frame { record_type, request_id, content }, head.len() as int + 8 + content.len()),
        ),
{
    let header = header_bytes(record_type, request_id, content.len());
    let bytes = head + header + content + tail;
    let at = head.len() as int;
    assert forall|i: int| 0 <= i < 8 implies bytes[at + i] == header[i] by {}
    assert(bytes[at] == header[0]);
    assert(bytes[at + 1] == header[1]);
    assert(bytes[at + 2] == header[2]);
    assert(bytes[at + 3] == header[3]);
    assert(bytes[at + 4] == header[4]);
    assert(bytes[at + 5] == header[5]);
    assert(bytes[at + 6] == header[6]);
    assert(bytes.subrange(at + 8, at + 8 + content.len()) =~= content);
}

} // verus!
