//! The records that a FastCGI application receives and sends.

use vstd::prelude::*;
use vstd::slice::slice_to_vec;
use vstd::string::*;
use vstd::utf8::encode_utf8;
use crate::fastcgi::{
    header_bytes, pairs_bytes, pairs_from, raw_pairs, read_pairs, writable, write_pairs,
    write_record, Role, LENGTH_LIMIT,
};
use crate::text::{lossy_text, utf8_lossy};

verus! {

/// How a request ended.
#[derive(Debug, Clone, Copy, PartialEq, Eq, Structural)]
pub enum ProtocolStatus {
    RequestComplete,
    CantMpxConn,
    Overloaded,
    UnknownRole,
}

impl ProtocolStatus {
    /// The number that stands for a status on the wire.
    pub open spec fn number(self) -> u8 {
        match self {
            ProtocolStatus::RequestComplete => 0,
            ProtocolStatus::CantMpxConn => 1,
            ProtocolStatus::Overloaded => 2,
            ProtocolStatus::UnknownRole => 3,
        }
    }

    pub fn code(&self) -> (code: u8)
        ensures
            code == self.number(),
    {
        match self {
            ProtocolStatus::RequestComplete => 0,
            ProtocolStatus::CantMpxConn => 1,
            ProtocolStatus::Overloaded => 2,
            ProtocolStatus::UnknownRole => 3,
        }
    }
}

#[derive(Debug, PartialEq, Eq)]
pub enum Record {
    BeginRequest { request_id: u16, role: core::result::Result<Role, u16>, keep_conn: bool },
    AbortRequest { request_id: u16 },
    EndRequest { request_id: u16, app_status: i32, protocol_status: ProtocolStatus },
    Params { request_id: u16, content: Vec<u8> },
    Stdin { request_id: u16, content: Vec<u8> },
    Stdout { request_id: u16, content: Vec<u8> },
    Stderr { request_id: u16, content: Vec<u8> },
    Data { request_id: u16, content: Vec<u8> },
    GetValues(Vec<String>),
    GetValuesResult(Vec<(String, String)>),
    UnknownType(u8),
}

/// An exit status as an unsigned number of 32 bits.
pub open spec fn unsigned(status: i32) -> nat {
    if status < 0 {
        (status + 0x1_0000_0000) as nat
    } else {
        status as nat
    }
}

/// The content of the record that ends a request: the exit status, most
/// significant byte first, the protocol status, and three bytes that are
/// reserved.
pub open spec fn end_bytes(status: i32, protocol: ProtocolStatus) -> Seq<u8> {
    let n = unsigned(status);
    seq![
        (n / 0x100_0000) as u8,
        (n / 0x1_0000 % 256) as u8,
        (n / 0x100 % 256) as u8,
        (n % 256) as u8,
        protocol.number(),
        0u8,
        0u8,
        0u8,
    ]
}

/// The content of the answer to a record of a type that is not known.
pub open spec fn unknown_bytes(record_type: u8) -> Seq<u8> {
    seq![record_type, 0u8, 0u8, 0u8, 0u8, 0u8, 0u8, 0u8]
}

pub open spec fn byte_pairs(pairs: Seq<(String, String)>) -> Seq<(Seq<u8>, Seq<u8>)> {
    pairs.map_values(|p: (String, String)| (encode_utf8(p.0@), encode_utf8(p.1@)))
}

/// The bytes of a record that an application may send: the end of a
/// request, output, error output, values, and the answer to an unknown
/// type. `None` for any other record, and for one whose content is too
/// long for a record.
pub open spec fn sent(record: Record) -> Option<Seq<u8>> {
    match record {
        Record::EndRequest { request_id, app_status, protocol_status } => Some(
            header_bytes(3, request_id, 8) + end_bytes(app_status, protocol_status),
        ),
        Record::Stdout { request_id, content } => if content@.len() <= u16::MAX {
            Some(header_bytes(6, request_id, content@.len()) + content@)
        } else {
            None
        },
        Record::Stderr { request_id, content } => if content@.len() <= u16::MAX {
            Some(header_bytes(7, request_id, content@.len()) + content@)
        } else {
            None
        },
        Record::GetValuesResult(items) => {
            let content = pairs_bytes(byte_pairs(items@), 0);
            if writable(byte_pairs(items@)) && content.len() <= u16::MAX {
                Some(header_bytes(10, 0, content.len()) + content)
            } else {
                None
            }
        },
        Record::UnknownType(record_type) => Some(header_bytes(11, 0, 8) + unknown_bytes(record_type)),
        _ => None,
    }
}

fn end_content(status: i32, protocol: ProtocolStatus) -> (content: Vec<u8>)
    ensures
        content@ == end_bytes(status, protocol),
{
    let n: i64 = if status < 0 {
        status as i64 + 0x1_0000_0000
    } else {
        status as i64
    };
    let mut content: Vec<u8> = Vec::new();
    content.push((n / 0x100_0000) as u8);
    content.push((n / 0x1_0000 % 256) as u8);
    content.push((n / 0x100 % 256) as u8);
    content.push((n % 256) as u8);
    content.push(protocol.code());
    content.push(0);
    content.push(0);
    content.push(0);
    assert(content@ =~= end_bytes(status, protocol));
    content
}

fn to_byte_pairs(items: &Vec<(String, String)>) -> (pairs: Vec<(Vec<u8>, Vec<u8>)>)
    ensures
        raw_pairs(pairs@) == byte_pairs(items@),
{
    let mut pairs: Vec<(Vec<u8>, Vec<u8>)> = Vec::new();
    let mut k: usize = 0;
    while k < items.len()
        invariant
            k <= items@.len(),
            pairs@.len() == k,
            forall|j: int|
                0 <= j < k ==> (#[trigger] pairs@[j]).0@ == encode_utf8(items@[j].0@) && pairs@[j].1@
                    == encode_utf8(items@[j].1@),
        decreases items@.len() - k,
    {
        pairs.push(
            (slice_to_vec(items[k].0.as_str().as_bytes()), slice_to_vec(items[k].1.as_str().as_bytes())),
        );
        k += 1;
    }
    assert(raw_pairs(pairs@) =~= byte_pairs(items@));
    pairs
}

fn all_writable(pairs: &Vec<(Vec<u8>, Vec<u8>)>) -> (ok: bool)
    ensures
        ok == writable(raw_pairs(pairs@)),
{
    let mut k: usize = 0;
    while k < pairs.len()
        invariant
            k <= pairs@.len(),
            forall|j: int|
                0 <= j < k ==> (#[trigger] raw_pairs(pairs@)[j]).0.len() < LENGTH_LIMIT && raw_pairs(
                    pairs@,
                )[j].1.len() < LENGTH_LIMIT,
        decreases pairs@.len() - k,
    {
        assert(raw_pairs(pairs@)[k as int] == (pairs@[k as int].0@, pairs@[k as int].1@));
        if pairs[k].0.len() >= LENGTH_LIMIT as usize || pairs[k].1.len() >= LENGTH_LIMIT as usize {
            return false;
        }
        k += 1;
    }
    true
}

impl Record {
    /// Writes the record. Returns whether it was written: only records
    /// that an application sends are, and only with content that fits into
    /// a record.
    pub fn send(&self, buf: &mut Vec<u8>) -> (ok: bool)
        ensures
            match sent(*self) {
                Some(bytes) => ok && final(buf)@ == old(buf)@ + bytes,
                None => !ok && final(buf)@ == old(buf)@,
            },
    {
        match self {
            Record::EndRequest { request_id, app_status, protocol_status } => {
                let content = end_content(*app_status, *protocol_status);
                write_record(buf, 3, *request_id, content.as_slice());
                assert(buf@ =~= old(buf)@ + (header_bytes(3, *request_id, 8) + content@));
                true
            },
            Record::Stdout { request_id, content } => {
                if content.len() > 65535 {
                    return false;
                }
                write_record(buf, 6, *request_id, content.as_slice());
                assert(buf@ =~= old(buf)@ + (header_bytes(6, *request_id, content@.len()) + content@));
                true
            },
            Record::Stderr { request_id, content } => {
                if content.len() > 65535 {
                    return false;
                }
                write_record(buf, 7, *request_id, content.as_slice());
                assert(buf@ =~= old(buf)@ + (header_bytes(7, *request_id, content@.len()) + content@));
                true
            },
            Record::GetValuesResult(items) => {
                let pairs = to_byte_pairs(items);
                if !all_writable(&pairs) {
                    return false;
                }
                let mut content: Vec<u8> = Vec::new();
                write_pairs(&mut content, &pairs);
                assert(content@ =~= pairs_bytes(byte_pairs(items@), 0));
                if content.len() > 65535 {
                    return false;
                }
                write_record(buf, 10, 0, content.as_slice());
                assert(buf@ =~= old(buf)@ + (header_bytes(10, 0, content@.len()) + content@));
                true
            },
            Record::UnknownType(record_type) => {
                let mut content: Vec<u8> = Vec::new();
                content.push(*record_type);
                content.push(0);
                content.push(0);
                content.push(0);
                content.push(0);
                content.push(0);
                content.push(0);
                content.push(0);
                assert(content@ =~= unknown_bytes(*record_type));
                write_record(buf, 11, 0, content.as_slice());
                assert(buf@ =~= old(buf)@ + (header_bytes(11, 0, 8) + content@));
                true
            },
            _ => false,
        }
    }
}

/// A `Record` as plain values where it is compared.
pub open spec fn names_view(names: Seq<String>) -> Seq<Seq<char>> {
    names.map_values(|n: String| n@)
}

/// The names of pairs, as text.
pub open spec fn names_in(pairs: Seq<(Seq<u8>, Seq<u8>)>) -> Seq<Seq<char>> {
    Seq::new(pairs.len(), |j: int| lossy_text(pairs[j].0))
}

/// Whether a record of this type can be received: the start and the abort
/// of a request, parameters, input, data, a request for values, and any
/// type from 11 on, which is answered as unknown.
pub open spec fn receivable(record_type: u8, content: Seq<u8>) -> bool {
    match record_type {
        1 => content.len() >= 3,
        2 | 4 | 5 | 8 | 9 => true,
        _ => record_type >= 11,
    }
}

/// Makes a record of what was read off the wire: the type, the number of
/// the request, and the content. `None` for a type that an application
/// does not receive, and for the start of a request that is too short.
pub fn receive(record_type: u8, request_id: u16, content: Vec<u8>) -> (record: Option<Record>)
    ensures
        record is Some == receivable(record_type, content@),
        match record {
            Some(Record::BeginRequest { request_id: id, role, keep_conn }) => {
                &&& record_type == 1
                &&& id == request_id
                &&& role == Role::from_code_spec((content@[0] * 256 + content@[1]) as u16)
                &&& keep_conn == (content@[2] % 2 == 1)
            },
            Some(Record::AbortRequest { request_id: id }) => record_type == 2 && id == request_id,
            Some(Record::Params { request_id: id, content: c }) => record_type == 4 && id
                == request_id && c == content,
            Some(Record::Stdin { request_id: id, content: c }) => record_type == 5 && id
                == request_id && c == content,
            Some(Record::Data { request_id: id, content: c }) => record_type == 8 && id
                == request_id && c == content,
            Some(Record::GetValues(names)) => record_type == 9 && names_view(names@) == names_in(
                pairs_from(content@, 0),
            ),
            Some(Record::UnknownType(t)) => record_type >= 11 && t == record_type,
            Some(_) => false,
            None => true,
        },
{
    if record_type == 1 {
        if content.len() < 3 {
            return None;
        }
        let code: u16 = content[0] as u16 * 256 + content[1] as u16;
        let keep_conn = content[2] % 2 == 1;
        Some(Record::BeginRequest { request_id, role: Role::from_code(code), keep_conn })
    } else if record_type == 2 {
        Some(Record::AbortRequest { request_id })
    } else if record_type == 4 {
        Some(Record::Params { request_id, content })
    } else if record_type == 5 {
        Some(Record::Stdin { request_id, content })
    } else if record_type == 8 {
        Some(Record::Data { request_id, content })
    } else if record_type == 9 {
        let pairs = read_pairs(content.as_slice());
        let mut names: Vec<String> = Vec::new();
        let mut k: usize = 0;
        while k < pairs.len()
            invariant
                k <= pairs@.len(),
                names@.len() == k,
                forall|j: int| 0 <= j < k ==> (#[trigger] names@[j])@ == lossy_text(pairs@[j].0@),
            decreases pairs@.len() - k,
        {
            names.push(utf8_lossy(pairs[k].0.as_slice()));
            k += 1;
        }
        proof {
            let raw = raw_pairs(pairs@);
            assert forall|j: int| 0 <= j < names@.len() implies names_view(names@)[j] == names_in(
                raw,
            )[j] by {
                assert(raw[j] == (pairs@[j].0@, pairs@[j].1@));
            }
            assert(names_view(names@) =~= names_in(raw));
        }
        Some(Record::GetValues(names))
    } else if record_type >= 11 {
        Some(Record::UnknownType(record_type))
    } else {
        None
    }
}

} // verus!
