//! What a FastCGI application does with the records that arrive.
//!
//! An application serves one request at a time on a connection. While it
//! waits for a request, collects its parameters or reads its input, the
//! server may ask for values, start another request or send records of
//! types that the application does not know; each of these has its answer.

use vstd::prelude::*;
use vstd::slice::slice_subrange;
use vstd::string::*;
use crate::fastcgi::record::{end_bytes, ProtocolStatus, Record};
use crate::fastcgi::{
    answers, get_values, header_bytes, names_of, pairs_from, raw_pairs, read_pairs, values_of,
    write_record, Role,
};
use crate::text::words::{cut, split, texts};
use crate::text::{lossy_text, str_eq, utf8_lossy};
use crate::util::string_map::StringMap;

verus! {

/// Whether `reply` is the answer that a record gets whatever the
/// application is doing: a record of unknown type is answered as unknown,
/// a request for values with the values, and the start of a request,
/// while another one is served, with the end of that request, since the
/// application does not multiplex.
pub open spec fn is_common_reply(record: Record, busy: bool, reply: Option<Record>) -> bool {
    match record {
        Record::UnknownType(t) => reply == Some(Record::UnknownType(t)),
        Record::GetValues(names) => reply matches Some(Record::GetValuesResult(values))
            && values_of(values@) == answers(names_of(names@), 0),
        Record::BeginRequest { request_id, role, keep_conn } => if busy {
            reply == Some(
                Record::EndRequest {
                    request_id,
                    app_status: 0,
                    protocol_status: ProtocolStatus::CantMpxConn,
                },
            )
        } else {
            reply is None
        },
        _ => reply is None,
    }
}

/// The answer that a record gets whatever the application is doing, and
/// the record itself where it gets none.
pub fn common_reply(record: Record, busy: bool) -> (r: core::result::Result<Record, Record>)
    ensures
        match r {
            Ok(reply) => is_common_reply(record, busy, Some(reply)),
            Err(same) => is_common_reply(record, busy, None) && same == record,
        },
{
    match record {
        Record::UnknownType(t) => Ok(Record::UnknownType(t)),
        Record::GetValues(names) => Ok(Record::GetValuesResult(get_values(names))),
        Record::BeginRequest { request_id, role, keep_conn } => {
            if busy {
                Ok(
                    Record::EndRequest {
                        request_id,
                        app_status: 0,
                        protocol_status: ProtocolStatus::CantMpxConn,
                    },
                )
            } else {
                Err(Record::BeginRequest { request_id, role, keep_conn })
            }
        },
        other => Err(other),
    }
}

/// What a record means to an application that waits for a request.
#[derive(Debug, PartialEq, Eq)]
pub enum Waiting {
    /// The record is answered.
    Reply(Record),
    /// A request starts.
    Start { request_id: u16, role: Role, keep_conn: bool },
    /// The record is passed over.
    Ignore,
}

/// Takes a record while no request is served. The start of a request in a
/// role that the application knows starts it; in any other role it is
/// ended at once.
pub fn begin(record: Record) -> (r: Waiting)
    ensures
        match record {
            Record::BeginRequest { request_id, role: Ok(role), keep_conn } => r == (Waiting::Start {
                request_id,
                role,
                keep_conn,
            }),
            Record::BeginRequest { request_id, role: Err(_), keep_conn } => r == Waiting::Reply(
                Record::EndRequest {
                    request_id,
                    app_status: 0,
                    protocol_status: ProtocolStatus::UnknownRole,
                },
            ),
            _ => match r {
                Waiting::Reply(reply) => is_common_reply(record, false, Some(reply)),
                Waiting::Ignore => is_common_reply(record, false, None),
                Waiting::Start { .. } => false,
            },
        },
{
    match common_reply(record, false) {
        Ok(reply) => Waiting::Reply(reply),
        Err(Record::BeginRequest { request_id, role, keep_conn }) => match role {
            Ok(role) => Waiting::Start { request_id, role, keep_conn },
            Err(_) => Waiting::Reply(
                Record::EndRequest {
                    request_id,
                    app_status: 0,
                    protocol_status: ProtocolStatus::UnknownRole,
                },
            ),
        },
        Err(_) => Waiting::Ignore,
    }
}

/// What a record means to an application that serves a request.
#[derive(Debug, PartialEq, Eq)]
pub enum Serving {
    /// The record is answered.
    Reply(Record),
    /// The record was taken in; more is to come.
    More,
    /// The parameters are complete, or input has arrived.
    Ready,
    /// The request was aborted.
    Aborted,
    /// The record is passed over.
    Ignore,
}

pub struct Request {
    id: u16,
    role: Role,
    params: StringMap,
    aborted: bool,
    status: i32,
    /// The bytes of the parameters that have arrived.
    pending: Vec<u8>,
    buf: Vec<u8>,
    pos: usize,
    is_eof: bool,
    filter_data: bool,
}

/// A `Request` as plain values.
pub struct RequestState {
    pub id: u16,
    pub role: Role,
    pub params: Map<Seq<char>, Seq<char>>,
    pub aborted: bool,
    pub status: i32,
    pub pending: Seq<u8>,
    pub buf: Seq<u8>,
    pub pos: int,
    pub is_eof: bool,
    pub filter_data: bool,
}

impl View for Request {
    type V = RequestState;

    closed spec fn view(&self) -> RequestState {
        RequestState {
            id: self.id,
            role: self.role,
            params: self.params@,
            aborted: self.aborted,
            status: self.status,
            pending: self.pending@,
            buf: self.buf@,
            pos: self.pos as int,
            is_eof: self.is_eof,
            filter_data: self.filter_data,
        }
    }
}

/// A map with the pairs from the `from`th on set in it, names and values
/// read as text, one after the other.
pub open spec fn with_pairs(
    map: Map<Seq<char>, Seq<char>>,
    pairs: Seq<(Seq<u8>, Seq<u8>)>,
    from: int,
) -> Map<Seq<char>, Seq<char>>
    decreases pairs.len() - from,
{
    if from < 0 || from >= pairs.len() {
        map
    } else {
        with_pairs(
            map.insert(lossy_text(pairs[from].0), lossy_text(pairs[from].1)),
            pairs,
            from + 1,
        )
    }
}

/// The records that end a request: an empty record of output, an empty
/// record of error output, and the end of the request with the exit
/// status.
pub open spec fn closing_bytes(id: u16, status: i32) -> Seq<u8> {
    header_bytes(6, id, 0) + header_bytes(7, id, 0) + header_bytes(3, id, 8) + end_bytes(
        status,
        ProtocolStatus::RequestComplete,
    )
}

impl Request {
    /// What holds of every request: the position lies within the buffer.
    pub open spec fn wf(&self) -> bool {
        0 <= self@.pos <= self@.buf.len()
    }

    /// The request that a server has just started.
    pub fn new(id: u16, role: Role) -> (request: Request)
        ensures
            request.wf(),
            request@ == (RequestState {
                id,
                role,
                params: Map::empty(),
                aborted: false,
                status: 0,
                pending: Seq::empty(),
                buf: Seq::empty(),
                pos: 0,
                is_eof: false,
                filter_data: false,
            }),
    {
        Request {
            id,
            role,
            params: StringMap::new(),
            aborted: false,
            status: 0,
            pending: Vec::new(),
            buf: Vec::new(),
            pos: 0,
            is_eof: false,
            filter_data: false,
        }
    }

    /// Takes a record while the parameters are collected. Parameter
    /// records of this request are gathered until an empty one closes
    /// them; then the pairs in what was gathered become the parameters. An
    /// abort of this request aborts it. Records of other requests are
    /// passed over.
    pub fn collect(&mut self, record: Record) -> (r: Serving)
        requires
            old(self).wf(),
        ensures
            final(self).wf(),
            match record {
                Record::Params { request_id, content } => if request_id != old(self)@.id {
                    r == Serving::Ignore && final(self)@ == old(self)@
                } else if content@.len() > 0 {
                    r == Serving::More && final(self)@ == (RequestState {
                        pending: old(self)@.pending + content@,
                        ..old(self)@
                    })
                } else {
                    r == Serving::Ready && final(self)@ == (RequestState {
                        params: with_pairs(old(self)@.params, pairs_from(old(self)@.pending, 0), 0),
                        ..old(self)@
                    })
                },
                Record::AbortRequest { request_id } => if request_id != old(self)@.id {
                    r == Serving::Ignore && final(self)@ == old(self)@
                } else {
                    r == Serving::Aborted && final(self)@ == (RequestState {
                        aborted: true,
                        ..old(self)@
                    })
                },
                _ => final(self)@ == old(self)@ && match r {
                    Serving::Reply(reply) => is_common_reply(record, true, Some(reply)),
                    Serving::Ignore => is_common_reply(record, true, None),
                    _ => false,
                },
            },
    {
        match common_reply(record, true) {
            Ok(reply) => Serving::Reply(reply),
            Err(Record::Params { request_id, content }) => {
                if request_id != self.id {
                    Serving::Ignore
                } else if content.len() > 0 {
                    self.pending.extend_from_slice(content.as_slice());
                    assert(self@.pending == old(self)@.pending + content@);
                    Serving::More
                } else {
                    let pairs = read_pairs(self.pending.as_slice());
                    let ghost raw = raw_pairs(pairs@);
                    let mut k: usize = 0;
                    while k < pairs.len()
                        invariant
                            k <= pairs@.len(),
                            raw == raw_pairs(pairs@),
                            self@ == (RequestState { params: self@.params, ..old(self)@ }),
                            with_pairs(old(self)@.params, raw, 0) == with_pairs(
                                self@.params,
                                raw,
                                k as int,
                            ),
                        decreases pairs@.len() - k,
                    {
                        assert(raw[k as int] == (pairs@[k as int].0@, pairs@[k as int].1@));
                        let name = utf8_lossy(pairs[k].0.as_slice());
                        let value = utf8_lossy(pairs[k].1.as_slice());
                        self.params.insert(name, value);
                        k += 1;
                    }
                    Serving::Ready
                }
            },
            Err(Record::AbortRequest { request_id }) => {
                if request_id != self.id {
                    Serving::Ignore
                } else {
                    self.aborted = true;
                    Serving::Aborted
                }
            },
            Err(_) => Serving::Ignore,
        }
    }

    /// Whether the input is used up and more is to be asked for.
    pub fn needs_input(&self) -> (r: bool)
        ensures
            r == (!self@.aborted && self@.pos == self@.buf.len() && !self@.is_eof),
    {
        !self.aborted && self.pos == self.buf.len() && !self.is_eof
    }

    /// Takes a record while input is read. The next record of the stream
    /// that is being read, input or, for a filter, data, replaces what was
    /// buffered; an empty one ends the stream. An abort of this request
    /// aborts it. Records of other requests are passed over.
    pub fn fill(&mut self, record: Record) -> (r: Serving)
        requires
            old(self).wf(),
        ensures
            final(self).wf(),
            match record {
                Record::Stdin { request_id, content } => if old(self)@.filter_data || request_id != old(
                    self,
                )@.id {
                    r == Serving::Ignore && final(self)@ == old(self)@
                } else {
                    r == Serving::Ready && final(self)@ == (RequestState {
                        buf: content@,
                        pos: 0,
                        is_eof: old(self)@.is_eof || content@.len() == 0,
                        ..old(self)@
                    })
                },
                Record::Data { request_id, content } => if !old(self)@.filter_data || request_id
                    != old(self)@.id {
                    r == Serving::Ignore && final(self)@ == old(self)@
                } else {
                    r == Serving::Ready && final(self)@ == (RequestState {
                        buf: content@,
                        pos: 0,
                        is_eof: old(self)@.is_eof || content@.len() == 0,
                        ..old(self)@
                    })
                },
                Record::AbortRequest { request_id } => if request_id != old(self)@.id {
                    r == Serving::Ignore && final(self)@ == old(self)@
                } else {
                    r == Serving::Aborted && final(self)@ == (RequestState {
                        aborted: true,
                        ..old(self)@
                    })
                },
                _ => final(self)@ == old(self)@ && match r {
                    Serving::Reply(reply) => is_common_reply(record, true, Some(reply)),
                    Serving::Ignore => is_common_reply(record, true, None),
                    _ => false,
                },
            },
    {
        match common_reply(record, true) {
            Ok(reply) => Serving::Reply(reply),
            Err(Record::Stdin { request_id, content }) => {
                if self.filter_data || request_id != self.id {
                    Serving::Ignore
                } else {
                    self.take(content);
                    Serving::Ready
                }
            },
            Err(Record::Data { request_id, content }) => {
                if !self.filter_data || request_id != self.id {
                    Serving::Ignore
                } else {
                    self.take(content);
                    Serving::Ready
                }
            },
            Err(Record::AbortRequest { request_id }) => {
                if request_id != self.id {
                    Serving::Ignore
                } else {
                    self.aborted = true;
                    Serving::Aborted
                }
            },
            Err(_) => Serving::Ignore,
        }
    }

    fn take(&mut self, content: Vec<u8>)
        ensures
            final(self)@ == (RequestState {
                buf: content@,
                pos: 0,
                is_eof: old(self)@.is_eof || content@.len() == 0,
                ..old(self)@
            }),
    {
        if content.len() == 0 {
            self.is_eof = true;
        }
        self.buf = content;
        self.pos = 0;
    }

    /// The input that is buffered and not read yet.
    pub fn buffered(&self) -> (bytes: &[u8])
        requires
            self.wf(),
        ensures
            bytes@ == self@.buf.subrange(self@.pos, self@.buf.len() as int),
    {
        slice_subrange(self.buf.as_slice(), self.pos, self.buf.len())
    }

    /// Marks buffered input as read: `amount` bytes, or all there is.
    pub fn consume(&mut self, amount: usize)
        requires
            old(self).wf(),
        ensures
            final(self).wf(),
            final(self)@ == (RequestState {
                pos: if amount <= old(self)@.buf.len() - old(self)@.pos {
                    old(self)@.pos + amount
                } else {
                    old(self)@.buf.len() as int
                },
                ..old(self)@
            }),
    {
        if amount <= self.buf.len() - self.pos {
            self.pos = self.pos + amount;
        } else {
            self.pos = self.buf.len();
        }
    }

    /// Turns to the second stream of a filter, the data. This can be done
    /// once the input has ended; the result says whether it was done, or
    /// had been done before.
    pub fn start_filter_data(&mut self) -> (ok: bool)
        ensures
            ok == (old(self)@.filter_data || old(self)@.is_eof),
            final(self)@ == if !old(self)@.filter_data && old(self)@.is_eof {
                RequestState { is_eof: false, filter_data: true, ..old(self)@ }
            } else {
                old(self)@
            },
    {
        if self.filter_data {
            true
        } else if self.is_eof {
            self.is_eof = false;
            self.filter_data = true;
            true
        } else {
            false
        }
    }

    /// The number of the request.
    pub fn id(&self) -> (id: u16)
        ensures
            id == self@.id,
    {
        self.id
    }

    pub fn role(&self) -> (role: Role)
        ensures
            role == self@.role,
    {
        self.role
    }

    /// The value of a parameter.
    pub fn param(&self, key: &str) -> (value: Option<String>)
        ensures
            match value {
                Some(v) => self@.params.contains_key(key@) && self@.params[key@] == v@,
                None => !self@.params.contains_key(key@),
            },
    {
        match self.params.get(key) {
            Some(v) => Some(v.clone()),
            None => None,
        }
    }

    /// The parameters.
    pub fn params(&self) -> (params: &StringMap)
        ensures
            params@ == self@.params,
    {
        &self.params
    }

    /// Whether the client has given the request up.
    pub fn is_aborted(&self) -> (aborted: bool)
        ensures
            aborted == self@.aborted,
    {
        self.aborted
    }

    /// Sets the exit status that the server is told at the end.
    pub fn exit(&mut self, code: i32)
        ensures
            final(self)@ == (RequestState { status: code, ..old(self)@ }),
    {
        self.status = code;
    }

    /// The records that end the request: the end of the output, the end of
    /// the error output, and the end of the request with the exit status.
    pub fn finish(self) -> (bytes: Vec<u8>)
        ensures
            bytes@ == closing_bytes(self@.id, self@.status),
    {
        let mut bytes: Vec<u8> = Vec::new();
        let out = Record::Stdout { request_id: self.id, content: Vec::new() };
        let err = Record::Stderr { request_id: self.id, content: Vec::new() };
        let end = Record::EndRequest {
            request_id: self.id,
            app_status: self.status,
            protocol_status: ProtocolStatus::RequestComplete,
        };
        out.send(&mut bytes);
        err.send(&mut bytes);
        end.send(&mut bytes);
        assert(bytes@ =~= closing_bytes(self.id, self.status));
        bytes
    }
}

/// The largest content of a record.
pub const CHUNK: usize = 65535;

/// The records that carry `data` from the `from`th byte on, each with as
/// much content as a record takes.
pub open spec fn stream_bytes(record_type: u8, request_id: u16, data: Seq<u8>, from: int) -> Seq<u8>
    decreases data.len() - from,
{
    if from < 0 || from >= data.len() {
        Seq::empty()
    } else {
        let end = if data.len() - from > CHUNK {
            from + CHUNK
        } else {
            data.len() as int
        };
        header_bytes(record_type, request_id, (end - from) as nat) + data.subrange(
            from,
            end,
        ) + stream_bytes(record_type, request_id, data, end)
    }
}

/// Writes data as records of the given type: 6 for output, 7 for error
/// output. Nothing is written for no data.
pub fn write_stream(buf: &mut Vec<u8>, record_type: u8, request_id: u16, data: &[u8])
    ensures
        final(buf)@ == old(buf)@ + stream_bytes(record_type, request_id, data@, 0),
{
    let n = data.len();
    let mut from: usize = 0;
    let ghost mut done: Seq<u8> = Seq::empty();
    assert(buf@ =~= old(buf)@ + done);
    while from < n
        invariant
            n == data@.len(),
            from <= n,
            buf@ == old(buf)@ + done,
            stream_bytes(record_type, request_id, data@, 0) == done + stream_bytes(
                record_type,
                request_id,
                data@,
                from as int,
            ),
        decreases n - from,
    {
        let end = if n - from > CHUNK {
            from + CHUNK
        } else {
            n
        };
        let chunk = slice_subrange(data, from, end);
        let ghost before = buf@;
        write_record(buf, record_type, request_id, chunk);
        proof {
            let piece = header_bytes(record_type, request_id, (end - from) as nat)
                + data@.subrange(from as int, end as int);
            assert(buf@ =~= before + piece);
            assert(done + (piece + stream_bytes(record_type, request_id, data@, end as int)) =~= (done
                + piece) + stream_bytes(record_type, request_id, data@, end as int));
            done = done + piece;
            assert(buf@ =~= old(buf)@ + done);
        }
        from = end;
    }
    assert(done + Seq::<u8>::empty() =~= done);
}

/// Whether `list` holds `text`.
pub open spec fn lists(list: Seq<Seq<char>>, text: Seq<char>) -> bool {
    exists|i: int| 0 <= i < list.len() && #[trigger] list[i] == text
}

/// The addresses that a list names: its pieces between commas.
pub fn parse_addrs(value: &str) -> (addrs: Vec<String>)
    ensures
        texts(addrs@) == cut(value@, ","@),
{
    proof {
        reveal_strlit(",");
    }
    split(value, ",")
}

fn on_list(list: &Vec<String>, addr: &str) -> (found: bool)
    ensures
        found == lists(texts(list@), addr@),
{
    let mut k: usize = 0;
    while k < list.len()
        invariant
            k <= list@.len(),
            forall|i: int| 0 <= i < k ==> (#[trigger] texts(list@)[i]) != addr@,
        decreases list@.len() - k,
    {
        if str_eq(list[k].as_str(), addr) {
            assert(texts(list@)[k as int] == addr@);
            return true;
        }
        k += 1;
    }
    false
}

/// Whether a connection is served: with a list of allowed addresses, only
/// a peer whose address is known and on the list; without one, any.
pub fn is_allowed(addrs: Option<&Vec<String>>, peer: Option<&str>) -> (allowed: bool)
    ensures
        allowed == match addrs {
            Some(list) => match peer {
                Some(addr) => lists(texts(list@), addr@),
                None => false,
            },
            None => true,
        },
{
    match addrs {
        Some(list) => match peer {
            Some(addr) => on_list(list, addr),
            None => false,
        },
        None => true,
    }
}

} // verus!
