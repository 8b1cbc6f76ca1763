//! The response: a status code, headers and a body, all buffered.

use vstd::prelude::*;
use vstd::slice::slice_to_vec;
use vstd::string::*;
use crate::error::Result;
use crate::http::status::StatusCode;
use crate::util::string_map::{placed, StringMap};

verus! {

#[derive(Debug)]
pub struct Response {
    status_code: StatusCode,
    headers: StringMap,
    body: Vec<u8>,
}

impl Response {
    /// The status code.
    pub closed spec fn status(&self) -> u16 {
        self.status_code.0
    }

    /// The headers, by name.
    pub closed spec fn header_map(&self) -> Map<Seq<char>, Seq<char>> {
        self.headers@
    }

    /// The headers in the order in which their names were first set.
    pub closed spec fn header_list(&self) -> Seq<(Seq<char>, Seq<char>)> {
        self.headers.listed()
    }

    /// The body.
    pub closed spec fn content(&self) -> Seq<u8> {
        self.body@
    }

    pub fn new(status_code: StatusCode, headers: StringMap, data: Vec<u8>) -> (response: Response)
        ensures
            response.status() == status_code.0,
            response.header_map() == headers@,
            response.header_list() == headers.listed(),
            response.content() == data@,
    {
        Response { status_code, headers, body: data }
    }

    /// A response with the given status, no headers and no body.
    pub fn empty<S: Into<StatusCode>>(status_code: S) -> (response: Response)
        ensures
            call_ensures(S::into, (status_code,), StatusCode(response.status())),
            response.header_map() == Map::<Seq<char>, Seq<char>>::empty(),
            response.header_list().len() == 0,
            response.content() == Seq::<u8>::empty(),
    {
        Response::new(status_code.into(), StringMap::new(), Vec::new())
    }

    /// Sets the body, and the `Content-Type` header with it.
    pub fn from_data(&mut self, content_type: &str, data: Vec<u8>) -> (r: Result<&mut Response>)
        ensures
            r is Ok,
            r->Ok_0.status() == old(self).status(),
            r->Ok_0.header_map() == old(self).header_map().insert("Content-Type"@, content_type@),
            r->Ok_0.header_list() == placed(old(self).header_list(), "Content-Type"@, content_type@, 0),
            r->Ok_0.content() == data@,
            *final(self) == *final(r->Ok_0),
    {
        self.headers.insert("Content-Type".to_owned(), content_type.to_owned());
        self.body = data;
        Ok(self)
    }

    /// Sets the body to a text, as `text/plain`.
    pub fn from_text(&mut self, string: &str) -> (r: Result<&mut Response>)
        ensures
            r is Ok,
            r->Ok_0.status() == old(self).status(),
            r->Ok_0.header_map() == old(self).header_map().insert(
                "Content-Type"@,
                "text/plain; charset=UTF-8"@,
            ),
            r->Ok_0.header_list() == placed(
                old(self).header_list(),
                "Content-Type"@,
                "text/plain; charset=UTF-8"@,
                0,
            ),
            r->Ok_0.content() == string.spec_bytes(),
            *final(self) == *final(r->Ok_0),
    {
        self.from_data("text/plain; charset=UTF-8", slice_to_vec(string.as_bytes()))
    }

    /// Sets the body to a text, as `text/html`.
    pub fn from_html(&mut self, string: &str) -> (r: Result<&mut Response>)
        ensures
            r is Ok,
            r->Ok_0.status() == old(self).status(),
            r->Ok_0.header_map() == old(self).header_map().insert(
                "Content-Type"@,
                "text/html; charset=UTF-8"@,
            ),
            r->Ok_0.header_list() == placed(
                old(self).header_list(),
                "Content-Type"@,
                "text/html; charset=UTF-8"@,
                0,
            ),
            r->Ok_0.content() == string.spec_bytes(),
            *final(self) == *final(r->Ok_0),
    {
        self.from_data("text/html; charset=UTF-8", slice_to_vec(string.as_bytes()))
    }

    /// Sets the body to a document that is serialised already, as
    /// `application/json`.
    pub fn from_json(&mut self, data: Vec<u8>) -> (r: Result<&mut Response>)
        ensures
            r is Ok,
            r->Ok_0.status() == old(self).status(),
            r->Ok_0.header_map() == old(self).header_map().insert(
                "Content-Type"@,
                "application/json; charset=UTF-8"@,
            ),
            r->Ok_0.header_list() == placed(
                old(self).header_list(),
                "Content-Type"@,
                "application/json; charset=UTF-8"@,
                0,
            ),
            r->Ok_0.content() == data@,
            *final(self) == *final(r->Ok_0),
    {
        self.from_data("application/json; charset=UTF-8", data)
    }

    pub fn status_code(&mut self, code: u16) -> (r: &mut Response)
        ensures
            r.status() == code,
            r.header_map() == old(self).header_map(),
            r.header_list() == old(self).header_list(),
            r.content() == old(self).content(),
            *final(self) == *final(r),
    {
        self.status_code = StatusCode(code);
        self
    }

    pub fn get_status_code(&self) -> (code: u16)
        ensures
            code == self.status(),
    {
        self.status_code.0
    }

    /// Adds a header, or overwrites the one of that name.
    pub fn header(&mut self, header: (&str, &str)) -> (r: &mut Response)
        ensures
            r.status() == old(self).status(),
            r.header_map() == old(self).header_map().insert(header.0@, header.1@),
            r.header_list() == placed(old(self).header_list(), header.0@, header.1@, 0),
            r.content() == old(self).content(),
            *final(self) == *final(r),
    {
        self.headers.insert(header.0.to_owned(), header.1.to_owned());
        self
    }

    pub fn get_header(&self, name: &str) -> (value: Option<&String>)
        ensures
            match value {
                Some(v) => self.header_map().contains_key(name@) && self.header_map()[name@] == v@,
                None => !self.header_map().contains_key(name@),
            },
    {
        self.headers.get(name)
    }

    pub fn get_headers(&self) -> (headers: &StringMap)
        ensures
            headers@ == self.header_map(),
            headers.listed() == self.header_list(),
    {
        &self.headers
    }

    pub fn get_body(&self) -> (body: &Vec<u8>)
        ensures
            body@ == self.content(),
    {
        &self.body
    }
}

} // verus!
