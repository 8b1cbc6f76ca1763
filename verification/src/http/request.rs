//! The request: method, target, headers and body, with what is parsed out
//! of them.

use vstd::prelude::*;
use vstd::string::*;
use vstd::utf8::encode_utf8;
use crate::http::media::{media_text, media_type, MediaType, MediaView};
use crate::http::method::Method;
use crate::http::multipart::{decoded, files_view, FilePart, FileView, FormData};
use crate::text::{eq_ignore_case, lossy_text, same_ignoring_case, str_eq, utf8_lossy};
use crate::util::string_map::StringMap;
use crate::util::url::{form_pairs, from_str, pairs_of};

verus! {

/// The value of the first pair at or after `from` whose name is `key`.
pub open spec fn first_value(pairs: Seq<(Seq<char>, Seq<char>)>, key: Seq<char>, from: int) -> Option<
    Seq<char>,
>
    decreases pairs.len() - from,
{
    if from < 0 || from >= pairs.len() {
        None
    } else if pairs[from].0 == key {
        Some(pairs[from].1)
    } else {
        first_value(pairs, key, from + 1)
    }
}

/// The value of the first header at or after `from` whose name is `name`,
/// whatever the case of its letters.
pub open spec fn header_value(headers: Seq<(Seq<char>, Seq<char>)>, name: Seq<char>, from: int) -> Option<
    Seq<char>,
>
    decreases headers.len() - from,
{
    if from < 0 || from >= headers.len() {
        None
    } else if same_ignoring_case(encode_utf8(headers[from].0), encode_utf8(name)) {
        Some(headers[from].1)
    } else {
        header_value(headers, name, from + 1)
    }
}

/// The media type that the headers announce.
pub open spec fn announced(headers: Seq<(Seq<char>, Seq<char>)>) -> Option<MediaView> {
    match header_value(headers, "content-type"@, 0) {
        Some(v) => media_text(v),
        None => None,
    }
}

pub open spec fn is_urlencoded(m: MediaView) -> bool {
    m.kind == "application"@ && m.subtype == "x-www-form-urlencoded"@
}

pub open spec fn is_form_data(m: MediaView) -> bool {
    m.kind == "multipart"@ && m.subtype == "form-data"@
}

/// The request target that a path and a query string make.
pub open spec fn target_of(path: Seq<char>, query: Seq<char>) -> Seq<char> {
    if query.len() > 0 {
        path + "?"@ + query
    } else {
        path
    }
}

/// The query pairs of a query string; an empty one has none.
pub open spec fn query_pairs(query: Seq<char>) -> Seq<(Seq<char>, Seq<char>)> {
    if query.len() == 0 {
        Seq::empty()
    } else {
        form_pairs(encode_utf8(query))
    }
}

/// The form fields and files that a body brings. A body announced as
/// `application/x-www-form-urlencoded` brings fields; one announced as
/// `multipart/form-data` with a boundary brings what it decodes to, and
/// nothing where it is malformed; any other body brings nothing.
pub open spec fn submitted(headers: Seq<(Seq<char>, Seq<char>)>, body: Seq<u8>) -> (
    Seq<(Seq<char>, Seq<char>)>,
    Seq<FileView>,
) {
    match announced(headers) {
        None => (Seq::empty(), Seq::empty()),
        Some(m) => if is_urlencoded(m) {
            (form_pairs(encode_utf8(lossy_text(body))), Seq::empty())
        } else if is_form_data(m) {
            match m.boundary {
                None => (Seq::empty(), Seq::empty()),
                Some(b) => match decoded(body, encode_utf8(b)) {
                    Some(form) => (form.fields, form.files),
                    None => (Seq::empty(), Seq::empty()),
                },
            }
        } else {
            (Seq::empty(), Seq::empty())
        },
    }
}

fn find_value(pairs: &Vec<(String, String)>, key: &str) -> (value: Option<String>)
    ensures
        match value {
            Some(v) => first_value(pairs_of(pairs@), key@, 0) == Some(v@),
            None => first_value(pairs_of(pairs@), key@, 0) is None,
        },
{
    let mut k: usize = 0;
    while k < pairs.len()
        invariant
            k <= pairs@.len(),
            first_value(pairs_of(pairs@), key@, 0) == first_value(pairs_of(pairs@), key@, k as int),
        decreases pairs@.len() - k,
    {
        if str_eq(pairs[k].0.as_str(), key) {
            return Some(pairs[k].1.clone());
        }
        k += 1;
    }
    None
}

fn find_header(headers: &Vec<(String, String)>, name: &str) -> (value: Option<String>)
    ensures
        match value {
            Some(v) => header_value(pairs_of(headers@), name@, 0) == Some(v@),
            None => header_value(pairs_of(headers@), name@, 0) is None,
        },
{
    let mut k: usize = 0;
    while k < headers.len()
        invariant
            k <= headers@.len(),
            header_value(pairs_of(headers@), name@, 0) == header_value(
                pairs_of(headers@),
                name@,
                k as int,
            ),
        decreases headers@.len() - k,
    {
        if eq_ignore_case(headers[k].0.as_str(), name) {
            return Some(headers[k].1.clone());
        }
        k += 1;
    }
    None
}

#[derive(Debug)]
pub struct Request {
    method: Method,
    path: String,
    query: String,
    version: (u8, u8),
    headers: Vec<(String, String)>,
    params: StringMap,
    querys: Vec<(String, String)>,
    posts: Vec<(String, String)>,
    files: Vec<FilePart>,
    body: Vec<u8>,
}

/// A `Request` as plain values.
pub struct RequestView {
    pub method: Method,
    pub path: Seq<char>,
    pub query: Seq<char>,
    pub version: (u8, u8),
    pub headers: Seq<(Seq<char>, Seq<char>)>,
    pub params: Map<Seq<char>, Seq<char>>,
    pub querys: Seq<(Seq<char>, Seq<char>)>,
    pub posts: Seq<(Seq<char>, Seq<char>)>,
    pub files: Seq<FileView>,
    pub body: Seq<u8>,
}

impl View for Request {
    type V = RequestView;

    closed spec fn view(&self) -> RequestView {
        RequestView {
            method: self.method,
            path: self.path@,
            query: self.query@,
            version: self.version,
            headers: pairs_of(self.headers@),
            params: self.params@,
            querys: pairs_of(self.querys@),
            posts: pairs_of(self.posts@),
            files: files_view(self.files@),
            body: self.body@,
        }
    }
}

impl Request {
    /// A request as it arrives: the method, the path and the query string of
    /// its target, its headers and its body. The query and the body are
    /// parsed at once. The version is HTTP/1.1 until it is set.
    pub fn new(
        method: Method,
        path: String,
        query: String,
        headers: Vec<(String, String)>,
        body: Vec<u8>,
    ) -> (request: Request)
        ensures
            request@ == (RequestView {
                method,
                path: path@,
                query: query@,
                version: (1u8, 1u8),
                headers: pairs_of(headers@),
                params: Map::empty(),
                querys: query_pairs(query@),
                posts: submitted(pairs_of(headers@), body@).0,
                files: submitted(pairs_of(headers@), body@).1,
                body: body@,
            }),
    {
        let querys = if query.as_str().unicode_len() == 0 {
            Vec::new()
        } else {
            from_str(query.as_str())
        };
        assert(query@.len() == 0 ==> pairs_of(querys@) =~= Seq::empty());
        let mut request = Request {
            method,
            path,
            query,
            version: (1, 1),
            headers,
            params: StringMap::new(),
            querys,
            posts: Vec::new(),
            files: Vec::new(),
            body,
        };
        assert(pairs_of(request.posts@) =~= Seq::empty());
        assert(files_view(request.files@) =~= Seq::empty());
        request.parse_post();
        request
    }

    fn parse_post(&mut self)
        requires
            old(self).posts@.len() == 0,
            old(self).files@.len() == 0,
        ensures
            final(self)@ == (RequestView {
                posts: submitted(old(self)@.headers, old(self)@.body).0,
                files: submitted(old(self)@.headers, old(self)@.body).1,
                ..old(self)@
            }),
    {
        assert(pairs_of(self.posts@) =~= Seq::empty());
        assert(files_view(self.files@) =~= Seq::empty());
        let media = match self.content_type() {
            Some(m) => m,
            None => {
                return ;
            },
        };
        if str_eq(media.kind.as_str(), "application") && str_eq(
            media.subtype.as_str(),
            "x-www-form-urlencoded",
        ) {
            let params = utf8_lossy(self.body.as_slice());
            self.posts = from_str(params.as_str());
        } else if str_eq(media.kind.as_str(), "multipart") && str_eq(
            media.subtype.as_str(),
            "form-data",
        ) {
            if let Some(form) = self.parse_formdata() {
                self.posts = form.fields;
                self.files = form.files;
            }
        }
    }

    /// Decodes the body as `multipart/form-data`, if that is what the
    /// headers announce and they give a boundary.
    pub fn parse_formdata(&self) -> (form: Option<FormData>)
        ensures
            match form {
                Some(f) => {
                    &&& announced(self@.headers) matches Some(m)
                    &&& is_form_data(m)
                    &&& m.boundary matches Some(b)
                    &&& decoded(self@.body, encode_utf8(b)) == Some(f@)
                },
                None => !(announced(self@.headers) matches Some(m) && is_form_data(m) && (
                m.boundary matches Some(b) && decoded(self@.body, encode_utf8(b)) is Some)),
            },
    {
        let media = match self.content_type() {
            Some(m) => m,
            None => {
                return None;
            },
        };
        if str_eq(media.kind.as_str(), "multipart") && str_eq(media.subtype.as_str(), "form-data") {
            match media.boundary {
                Some(boundary) => FormData::parse(self.body.as_slice(), boundary.as_str()),
                None => None,
            }
        } else {
            None
        }
    }

    pub fn method(&self) -> (method: &Method)
        ensures
            *method == self@.method,
    {
        &self.method
    }

    /// The version of the protocol: the major and the minor number.
    pub fn version(&self) -> (version: (u8, u8))
        ensures
            version == self@.version,
    {
        self.version
    }

    /// Sets the version of the protocol.
    pub fn set_version(&mut self, major: u8, minor: u8)
        ensures
            final(self)@ == (RequestView { version: (major, minor), ..old(self)@ }),
    {
        self.version = (major, minor);
    }

    /// The request target: the path, and behind a question mark the query
    /// string where there is one.
    pub fn uri(&self) -> (uri: String)
        ensures
            uri@ == target_of(self@.path, self@.query),
    {
        let mut uri = self.path.clone();
        if self.query.as_str().unicode_len() > 0 {
            uri.append("?");
            uri.append(self.query.as_str());
        }
        uri
    }

    /// The path of the request target.
    pub fn path(&self) -> (path: &String)
        ensures
            path@ == self@.path,
    {
        &self.path
    }

    /// The query string of the request target, empty where it has none.
    pub fn query_string(&self) -> (query: &String)
        ensures
            query@ == self@.query,
    {
        &self.query
    }

    /// The value that the matched route bound to the parameter `key`.
    pub fn param(&self, key: &str) -> (value: Option<String>)
        ensures
            match value {
                Some(v) => self@.params.contains_key(key@) && self@.params[key@] == v@,
                None => !self@.params.contains_key(key@),
            },
    {
        match self.params.get(key) {
            Some(v) => Some(v.clone()),
            None => None,
        }
    }

    /// The parameters, to read and to set.
    pub fn params(&mut self) -> (params: &mut StringMap)
        ensures
            params@ == old(self)@.params,
            final(self)@ == (RequestView { params: final(params)@, ..old(self)@ }),
    {
        &mut self.params
    }

    /// The value of the first query pair named `key`.
    pub fn query(&self, key: &str) -> (value: Option<String>)
        ensures
            match value {
                Some(v) => first_value(self@.querys, key@, 0) == Some(v@),
                None => first_value(self@.querys, key@, 0) is None,
            },
    {
        find_value(&self.querys, key)
    }

    pub fn querys(&self) -> (querys: &Vec<(String, String)>)
        ensures
            pairs_of(querys@) == self@.querys,
    {
        &self.querys
    }

    /// The value of the first form field named `key`.
    pub fn post(&self, key: &str) -> (value: Option<String>)
        ensures
            match value {
                Some(v) => first_value(self@.posts, key@, 0) == Some(v@),
                None => first_value(self@.posts, key@, 0) is None,
            },
    {
        find_value(&self.posts, key)
    }

    pub fn posts(&self) -> (posts: &Vec<(String, String)>)
        ensures
            pairs_of(posts@) == self@.posts,
    {
        &self.posts
    }

    /// The value of the first header of that name; the case of the name
    /// does not count.
    pub fn header(&self, name: &str) -> (value: Option<String>)
        ensures
            match value {
                Some(v) => header_value(self@.headers, name@, 0) == Some(v@),
                None => header_value(self@.headers, name@, 0) is None,
            },
    {
        find_header(&self.headers, name)
    }

    pub fn headers(&self) -> (headers: &Vec<(String, String)>)
        ensures
            pairs_of(headers@) == self@.headers,
    {
        &self.headers
    }

    /// The media type of the body, where the headers give one that can be
    /// read.
    pub fn content_type(&self) -> (media: Option<MediaType>)
        ensures
            match media {
                Some(m) => announced(self@.headers) == Some(m@),
                None => announced(self@.headers) is None,
            },
    {
        match find_header(&self.headers, "content-type") {
            Some(value) => media_type(value.as_str()),
            None => None,
        }
    }

    pub fn has_file(&self) -> (r: bool)
        ensures
            r == (self@.files.len() > 0),
    {
        self.files.len() > 0
    }

    pub fn files(&self) -> (files: &Vec<FilePart>)
        ensures
            files_view(files@) == self@.files,
    {
        &self.files
    }

    pub fn body(&self) -> (body: &Vec<u8>)
        ensures
            body@ == self@.body,
    {
        &self.body
    }
}

} // verus!
