//! The HTTP response: status, headers, exactly one body representation, and
//! an optional captured error that never reaches the wire.

use vstd::prelude::*;

use crate::headers::{Headers, spec_find, spec_insert, spec_append};
use crate::ascii::spec_lower_chars;
use crate::status::spec_valid_status;

verus! {

/// A response body.
///
/// `Fixed` bodies declare their length on the wire (`Content-Length`);
/// `Streamed` bodies do not, and are framed with chunked transfer encoding.
/// Exactly one representation is active at a time.
#[derive(Debug)]
pub enum Body {
    Fixed(Vec<u8>),
    Streamed(Vec<u8>),
}

impl Body {
    /// The bytes the body will yield.
    pub open spec fn bytes(self) -> Seq<u8> {
        match self {
            Body::Fixed(b) => b@,
            Body::Streamed(b) => b@,
        }
    }

    /// Whether the body's length is declared up front.
    pub open spec fn length_known(self) -> bool {
        self is Fixed
    }

    /// An empty body of known length zero.
    pub fn empty() -> (r: Body)
        ensures
            r.bytes() =~= Seq::<u8>::empty(),
            r.length_known(),
    {
        Body::Fixed(Vec::new())
    }

    /// The declared length, if the body has one.
    pub fn len(&self) -> (r: Option<usize>)
        ensures
            (match r {
                Some(n) => self.length_known() && n == self.bytes().len(),
                None => !self.length_known(),
            }),
    {
        match self {
            Body::Fixed(b) => Some(b.len()),
            Body::Streamed(_) => None,
        }
    }
}

/// An error captured from a failing endpoint or middleware; it drives the
/// response status and logging but is never written to the wire.
#[derive(Debug)]
pub struct HttpError {
    pub status: u16,
    pub message: String,
}

impl HttpError {
    /// A new error with the status it asks the server to answer with.
    pub fn new(status: u16, message: String) -> (r: HttpError)
        ensures
            r.status == status,
            r.message == message,
    {
        HttpError { status, message }
    }

    /// The status the error asks for.
    pub fn status(&self) -> (r: u16)
        ensures
            r == self.status,
    {
        self.status
    }

    /// The error text.
    pub fn text(&self) -> (r: &String)
        ensures
            r == &self.message,
    {
        &self.message
    }
}

/// A cookie as a name/value pair.
#[derive(Debug)]
pub struct Cookie {
    pub name: String,
    pub value: String,
}

/// A cookie change recorded on a response.
#[derive(Debug)]
pub enum CookieEvent {
    Added(Cookie),
    Removed(Cookie),
}

/// An HTTP response.
#[derive(Debug)]
pub struct Response {
    pub status: u16,
    pub headers: Headers,
    pub body: Body,
    pub error: Option<HttpError>,
    pub cookie_events: Vec<CookieEvent>,
}

impl Response {
    /// A valid status code and a well-formed header collection.
    pub open spec fn wf(self) -> bool {
        &&& spec_valid_status(self.status)
        &&& self.headers.wf()
    }

    /// A new response with the given status, no headers, and an empty body.
    pub fn new(status: u16) -> (r: Response)
        requires
            spec_valid_status(status),
        ensures
            r.status == status,
            r.headers@ =~= Seq::<(Seq<char>, Seq<Seq<char>>)>::empty(),
            r.body.bytes() =~= Seq::<u8>::empty(),
            r.body.length_known(),
            r.error is None,
            r.cookie_events@.len() == 0,
            r.wf(),
    {
        Response {
            status,
            headers: Headers::new(),
            body: Body::empty(),
            error: None,
            cookie_events: Vec::new(),
        }
    }

    /// Start building a response with the given status.
    pub fn builder(status: u16) -> (r: ResponseBuilder)
        requires
            spec_valid_status(status),
        ensures
            r.0.status == status,
            r.0.headers@ =~= Seq::<(Seq<char>, Seq<Seq<char>>)>::empty(),
            r.0.body.bytes() =~= Seq::<u8>::empty(),
            r.0.error is None,
            r.0.wf(),
    {
        ResponseBuilder(Response::new(status))
    }

    /// The status code.
    pub fn status(&self) -> (r: u16)
        ensures
            r == self.status,
    {
        self.status
    }

    /// Replace the status code.
    pub fn set_status(&mut self, status: u16)
        requires
            spec_valid_status(status),
        ensures
            final(self).status == status,
            final(self).headers == old(self).headers,
            final(self).body == old(self).body,
            final(self).error == old(self).error,
            final(self).cookie_events == old(self).cookie_events,
    {
        self.status = status;
    }

    /// The declared body length, if the body has one.
    pub fn len(&self) -> (r: Option<usize>)
        ensures
            (match r {
                Some(n) => self.body.length_known() && n == self.body.bytes().len(),
                None => !self.body.length_known(),
            }),
    {
        self.body.len()
    }

    /// Whether the declared body length is zero, where one is declared.
    pub fn is_empty(&self) -> (r: Option<bool>)
        ensures
            (match r {
                Some(e) => self.body.length_known() && e == (self.body.bytes().len() == 0),
                None => !self.body.length_known(),
            }),
    {
        match self.body.len() {
            Some(n) => Some(n == 0),
            None => None,
        }
    }

    /// The values stored under a header name, if any.
    pub fn header(&self, name: &str) -> (r: Option<&Vec<String>>)
        requires
            name.is_ascii(),
        ensures
            (match r {
                Some(vs) => {
                    let f = spec_find(self.headers@, spec_lower_chars(name@));
                    f >= 0 && vs.deep_view() == self.headers@[f].1
                },
                None => spec_find(self.headers@, spec_lower_chars(name@)) == -1,
            }),
    {
        self.headers.header(name)
    }

    /// Remove a header and hand its values back.
    pub fn remove_header(&mut self, name: &str) -> (r: Option<Vec<String>>)
        requires
            name.is_ascii(),
            old(self).wf(),
        ensures
            ({
                let f = spec_find(old(self).headers@, spec_lower_chars(name@));
                match r {
                    Some(vs) => f >= 0 && vs.deep_view() == old(self).headers@[f].1
                        && final(self).headers@ == old(self).headers@.remove(f),
                    None => f == -1 && final(self).headers@ == old(self).headers@,
                }
            }),
            final(self).status == old(self).status,
            final(self).body == old(self).body,
            final(self).error == old(self).error,
            final(self).wf(),
    {
        self.headers.remove(name)
    }

    /// Set a header, replacing any values it already had.
    pub fn insert_header(&mut self, name: &str, value: &str)
        requires
            name.is_ascii(),
            name@.len() >= 1,
            value.is_ascii(),
            old(self).wf(),
        ensures
            final(self).headers@ == spec_insert(
                old(self).headers@,
                spec_lower_chars(name@),
                value@,
            ),
            final(self).status == old(self).status,
            final(self).body == old(self).body,
            final(self).error == old(self).error,
            final(self).wf(),
    {
        self.headers.insert(name, value);
    }

    /// Add one more value to a header.
    pub fn append_header(&mut self, name: &str, value: &str)
        requires
            name.is_ascii(),
            name@.len() >= 1,
            value.is_ascii(),
            old(self).wf(),
        ensures
            final(self).headers@ == spec_append(
                old(self).headers@,
                spec_lower_chars(name@),
                value@,
            ),
            final(self).status == old(self).status,
            final(self).body == old(self).body,
            final(self).error == old(self).error,
            final(self).wf(),
    {
        self.headers.append(name, value);
    }

    /// The header entries, in insertion order.
    pub fn iter(&self) -> (r: &Vec<crate::headers::HeaderEntry>)
        ensures
            r == &self.headers.entries,
    {
        &self.headers.entries
    }

    /// The header names, in insertion order.
    pub fn header_names(&self) -> (r: Vec<String>)
        ensures
            r.deep_view() =~= Seq::new(self.headers@.len(), |i: int| self.headers@[i].0),
    {
        self.headers.names()
    }

    /// The first value of the `Content-Type` header, if one is set.
    pub fn content_type(&self) -> (r: Option<&String>)
        ensures
            ({
                let f = spec_find(self.headers@, "content-type"@);
                match r {
                    Some(v) => f >= 0 && self.headers@[f].1.len() >= 1 && v@ == self.headers@[f].1[0],
                    None => f == -1 || self.headers@[f].1.len() == 0,
                }
            }),
    {
        proof {
            reveal_strlit("content-type");
            lemma_content_type_folded();
        }
        match self.headers.header("content-type") {
            Some(vs) => {
                if vs.len() > 0 {
                    Some(&vs[0])
                } else {
                    None
                }
            },
            None => None,
        }
    }

    /// Set the `Content-Type` header.
    pub fn set_content_type(&mut self, value: &str)
        requires
            value.is_ascii(),
            old(self).wf(),
        ensures
            final(self).headers@ == spec_insert(old(self).headers@, "content-type"@, value@),
            final(self).status == old(self).status,
            final(self).body == old(self).body,
            final(self).error == old(self).error,
            final(self).wf(),
    {
        proof {
            reveal_strlit("content-type");
            lemma_content_type_folded();
        }
        self.headers.insert("content-type", value);
    }

    /// Replace the body.
    pub fn set_body(&mut self, body: Body)
        ensures
            final(self).body == body,
            final(self).status == old(self).status,
            final(self).headers == old(self).headers,
            final(self).error == old(self).error,
            final(self).cookie_events == old(self).cookie_events,
    {
        self.body = body;
    }

    /// Take the body out, leaving an empty one.
    pub fn take_body(&mut self) -> (r: Body)
        ensures
            r == old(self).body,
            final(self).body.bytes() =~= Seq::<u8>::empty(),
            final(self).body.length_known(),
            final(self).status == old(self).status,
            final(self).headers == old(self).headers,
            final(self).error == old(self).error,
    {
        let mut body = Body::empty();
        core::mem::swap(&mut self.body, &mut body);
        body
    }

    /// Swap the body with the one handed in.
    pub fn swap_body(&mut self, body: &mut Body)
        ensures
            final(self).body == *old(body),
            *final(body) == old(self).body,
            final(self).status == old(self).status,
            final(self).headers == old(self).headers,
            final(self).error == old(self).error,
    {
        core::mem::swap(&mut self.body, body);
    }

    /// Set the body to a string's bytes, with its length declared.
    pub fn body_string(&mut self, string: String)
        ensures
            final(self).body.bytes() == vstd::utf8::encode_utf8(string@),
            final(self).body.length_known(),
            final(self).status == old(self).status,
            final(self).headers == old(self).headers,
            final(self).error == old(self).error,
    {
        let bytes = string.as_str().as_bytes_vec();
        self.body = Body::Fixed(bytes);
    }

    /// Set the body to the given bytes, with their length declared.
    pub fn body_bytes(&mut self, bytes: Vec<u8>)
        ensures
            final(self).body.bytes() == bytes@,
            final(self).body.length_known(),
            final(self).status == old(self).status,
            final(self).headers == old(self).headers,
            final(self).error == old(self).error,
    {
        self.body = Body::Fixed(bytes);
    }

    /// Record that a cookie should be added.
    pub fn insert_cookie(&mut self, cookie: Cookie)
        ensures
            final(self).cookie_events@ == old(self).cookie_events@.push(
                CookieEvent::Added(cookie),
            ),
            final(self).status == old(self).status,
            final(self).headers == old(self).headers,
            final(self).body == old(self).body,
            final(self).error == old(self).error,
    {
        self.cookie_events.push(CookieEvent::Added(cookie));
    }

    /// Record that a cookie should be removed.
    pub fn remove_cookie(&mut self, cookie: Cookie)
        ensures
            final(self).cookie_events@ == old(self).cookie_events@.push(
                CookieEvent::Removed(cookie),
            ),
            final(self).status == old(self).status,
            final(self).headers == old(self).headers,
            final(self).body == old(self).body,
            final(self).error == old(self).error,
    {
        self.cookie_events.push(CookieEvent::Removed(cookie));
    }

    /// The captured error, if a handler failed.
    pub fn error(&self) -> (r: Option<&HttpError>)
        ensures
            (match r {
                Some(e) => self.error matches Some(inner) && e == &inner,
                None => self.error is None,
            }),
    {
        self.error.as_ref()
    }

    /// Take the captured error out.
    pub fn take_error(&mut self) -> (r: Option<HttpError>)
        ensures
            r == old(self).error,
            final(self).error is None,
            final(self).status == old(self).status,
            final(self).headers == old(self).headers,
            final(self).body == old(self).body,
    {
        self.error.take()
    }

    /// Record a captured error.
    pub fn set_error(&mut self, error: HttpError)
        ensures
            final(self).error matches Some(e) && e == error,
            final(self).status == old(self).status,
            final(self).headers == old(self).headers,
            final(self).body == old(self).body,
    {
        self.error = Some(error);
    }

    /// Assemble a response from already-built parts.
    pub fn from_res(status: u16, headers: Headers, body: Body) -> (r: Response)
        requires
            spec_valid_status(status),
            headers.wf(),
        ensures
            r.status == status,
            r.headers == headers,
            r.body == body,
            r.error is None,
            r.wf(),
    {
        Response { status, headers, body, error: None, cookie_events: Vec::new() }
    }

    /// The response a failing handler turns into: the error's status where
    /// the server knows it, 500 otherwise, with the error captured.
    pub fn from_error(error: HttpError) -> (r: Response)
        ensures
            r.status == if spec_valid_status(error.status) {
                error.status
            } else {
                500u16
            },
            r.headers@ =~= Seq::<(Seq<char>, Seq<Seq<char>>)>::empty(),
            r.body.bytes() =~= Seq::<u8>::empty(),
            r.error matches Some(e) && e == error,
            r.wf(),
    {
        let status: u16 = if crate::status::is_valid_status(error.status) {
            error.status
        } else {
            500
        };
        let mut r = Response::new(status);
        r.set_error(error);
        r
    }
}

/// The folding of `content-type` is itself.
proof fn lemma_content_type_folded()
    ensures
        "content-type".is_ascii(),
        spec_lower_chars("content-type"@) == "content-type"@,
{
    reveal_strlit("content-type");
    assert(spec_lower_chars("content-type"@) =~= "content-type"@);
}

/// A chained builder around [`Response`].
pub struct ResponseBuilder(pub Response);

impl ResponseBuilder {
    /// Start building a response with the given status.
    pub fn new(status: u16) -> (r: ResponseBuilder)
        requires
            spec_valid_status(status),
        ensures
            r.0.status == status,
            r.0.headers@ =~= Seq::<(Seq<char>, Seq<Seq<char>>)>::empty(),
            r.0.body.bytes() =~= Seq::<u8>::empty(),
            r.0.error is None,
            r.0.wf(),
    {
        ResponseBuilder(Response::new(status))
    }

    /// The finished response.
    pub fn build(self) -> (r: Response)
        ensures
            r == self.0,
    {
        self.0
    }

    /// Set a header.
    pub fn header(self, name: &str, value: &str) -> (r: ResponseBuilder)
        requires
            name.is_ascii(),
            name@.len() >= 1,
            value.is_ascii(),
            self.0.wf(),
        ensures
            r.0.headers@ == spec_insert(self.0.headers@, spec_lower_chars(name@), value@),
            r.0.status == self.0.status,
            r.0.body == self.0.body,
            r.0.error == self.0.error,
            r.0.wf(),
    {
        let mut inner = self.0;
        inner.insert_header(name, value);
        ResponseBuilder(inner)
    }

    /// Set the `Content-Type` header.
    pub fn content_type(self, value: &str) -> (r: ResponseBuilder)
        requires
            value.is_ascii(),
            self.0.wf(),
        ensures
            r.0.headers@ == spec_insert(self.0.headers@, "content-type"@, value@),
            r.0.status == self.0.status,
            r.0.body == self.0.body,
            r.0.error == self.0.error,
            r.0.wf(),
    {
        let mut inner = self.0;
        inner.set_content_type(value);
        ResponseBuilder(inner)
    }

    /// Set the body.
    pub fn body(self, body: Body) -> (r: ResponseBuilder)
        ensures
            r.0.body == body,
            r.0.status == self.0.status,
            r.0.headers == self.0.headers,
            r.0.error == self.0.error,
    {
        let mut inner = self.0;
        inner.set_body(body);
        ResponseBuilder(inner)
    }

    /// Set the body to a string's bytes.
    pub fn body_string(self, string: String) -> (r: ResponseBuilder)
        ensures
            r.0.body.bytes() == vstd::utf8::encode_utf8(string@),
            r.0.body.length_known(),
            r.0.status == self.0.status,
            r.0.headers == self.0.headers,
            r.0.error == self.0.error,
    {
        let mut inner = self.0;
        inner.body_string(string);
        ResponseBuilder(inner)
    }

    /// Set the body to the given bytes.
    pub fn body_bytes(self, bytes: Vec<u8>) -> (r: ResponseBuilder)
        ensures
            r.0.body.bytes() == bytes@,
            r.0.body.length_known(),
            r.0.status == self.0.status,
            r.0.headers == self.0.headers,
            r.0.error == self.0.error,
    {
        let mut inner = self.0;
        inner.body_bytes(bytes);
        ResponseBuilder(inner)
    }
}

} // verus!
