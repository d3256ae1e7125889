//! The HTTP request as the router and handlers see it: method, resolved
//! URL, headers, body bytes, and the captured route parameters.

use vstd::prelude::*;

use crate::decode::{DecodedHead, Url};
use crate::headers::{Headers, spec_find, spec_insert, spec_append};
use crate::ascii::spec_lower_chars;
use crate::method::Method;
use crate::router::Captures;

verus! {

/// One decoded request, owned by the handling task.
pub struct Request {
    pub method: Method,
    pub url: Url,
    pub headers: Headers,
    pub body: Vec<u8>,
    pub route_params: Vec<Captures>,
    pub peer_addr: Option<String>,
    pub local_addr: Option<String>,
}

/// The index of the last capture set that holds `key`, or `-1`.
pub open spec fn spec_last_with_key(params: Seq<Captures>, key: Seq<char>) -> int
    decreases params.len(),
{
    if params.len() == 0 {
        -1
    } else if crate::router::spec_has_key(params.last()@.0, key) {
        params.len() - 1
    } else {
        spec_last_with_key(params.drop_last(), key)
    }
}

impl Request {
    /// A well-formed header collection.
    pub open spec fn wf(self) -> bool {
        self.headers.wf()
    }

    /// Assemble a request from a decoded head and its body bytes.
    pub fn new(head: DecodedHead, body: Vec<u8>) -> (r: Request)
        ensures
            r.method == head.method,
            r.url == head.url,
            r.headers == head.headers,
            r.body == body,
            r.route_params@.len() == 0,
            r.peer_addr is None,
            r.local_addr is None,
    {
        Request {
            method: head.method,
            url: head.url,
            headers: head.headers,
            body,
            route_params: Vec::new(),
            peer_addr: None,
            local_addr: None,
        }
    }

    /// The request method.
    pub fn method(&self) -> (r: Method)
        ensures
            r == self.method,
    {
        self.method
    }

    /// The resolved URL.
    pub fn url(&self) -> (r: &Url)
        ensures
            r == &self.url,
    {
        &self.url
    }

    /// The target host.
    pub fn host(&self) -> (r: &String)
        ensures
            r == &self.url.host,
    {
        &self.url.host
    }

    /// The request path.
    pub fn path(&self) -> (r: &String)
        ensures
            r == &self.url.path,
    {
        &self.url.path
    }

    /// The values stored under a header name, if any.
    pub fn header(&self, name: &str) -> (r: Option<&Vec<String>>)
        requires
            name.is_ascii(),
        ensures
            (match r {
                Some(vs) => {
                    let f = spec_find(self.headers@, spec_lower_chars(name@));
                    f >= 0 && vs.deep_view() == self.headers@[f].1
                },
                None => spec_find(self.headers@, spec_lower_chars(name@)) == -1,
            }),
    {
        self.headers.header(name)
    }

    /// Set a header, replacing any values it already had.
    pub fn insert_header(&mut self, name: &str, value: &str)
        requires
            name.is_ascii(),
            name@.len() >= 1,
            value.is_ascii(),
            old(self).wf(),
        ensures
            final(self).headers@ == spec_insert(
                old(self).headers@,
                spec_lower_chars(name@),
                value@,
            ),
            final(self).method == old(self).method,
            final(self).url == old(self).url,
            final(self).body == old(self).body,
            final(self).route_params == old(self).route_params,
            final(self).wf(),
    {
        self.headers.insert(name, value);
    }

    /// Add one more value to a header.
    pub fn append_header(&mut self, name: &str, value: &str)
        requires
            name.is_ascii(),
            name@.len() >= 1,
            value.is_ascii(),
            old(self).wf(),
        ensures
            final(self).headers@ == spec_append(
                old(self).headers@,
                spec_lower_chars(name@),
                value@,
            ),
            final(self).method == old(self).method,
            final(self).url == old(self).url,
            final(self).body == old(self).body,
            final(self).route_params == old(self).route_params,
            final(self).wf(),
    {
        self.headers.append(name, value);
    }

    /// The header names, in insertion order.
    pub fn header_names(&self) -> (r: Vec<String>)
        ensures
            r.deep_view() =~= Seq::new(self.headers@.len(), |i: int| self.headers@[i].0),
    {
        self.headers.names()
    }

    /// Push one more capture set; later sets are more specific.
    pub fn push_route_params(&mut self, captures: Captures)
        ensures
            final(self).route_params@ == old(self).route_params@.push(captures),
            final(self).method == old(self).method,
            final(self).url == old(self).url,
            final(self).headers == old(self).headers,
            final(self).body == old(self).body,
    {
        self.route_params.push(captures);
    }

    /// The captured value of a named route parameter, consulting the most
    /// specific capture set first.
    pub fn param(&self, key: &str) -> (r: Option<&String>)
        ensures
            (match r {
                Some(v) => {
                    let i = spec_last_with_key(self.route_params@, key@);
                    i >= 0 && crate::router::spec_get_value(self.route_params@[i]@.0, key@)
                        == Some(v@)
                },
                None => spec_last_with_key(self.route_params@, key@) == -1,
            }),
    {
        let mut i: usize = self.route_params.len();
        proof {
            assert(self.route_params@.take(i as int) =~= self.route_params@);
        }
        while i > 0
            invariant
                0 <= i <= self.route_params@.len(),
                spec_last_with_key(self.route_params@, key@) == spec_last_with_key(
                    self.route_params@.take(i as int),
                    key@,
                ),
            decreases i,
        {
            i = i - 1;
            proof {
                assert(self.route_params@.take(i + 1).last() == self.route_params@[i as int]);
                assert(self.route_params@.take(i + 1).drop_last() =~= self.route_params@.take(
                    i as int,
                ));
            }
            match self.route_params[i].get(key) {
                Some(v) => {
                    return Some(v);
                },
                None => {
                },
            }
        }
        proof {
            assert(self.route_params@.take(0) =~= Seq::<Captures>::empty());
        }
        None
    }

    /// The wildcard capture, consulting the most specific capture set first.
    pub fn wildcard(&self) -> (r: Option<&String>)
        ensures
            (match r {
                Some(v) => exists|i: int|
                    0 <= i < self.route_params@.len() && (#[trigger] self.route_params@[i])@.1
                        == Some(v@),
                None => forall|i: int|
                    0 <= i < self.route_params@.len() ==> (#[trigger] self.route_params@[i])@.1
                        is None,
            }),
    {
        let mut i: usize = self.route_params.len();
        while i > 0
            invariant
                0 <= i <= self.route_params@.len(),
                forall|j: int|
                    i <= j < self.route_params@.len() ==> (#[trigger] self.route_params@[j])@.1
                        is None,
            decreases i,
        {
            i = i - 1;
            match &self.route_params[i].wildcard {
                Some(v) => {
                    return Some(v);
                },
                None => {
                },
            }
        }
        None
    }

    /// The body length in bytes.
    pub fn len(&self) -> (r: usize)
        ensures
            r == self.body@.len(),
    {
        self.body.len()
    }

    /// Whether the body is empty.
    pub fn is_empty(&self) -> (r: bool)
        ensures
            r == (self.body@.len() == 0),
    {
        self.body.len() == 0
    }

    /// Replace the body.
    pub fn set_body(&mut self, body: Vec<u8>)
        ensures
            final(self).body == body,
            final(self).method == old(self).method,
            final(self).url == old(self).url,
            final(self).headers == old(self).headers,
            final(self).route_params == old(self).route_params,
    {
        self.body = body;
    }

    /// Take the body out, leaving an empty one.
    pub fn take_body(&mut self) -> (r: Vec<u8>)
        ensures
            r == old(self).body,
            final(self).body@ =~= Seq::<u8>::empty(),
            final(self).method == old(self).method,
            final(self).url == old(self).url,
            final(self).headers == old(self).headers,
            final(self).route_params == old(self).route_params,
    {
        let mut body: Vec<u8> = Vec::new();
        core::mem::swap(&mut self.body, &mut body);
        body
    }
}

} // verus!
