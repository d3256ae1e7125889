//! The request methods the server understands.

use vstd::prelude::*;

verus! {

/// An HTTP request method.
#[derive(Debug, Copy, Clone, Eq, PartialEq, Structural)]
pub enum Method {
    Get,
    Head,
    Post,
    Put,
    Delete,
    Connect,
    Options,
    Trace,
    Patch,
}

/// The wire token of a method, as character codes.
pub open spec fn spec_method_token(m: Method) -> Seq<u8> {
    match m {
        Method::Get => seq![71u8, 69u8, 84u8],
        Method::Head => seq![72u8, 69u8, 65u8, 68u8],
        Method::Post => seq![80u8, 79u8, 83u8, 84u8],
        Method::Put => seq![80u8, 85u8, 84u8],
        Method::Delete => seq![68u8, 69u8, 76u8, 69u8, 84u8, 69u8],
        Method::Connect => seq![67u8, 79u8, 78u8, 78u8, 69u8, 67u8, 84u8],
        Method::Options => seq![79u8, 80u8, 84u8, 73u8, 79u8, 78u8, 83u8],
        Method::Trace => seq![84u8, 82u8, 65u8, 67u8, 69u8],
        Method::Patch => seq![80u8, 65u8, 84u8, 67u8, 72u8],
    }
}

/// The method a wire token names, if any.
pub open spec fn spec_parse_method(s: Seq<u8>) -> Option<Method> {
    if s == spec_method_token(Method::Get) {
        Some(Method::Get)
    } else if s == spec_method_token(Method::Head) {
        Some(Method::Head)
    } else if s == spec_method_token(Method::Post) {
        Some(Method::Post)
    } else if s == spec_method_token(Method::Put) {
        Some(Method::Put)
    } else if s == spec_method_token(Method::Delete) {
        Some(Method::Delete)
    } else if s == spec_method_token(Method::Connect) {
        Some(Method::Connect)
    } else if s == spec_method_token(Method::Options) {
        Some(Method::Options)
    } else if s == spec_method_token(Method::Trace) {
        Some(Method::Trace)
    } else if s == spec_method_token(Method::Patch) {
        Some(Method::Patch)
    } else {
        None
    }
}

impl Method {
    /// Parse a wire token.
    pub fn parse(s: &[u8]) -> (r: Option<Method>)
        ensures
            r == spec_parse_method(s@),
    {
        let r = if s.len() == 3 && s[0] == 71 && s[1] == 69 && s[2] == 84 {
            Some(Method::Get)
        } else if s.len() == 4 && s[0] == 72 && s[1] == 69 && s[2] == 65 && s[3] == 68 {
            Some(Method::Head)
        } else if s.len() == 4 && s[0] == 80 && s[1] == 79 && s[2] == 83 && s[3] == 84 {
            Some(Method::Post)
        } else if s.len() == 3 && s[0] == 80 && s[1] == 85 && s[2] == 84 {
            Some(Method::Put)
        } else if s.len() == 6 && s[0] == 68 && s[1] == 69 && s[2] == 76 && s[3] == 69 && s[4]
            == 84 && s[5] == 69 {
            Some(Method::Delete)
        } else if s.len() == 7 && s[0] == 67 && s[1] == 79 && s[2] == 78 && s[3] == 78 && s[4]
            == 69 && s[5] == 67 && s[6] == 84 {
            Some(Method::Connect)
        } else if s.len() == 7 && s[0] == 79 && s[1] == 80 && s[2] == 84 && s[3] == 73 && s[4]
            == 79 && s[5] == 78 && s[6] == 83 {
            Some(Method::Options)
        } else if s.len() == 5 && s[0] == 84 && s[1] == 82 && s[2] == 65 && s[3] == 67 && s[4]
            == 69 {
            Some(Method::Trace)
        } else if s.len() == 5 && s[0] == 80 && s[1] == 65 && s[2] == 84 && s[3] == 67 && s[4]
            == 72 {
            Some(Method::Patch)
        } else {
            None
        };
        proof {
            lemma_method_tokens_distinct();
            assert forall|m: Method| s@ == spec_method_token(m) implies s@.len()
                == spec_method_token(m).len() by {}
            if r is None {
                assert(s@ != spec_method_token(Method::Get)) by {
                    if s@ == spec_method_token(Method::Get) {
                        assert(s@.len() == 3 && s@[0] == 71 && s@[1] == 69 && s@[2] == 84);
                    }
                }
                assert(s@ != spec_method_token(Method::Head)) by {
                    if s@ == spec_method_token(Method::Head) {
                        assert(s@.len() == 4 && s@[0] == 72);
                    }
                }
                assert(s@ != spec_method_token(Method::Post)) by {
                    if s@ == spec_method_token(Method::Post) {
                        assert(s@.len() == 4 && s@[0] == 80 && s@[1] == 79);
                    }
                }
                assert(s@ != spec_method_token(Method::Put)) by {
                    if s@ == spec_method_token(Method::Put) {
                        assert(s@.len() == 3 && s@[0] == 80);
                    }
                }
                assert(s@ != spec_method_token(Method::Delete)) by {
                    if s@ == spec_method_token(Method::Delete) {
                        assert(s@.len() == 6 && s@[0] == 68);
                    }
                }
                assert(s@ != spec_method_token(Method::Connect)) by {
                    if s@ == spec_method_token(Method::Connect) {
                        assert(s@.len() == 7 && s@[0] == 67);
                    }
                }
                assert(s@ != spec_method_token(Method::Options)) by {
                    if s@ == spec_method_token(Method::Options) {
                        assert(s@.len() == 7 && s@[0] == 79);
                    }
                }
                assert(s@ != spec_method_token(Method::Trace)) by {
                    if s@ == spec_method_token(Method::Trace) {
                        assert(s@.len() == 5 && s@[0] == 84);
                    }
                }
                assert(s@ != spec_method_token(Method::Patch)) by {
                    if s@ == spec_method_token(Method::Patch) {
                        assert(s@.len() == 5 && s@[0] == 80 && s@[1] == 65);
                    }
                }
            } else {
                assert(s@ =~= spec_method_token(r.unwrap()));
            }
        }
        r
    }

    /// The wire token.
    pub fn token_bytes(&self) -> (r: Vec<u8>)
        ensures
            r@ == spec_method_token(*self),
    {
        let mut out: Vec<u8> = Vec::new();
        match self {
            Method::Get => {
                out.push(71);
                out.push(69);
                out.push(84);
            },
            Method::Head => {
                out.push(72);
                out.push(69);
                out.push(65);
                out.push(68);
            },
            Method::Post => {
                out.push(80);
                out.push(79);
                out.push(83);
                out.push(84);
            },
            Method::Put => {
                out.push(80);
                out.push(85);
                out.push(84);
            },
            Method::Delete => {
                out.push(68);
                out.push(69);
                out.push(76);
                out.push(69);
                out.push(84);
                out.push(69);
            },
            Method::Connect => {
                out.push(67);
                out.push(79);
                out.push(78);
                out.push(78);
                out.push(69);
                out.push(67);
                out.push(84);
            },
            Method::Options => {
                out.push(79);
                out.push(80);
                out.push(84);
                out.push(73);
                out.push(79);
                out.push(78);
                out.push(83);
            },
            Method::Trace => {
                out.push(84);
                out.push(82);
                out.push(65);
                out.push(67);
                out.push(69);
            },
            Method::Patch => {
                out.push(80);
                out.push(65);
                out.push(84);
                out.push(67);
                out.push(72);
            },
        }
        proof {
            assert(out@ =~= spec_method_token(*self));
        }
        out
    }

    /// The method's name for display.
    pub fn name(&self) -> (r: &'static str)
        ensures
            r@ == crate::ascii::spec_chars_of_bytes(spec_method_token(*self)),
    {
        proof {
            lemma_method_names();
        }
        match self {
            Method::Get => "GET",
            Method::Head => "HEAD",
            Method::Post => "POST",
            Method::Put => "PUT",
            Method::Delete => "DELETE",
            Method::Connect => "CONNECT",
            Method::Options => "OPTIONS",
            Method::Trace => "TRACE",
            Method::Patch => "PATCH",
        }
    }
}

/// No two methods share a wire token.
pub proof fn lemma_method_tokens_distinct()
    ensures
        forall|m1: Method, m2: Method|
            spec_method_token(m1) == spec_method_token(m2) ==> m1 == m2,
{
    assert forall|m1: Method, m2: Method|
        spec_method_token(m1) == spec_method_token(m2) implies m1 == m2 by {
        if m1 != m2 {
            let t1 = spec_method_token(m1);
            let t2 = spec_method_token(m2);
            if t1.len() == t2.len() {
                assert(t1[0] != t2[0] || t1[1] != t2[1]);
            }
        }
    }
}

/// The display names spell the wire tokens.
proof fn lemma_method_names()
    ensures
        "GET"@ == crate::ascii::spec_chars_of_bytes(spec_method_token(Method::Get)),
        "HEAD"@ == crate::ascii::spec_chars_of_bytes(spec_method_token(Method::Head)),
        "POST"@ == crate::ascii::spec_chars_of_bytes(spec_method_token(Method::Post)),
        "PUT"@ == crate::ascii::spec_chars_of_bytes(spec_method_token(Method::Put)),
        "DELETE"@ == crate::ascii::spec_chars_of_bytes(spec_method_token(Method::Delete)),
        "CONNECT"@ == crate::ascii::spec_chars_of_bytes(spec_method_token(Method::Connect)),
        "OPTIONS"@ == crate::ascii::spec_chars_of_bytes(spec_method_token(Method::Options)),
        "TRACE"@ == crate::ascii::spec_chars_of_bytes(spec_method_token(Method::Trace)),
        "PATCH"@ == crate::ascii::spec_chars_of_bytes(spec_method_token(Method::Patch)),
{
    reveal_strlit("GET");
    reveal_strlit("HEAD");
    reveal_strlit("POST");
    reveal_strlit("PUT");
    reveal_strlit("DELETE");
    reveal_strlit("CONNECT");
    reveal_strlit("OPTIONS");
    reveal_strlit("TRACE");
    reveal_strlit("PATCH");
    assert("GET"@ =~= crate::ascii::spec_chars_of_bytes(spec_method_token(Method::Get)));
    assert("HEAD"@ =~= crate::ascii::spec_chars_of_bytes(spec_method_token(Method::Head)));
    assert("POST"@ =~= crate::ascii::spec_chars_of_bytes(spec_method_token(Method::Post)));
    assert("PUT"@ =~= crate::ascii::spec_chars_of_bytes(spec_method_token(Method::Put)));
    assert("DELETE"@ =~= crate::ascii::spec_chars_of_bytes(spec_method_token(Method::Delete)));
    assert("CONNECT"@ =~= crate::ascii::spec_chars_of_bytes(spec_method_token(Method::Connect)));
    assert("OPTIONS"@ =~= crate::ascii::spec_chars_of_bytes(spec_method_token(Method::Options)));
    assert("TRACE"@ =~= crate::ascii::spec_chars_of_bytes(spec_method_token(Method::Trace)));
    assert("PATCH"@ =~= crate::ascii::spec_chars_of_bytes(spec_method_token(Method::Patch)));
}

} // verus!
