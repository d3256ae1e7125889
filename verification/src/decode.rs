//! The request-head decoder: accumulating the head off the stream under a
//! hard size cap, parsing the request line and headers, resolving the URL,
//! and choosing the body framing.

use vstd::prelude::*;

use crate::ascii;
use crate::ascii::{
    spec_ascii_bytes, spec_chars_of_bytes, spec_bytes_of_chars, spec_lower_bytes,
    spec_lower_chars,
};
use crate::headers::{Headers, spec_find, spec_append};
use crate::method::{Method, spec_parse_method};
use crate::num::{spec_all_dec_digits, spec_dec_val};
use crate::wire::{
    spec_take_line, spec_find_byte, spec_starts_with, take_line_from, find_byte, lemma_find_byte,
};

verus! {

/// The hard cap on accumulated head bytes.
pub open spec fn spec_max_head_len() -> int {
    8192
}

/// The cap on the number of header fields.
pub open spec fn spec_max_headers() -> int {
    128
}

/// How the request body is framed on the wire.
#[derive(Debug, Copy, Clone, Eq, PartialEq, Structural)]
pub enum BodyFraming {
    /// No body follows the head.
    Empty,
    /// Exactly this many bytes follow.
    Fixed(u64),
    /// A chunked stream follows.
    Chunked,
}

/// Why a head was rejected. Every rejection is fatal to the connection.
#[derive(Debug, Copy, Clone, Eq, PartialEq, Structural)]
pub enum DecodeError {
    /// The request line is not `method SP target SP version CRLF`.
    MalformedLine,
    /// The method token is not one this server knows.
    BadMethod,
    /// The version is HTTP/1.x but not 1.1.
    UnsupportedVersion,
    /// More than the permitted number of header fields.
    TooManyHeaders,
    /// A header line is not `name: value` with a well-formed name.
    BadHeader,
    /// An origin-form target without a `Host` header.
    MissingHost,
    /// A target that is neither absolute, origin-form, nor CONNECT-form.
    BadTarget,
    /// Both `Content-Length` and `Transfer-Encoding` are present.
    AmbiguousFraming,
    /// A `Content-Length` value that is not a plain decimal number.
    BadContentLength,
}

impl DecodeError {
    /// The status class of the rejection; every one of these is a client
    /// error, and ambiguous framing in particular answers 400.
    pub fn status(&self) -> (r: u16)
        ensures
            r == 400,
    {
        400
    }
}

/// A resolved request URL, reduced to the parts the server reads.
#[derive(Debug)]
pub struct Url {
    pub host: String,
    pub path: String,
    pub query: Option<String>,
}

impl View for Url {
    type V = (Seq<char>, Seq<char>, Option<Seq<char>>);

    open spec fn view(&self) -> (Seq<char>, Seq<char>, Option<Seq<char>>) {
        (
            self.host@,
            self.path@,
            match self.query {
                Some(ref q) => Some(q@),
                None => None,
            },
        )
    }
}

/// Everything the decoder learns from one request head.
#[derive(Debug)]
pub struct DecodedHead {
    pub method: Method,
    pub url: Url,
    pub headers: Headers,
    pub framing: BodyFraming,
    pub expect_continue: bool,
}

/// The decoded head at the specification level.
pub struct HeadView {
    pub method: Method,
    pub host: Seq<char>,
    pub path: Seq<char>,
    pub query: Option<Seq<char>>,
    pub headers: Seq<(Seq<char>, Seq<Seq<char>>)>,
    pub framing: BodyFraming,
    pub expect_continue: bool,
}

impl View for DecodedHead {
    type V = HeadView;

    open spec fn view(&self) -> HeadView {
        HeadView {
            method: self.method,
            host: self.url@.0,
            path: self.url@.1,
            query: self.url@.2,
            headers: self.headers@,
            framing: self.framing,
            expect_continue: self.expect_continue,
        }
    }
}

/// A valid header name byte: printable ASCII other than the colon.
pub open spec fn spec_name_byte(b: u8) -> bool {
    33 <= b <= 126 && b != 58
}

/// A well-formed header name.
pub open spec fn spec_valid_header_name(n: Seq<u8>) -> bool {
    n.len() >= 1 && forall|i: int| 0 <= i < n.len() ==> spec_name_byte(#[trigger] n[i])
}

/// A valid header value byte: printable ASCII or the horizontal tab.
pub open spec fn spec_value_byte(b: u8) -> bool {
    b == 9 || 32 <= b <= 126
}

/// A well-formed header value.
pub open spec fn spec_valid_header_value(v: Seq<u8>) -> bool {
    forall|i: int| 0 <= i < v.len() ==> spec_value_byte(#[trigger] v[i])
}

/// A valid target byte: printable ASCII without the space.
pub open spec fn spec_target_byte(b: u8) -> bool {
    33 <= b <= 126
}

/// A well-formed request target.
pub open spec fn spec_valid_target(t: Seq<u8>) -> bool {
    t.len() >= 1 && forall|i: int| 0 <= i < t.len() ==> spec_target_byte(#[trigger] t[i])
}

/// Whitespace stripped from header values.
pub open spec fn spec_ws(b: u8) -> bool {
    b == 32 || b == 9
}

/// Drop leading whitespace.
pub open spec fn spec_trim_start(v: Seq<u8>) -> Seq<u8>
    decreases v.len(),
{
    if v.len() > 0 && spec_ws(v[0]) {
        spec_trim_start(v.skip(1))
    } else {
        v
    }
}

/// Drop trailing whitespace.
pub open spec fn spec_trim_end(v: Seq<u8>) -> Seq<u8>
    decreases v.len(),
{
    if v.len() > 0 && spec_ws(v.last()) {
        spec_trim_end(v.drop_last())
    } else {
        v
    }
}

/// Drop whitespace from both ends.
pub open spec fn spec_trim(v: Seq<u8>) -> Seq<u8> {
    spec_trim_end(spec_trim_start(v))
}

/// One parsed header line: the lowercase-folded name and the trimmed value.
pub open spec fn spec_parse_header_line(line: Seq<u8>) -> Option<(Seq<u8>, Seq<u8>)> {
    let c = spec_find_byte(line, 58);
    if c < 1 {
        None
    } else {
        let name = line.take(c);
        let value = spec_trim(line.skip(c + 1));
        if spec_valid_header_name(name) && spec_valid_header_value(value) {
            Some((spec_lower_bytes(name), value))
        } else {
            None
        }
    }
}

/// The header lines of a head, ending at the empty line, which must close
/// the input.
pub open spec fn spec_parse_header_lines(s: Seq<u8>) -> Option<Seq<(Seq<u8>, Seq<u8>)>>
    decreases s.len(),
{
    match spec_take_line(s) {
        None => None,
        Some(lr) => {
            if lr.0.len() == 0 {
                if lr.1.len() == 0 {
                    Some(Seq::<(Seq<u8>, Seq<u8>)>::empty())
                } else {
                    None
                }
            } else if lr.1.len() < s.len() {
                match spec_parse_header_line(lr.0) {
                    None => None,
                    Some(p) => match spec_parse_header_lines(lr.1) {
                        None => None,
                        Some(ps) => Some(seq![p] + ps),
                    },
                }
            } else {
                None
            }
        },
    }
}

/// Parsed name/value pairs grouped into the ordered header collection, by
/// appending them in order.
pub open spec fn spec_collect(flat: Seq<(Seq<u8>, Seq<u8>)>) -> Seq<(Seq<char>, Seq<Seq<char>>)>
    decreases flat.len(),
{
    if flat.len() == 0 {
        Seq::<(Seq<char>, Seq<Seq<char>>)>::empty()
    } else {
        let p = flat.last();
        spec_append(
            spec_collect(flat.drop_last()),
            spec_lower_chars(spec_chars_of_bytes(p.0)),
            spec_chars_of_bytes(p.1),
        )
    }
}

/// The request line split into method token, target, and version token.
pub open spec fn spec_split_request_line(line: Seq<u8>) -> Option<(Seq<u8>, Seq<u8>, Seq<u8>)> {
    let sp1 = spec_find_byte(line, 32);
    if sp1 < 1 {
        None
    } else {
        let rest = line.skip(sp1 + 1);
        let sp2 = spec_find_byte(rest, 32);
        if sp2 < 1 {
            None
        } else {
            let target = rest.take(sp2);
            let version = rest.skip(sp2 + 1);
            if spec_valid_target(target) {
                Some((line.take(sp1), target, version))
            } else {
                None
            }
        }
    }
}

/// The bytes of `HTTP/1.`.
pub open spec fn spec_http_1_dot() -> Seq<u8> {
    seq![72u8, 84u8, 84u8, 80u8, 47u8, 49u8, 46u8]
}

/// First value of the header entry named `name`, if any.
pub open spec fn spec_first_value(
    grouped: Seq<(Seq<char>, Seq<Seq<char>>)>,
    name: Seq<char>,
) -> Option<Seq<char>> {
    let f = spec_find(grouped, name);
    if f >= 0 && grouped[f].1.len() >= 1 {
        Some(grouped[f].1[0])
    } else {
        None
    }
}

/// Last value of the header entry named `name`, if any.
pub open spec fn spec_last_value(
    grouped: Seq<(Seq<char>, Seq<Seq<char>>)>,
    name: Seq<char>,
) -> Option<Seq<char>> {
    let f = spec_find(grouped, name);
    if f >= 0 && grouped[f].1.len() >= 1 {
        Some(grouped[f].1.last())
    } else {
        None
    }
}

/// The body framing a header collection implies, or why it is rejected:
/// an unreadable `Content-Length` first, then the ambiguous dual framing,
/// then chunked transfer, then the declared length, and an empty body when
/// nothing is declared.
pub open spec fn spec_framing(grouped: Seq<(Seq<char>, Seq<Seq<char>>)>) -> Result<
    BodyFraming,
    DecodeError,
> {
    let cl = spec_find(grouped, "content-length"@);
    let te = spec_find(grouped, "transfer-encoding"@);
    let clval = spec_first_value(grouped, "content-length"@);
    if cl >= 0 && !(clval matches Some(v) && spec_all_dec_digits(spec_bytes_of_chars(v))
        && v.len() >= 1 && spec_dec_val(spec_bytes_of_chars(v)) <= u64::MAX) {
        Err(DecodeError::BadContentLength)
    } else if cl >= 0 && te >= 0 {
        Err(DecodeError::AmbiguousFraming)
    } else if te >= 0 && (spec_last_value(grouped, "transfer-encoding"@) matches Some(v)
        && spec_lower_chars(v) == "chunked"@) {
        Ok(BodyFraming::Chunked)
    } else if cl >= 0 {
        Ok(BodyFraming::Fixed(spec_dec_val(spec_bytes_of_chars(clval.unwrap())) as u64))
    } else {
        Ok(BodyFraming::Empty)
    }
}

/// Whether the head asks for a `100 Continue` interim response.
pub open spec fn spec_expect_continue(grouped: Seq<(Seq<char>, Seq<Seq<char>>)>) -> bool {
    &&& spec_first_value(grouped, "expect"@) matches Some(v)
    &&& spec_lower_chars(v) == "100-continue"@
}

/// An absolute-form target after its scheme prefix: host, path, query.
pub open spec fn spec_split_authority(rest: Seq<u8>) -> Result<
    (Seq<char>, Seq<char>, Option<Seq<char>>),
    DecodeError,
> {
    let sl = spec_find_byte(rest, 47);
    let host = if sl < 0 {
        rest
    } else {
        rest.take(sl)
    };
    let pathq = if sl < 0 {
        seq![47u8]
    } else {
        rest.skip(sl)
    };
    if host.len() == 0 {
        Err(DecodeError::BadTarget)
    } else {
        let q = spec_find_byte(pathq, 63);
        if q < 0 {
            Ok((spec_chars_of_bytes(host), spec_chars_of_bytes(pathq), None))
        } else {
            Ok(
                (
                    spec_chars_of_bytes(host),
                    spec_chars_of_bytes(pathq.take(q)),
                    Some(spec_chars_of_bytes(pathq.skip(q + 1))),
                ),
            )
        }
    }
}

/// The resolved URL of a request: from an absolute-form target, from an
/// origin-form target plus the mandatory `Host` header, or from a
/// CONNECT-form target.
pub open spec fn spec_resolve_url(
    method: Method,
    target: Seq<u8>,
    grouped: Seq<(Seq<char>, Seq<Seq<char>>)>,
) -> Result<(Seq<char>, Seq<char>, Option<Seq<char>>), DecodeError> {
    if spec_starts_with(target, seq![104u8, 116u8, 116u8, 112u8, 58u8, 47u8, 47u8]) {
        spec_split_authority(target.skip(7))
    } else if spec_starts_with(
        target,
        seq![104u8, 116u8, 116u8, 112u8, 115u8, 58u8, 47u8, 47u8],
    ) {
        spec_split_authority(target.skip(8))
    } else if target.len() >= 1 && target[0] == 47 {
        match spec_first_value(grouped, "host"@) {
            None => Err(DecodeError::MissingHost),
            Some(host) => {
                let q = spec_find_byte(target, 63);
                if q < 0 {
                    Ok((host, spec_chars_of_bytes(target), None))
                } else {
                    Ok(
                        (
                            host,
                            spec_chars_of_bytes(target.take(q)),
                            Some(spec_chars_of_bytes(target.skip(q + 1))),
                        ),
                    )
                }
            },
        }
    } else if method is Connect {
        Ok((spec_chars_of_bytes(target), seq!['/'], None))
    } else {
        Err(DecodeError::BadTarget)
    }
}

/// The whole head decode at the specification level; the reference for the
/// executable decoder.
pub open spec fn spec_decode_head(s: Seq<u8>) -> Result<HeadView, DecodeError> {
    match spec_take_line(s) {
        None => Err(DecodeError::MalformedLine),
        Some(lr) => match spec_split_request_line(lr.0) {
            None => Err(DecodeError::MalformedLine),
            Some(mtv) => {
                let version = mtv.2;
                if !(version.len() == 8 && version.take(7) == spec_http_1_dot() && 48
                    <= version[7] <= 57) {
                    Err(DecodeError::MalformedLine)
                } else if version[7] != 49 {
                    Err(DecodeError::UnsupportedVersion)
                } else {
                    match spec_parse_method(mtv.0) {
                        None => Err(DecodeError::BadMethod),
                        Some(method) => match spec_parse_header_lines(lr.1) {
                            None => Err(DecodeError::BadHeader),
                            Some(flat) => {
                                if flat.len() > spec_max_headers() {
                                    Err(DecodeError::TooManyHeaders)
                                } else {
                                    let grouped = spec_collect(flat);
                                    match spec_resolve_url(method, mtv.1, grouped) {
                                        Err(e) => Err(e),
                                        Ok(url) => match spec_framing(grouped) {
                                            Err(e) => Err(e),
                                            Ok(framing) => Ok(
                                                HeadView {
                                                    method,
                                                    host: url.0,
                                                    path: url.1,
                                                    query: url.2,
                                                    headers: grouped,
                                                    framing,
                                                    expect_continue: spec_expect_continue(grouped),
                                                },
                                            ),
                                        },
                                    }
                                }
                            },
                        },
                    }
                }
            },
        },
    }
}

/// The index of the first `CRLFCRLF` in `s`, or `-1`.
pub open spec fn spec_find_head_end(s: Seq<u8>) -> int
    decreases s.len(),
{
    if s.len() < 4 {
        -1
    } else if s[0] == 13 && s[1] == 10 && s[2] == 13 && s[3] == 10 {
        0
    } else {
        let r = spec_find_head_end(s.skip(1));
        if r < 0 {
            -1
        } else {
            r + 1
        }
    }
}

/// `spec_find_head_end` finds the first head terminator, and `-1` means
/// there is none.
pub proof fn lemma_find_head_end(s: Seq<u8>)
    ensures
        -1 <= spec_find_head_end(s) <= s.len() - 4 || spec_find_head_end(s) == -1,
        spec_find_head_end(s) >= 0 ==> {
            let i = spec_find_head_end(s);
            i + 4 <= s.len() && s[i] == 13 && s[i + 1] == 10 && s[i + 2] == 13 && s[i + 3] == 10
        },
        forall|j: int|
            0 <= j <= s.len() - 4 && (j < spec_find_head_end(s) || spec_find_head_end(s) == -1)
                ==> !(s[j] == 13 && s[j + 1] == 10 && s[j + 2] == 13 && #[trigger] s[j + 3] == 10),
    decreases s.len(),
{
    if s.len() >= 4 && !(s[0] == 13 && s[1] == 10 && s[2] == 13 && s[3] == 10) {
        lemma_find_head_end(s.skip(1));
        assert forall|j: int|
            0 <= j <= s.len() - 4 && (j < spec_find_head_end(s) || spec_find_head_end(s) == -1)
                implies !(s[j] == 13 && s[j + 1] == 10 && s[j + 2] == 13 && #[trigger] s[j + 3]
                == 10) by {
            let fs = spec_find_head_end(s);
            let fk = spec_find_head_end(s.skip(1));
            if j > 0 {
                assert(s.skip(1)[j - 1] == s[j]);
                assert(s.skip(1)[j - 1 + 1] == s[j + 1]);
                assert(s.skip(1)[j - 1 + 2] == s[j + 2]);
                assert(s.skip(1)[j - 1 + 3] == s[j + 3]);
                if fs == -1 {
                    assert(fk == -1);
                } else {
                    assert(fk == fs - 1);
                }
                assert(!(s.skip(1)[j - 1] == 13 && s.skip(1)[j - 1 + 1] == 10 && s.skip(1)[j - 1
                    + 2] == 13 && s.skip(1)[j - 1 + 3] == 10));
            }
        }
    }
}

/// What one feeding of bytes to the head reader concluded.
#[derive(Debug, Copy, Clone, Eq, PartialEq, Structural)]
pub enum HeadStatus {
    /// The head is not complete yet; keep reading.
    Partial,
    /// The head is complete: this many buffered bytes form it, terminator
    /// included; anything after them belongs to the body.
    Complete(usize),
    /// The accumulated bytes reached the hard cap without completing a
    /// head; the connection must be closed.
    TooLarge,
}

/// Accumulates bytes off the stream until one full request head, enforcing
/// the hard cap on head size.
pub struct HeadReader {
    pub buf: Vec<u8>,
}

impl HeadReader {
    /// An empty reader.
    pub fn new() -> (r: HeadReader)
        ensures
            r.buf@.len() == 0,
    {
        HeadReader { buf: Vec::new() }
    }

    /// Feed the next bytes read off the stream. The head is complete when
    /// the buffer holds the `CRLFCRLF` terminator; a buffer that reaches
    /// the cap first is rejected.
    pub fn push(&mut self, chunk: &[u8]) -> (r: HeadStatus)
        requires
            old(self).buf@.len() + chunk@.len() <= usize::MAX,
        ensures
            final(self).buf@ == old(self).buf@ + chunk@,
            ({
                let b = final(self).buf@;
                let f = spec_find_head_end(b);
                match r {
                    HeadStatus::TooLarge => b.len() >= spec_max_head_len(),
                    HeadStatus::Complete(n) => b.len() < spec_max_head_len() && f >= 0 && n == f
                        + 4,
                    HeadStatus::Partial => b.len() < spec_max_head_len() && f == -1,
                }
            }),
    {
        self.buf.extend_from_slice(chunk);
        proof {
            assert(self.buf@ =~= old(self).buf@ + chunk@);
        }
        if self.buf.len() >= 8192 {
            return HeadStatus::TooLarge;
        }
        let ghost b = self.buf@;
        proof {
            lemma_find_head_end(b);
        }
        let n = self.buf.len();
        if n < 4 {
            proof {
                if spec_find_head_end(b) >= 0 {
                    assert(spec_find_head_end(b) + 4 <= b.len());
                }
            }
            return HeadStatus::Partial;
        }
        let mut i: usize = 0;
        while i + 4 <= n
            invariant
                0 <= i,
                i + 4 <= n + 1,
                n < 8192,
                n == b.len(),
                b == self.buf@,
                self.buf@ == old(self).buf@ + chunk@,
                n == self.buf@.len(),
                forall|j: int|
                    0 <= j < i ==> !(b[j] == 13 && b[j + 1] == 10 && b[j + 2] == 13
                        && #[trigger] b[j + 3] == 10),
                -1 <= spec_find_head_end(b) <= b.len() - 4 || spec_find_head_end(b) == -1,
                spec_find_head_end(b) >= 0 ==> {
                    let fi = spec_find_head_end(b);
                    fi + 4 <= b.len() && b[fi] == 13 && b[fi + 1] == 10 && b[fi + 2] == 13 && b[fi
                        + 3] == 10
                },
                forall|j: int|
                    0 <= j <= b.len() - 4 && (j < spec_find_head_end(b) || spec_find_head_end(b)
                        == -1) ==> !(b[j] == 13 && b[j + 1] == 10 && b[j + 2] == 13
                        && #[trigger] b[j + 3] == 10),
            decreases n - i,
        {
            if self.buf[i] == 13 && self.buf[i + 1] == 10 && self.buf[i + 2] == 13 && self.buf[i
                + 3] == 10 {
                proof {
                    let f = spec_find_head_end(b);
                    if f == -1 || f > i {
                        assert(!(b[i as int] == 13 && b[i as int + 1] == 10 && b[i as int + 2] == 13
                            && b[i as int + 3] == 10));
                    } else if f < i {
                        assert(!(b[f] == 13 && b[f + 1] == 10 && b[f + 2] == 13 && b[f + 3] == 10));
                    }
                }
                return HeadStatus::Complete(i + 4);
            }
            i = i + 1;
        }
        proof {
            let f = spec_find_head_end(b);
            if f >= 0 {
                assert(!(b[f] == 13 && b[f + 1] == 10 && b[f + 2] == 13 && b[f + 3] == 10));
            }
        }
        HeadStatus::Partial
    }
}

/// The view of a parsed name/value pair list.
pub open spec fn spec_pairs_view(v: Seq<(Vec<u8>, Vec<u8>)>) -> Seq<(Seq<u8>, Seq<u8>)> {
    Seq::new(v.len(), |i: int| (v[i].0@, v[i].1@))
}

/// `spec_trim_start` drops exactly the leading whitespace run.
proof fn lemma_trim_start_skip(v: Seq<u8>, a: int)
    requires
        0 <= a <= v.len(),
        forall|j: int| 0 <= j < a ==> spec_ws(#[trigger] v[j]),
        a == v.len() || !spec_ws(v[a]),
    ensures
        spec_trim_start(v) == v.skip(a),
    decreases a,
{
    if a == 0 {
        assert(v.skip(0) =~= v);
    } else {
        assert(spec_ws(v[0]));
        lemma_trim_start_skip(v.skip(1), a - 1);
        assert(v.skip(1).skip(a - 1) =~= v.skip(a));
        assert forall|j: int| 0 <= j < a - 1 implies spec_ws(#[trigger] v.skip(1)[j]) by {
            assert(v.skip(1)[j] == v[j + 1]);
        }
        if a < v.len() {
            assert(v.skip(1)[a - 1] == v[a]);
        }
    }
}

/// `spec_trim_end` drops exactly the trailing whitespace run.
proof fn lemma_trim_end_take(v: Seq<u8>, b: int)
    requires
        0 <= b <= v.len(),
        forall|j: int| b <= j < v.len() ==> spec_ws(#[trigger] v[j]),
        b == 0 || !spec_ws(v[b - 1]),
    ensures
        spec_trim_end(v) == v.take(b),
    decreases v.len() - b,
{
    if b == v.len() {
        assert(v.take(b) =~= v);
    } else {
        assert(spec_ws(v.last()));
        lemma_trim_end_take(v.drop_last(), b);
        assert(v.drop_last().take(b) =~= v.take(b));
    }
}

/// Strip whitespace from both ends of a value.
pub fn trim_value(v: &[u8]) -> (r: Vec<u8>)
    ensures
        r@ == spec_trim(v@),
{
    let n = v.len();
    let mut a: usize = 0;
    while a < n && (v[a] == 32 || v[a] == 9)
        invariant
            0 <= a <= n,
            n == v@.len(),
            forall|j: int| 0 <= j < a ==> spec_ws(#[trigger] v@[j]),
        decreases n - a,
    {
        a = a + 1;
    }
    let mut b: usize = n;
    while b > a && (v[b - 1] == 32 || v[b - 1] == 9)
        invariant
            a <= b <= n,
            n == v@.len(),
            forall|j: int| 0 <= j < a ==> spec_ws(#[trigger] v@[j]),
            a == n || !spec_ws(v@[a as int]),
            forall|j: int| b <= j < n ==> spec_ws(#[trigger] v@[j]),
        decreases b,
    {
        b = b - 1;
    }
    let r = vstd::slice::slice_to_vec(&v[a..b]);
    proof {
        lemma_trim_start_skip(v@, a as int);
        let u = v@.skip(a as int);
        assert forall|j: int| b - a <= j < u.len() implies spec_ws(#[trigger] u[j]) by {
            assert(u[j] == v@[j + a]);
        }
        if b > a {
            assert(u[b - a - 1] == v@[b - 1]);
        }
        lemma_trim_end_take(u, b - a);
        assert(u.take(b - a) =~= v@.subrange(a as int, b as int));
    }
    r
}

/// Check every byte of a header name.
fn valid_name(n: &[u8]) -> (r: bool)
    ensures
        r == spec_valid_header_name(n@),
{
    if n.len() == 0 {
        return false;
    }
    let mut i: usize = 0;
    while i < n.len()
        invariant
            0 <= i <= n@.len(),
            forall|j: int| 0 <= j < i ==> spec_name_byte(#[trigger] n@[j]),
        decreases n@.len() - i,
    {
        let b = n[i];
        if !(33 <= b && b <= 126 && b != 58) {
            return false;
        }
        i = i + 1;
    }
    true
}

/// Check every byte of a header value.
fn valid_value(v: &[u8]) -> (r: bool)
    ensures
        r == spec_valid_header_value(v@),
{
    let mut i: usize = 0;
    while i < v.len()
        invariant
            0 <= i <= v@.len(),
            forall|j: int| 0 <= j < i ==> spec_value_byte(#[trigger] v@[j]),
        decreases v@.len() - i,
    {
        let b = v[i];
        if !(b == 9 || (32 <= b && b <= 126)) {
            return false;
        }
        i = i + 1;
    }
    true
}

/// Check every byte of a request target.
fn valid_target(t: &[u8]) -> (r: bool)
    ensures
        r == spec_valid_target(t@),
{
    if t.len() == 0 {
        return false;
    }
    let mut i: usize = 0;
    while i < t.len()
        invariant
            0 <= i <= t@.len(),
            forall|j: int| 0 <= j < i ==> spec_target_byte(#[trigger] t@[j]),
        decreases t@.len() - i,
    {
        let b = t[i];
        if !(33 <= b && b <= 126) {
            return false;
        }
        i = i + 1;
    }
    true
}

/// Parse one header line into its lowercase-folded name and trimmed value.
fn parse_header_line(line: &[u8]) -> (r: Option<(Vec<u8>, Vec<u8>)>)
    ensures
        (match r {
            Some(p) => spec_parse_header_line(line@) == Some((p.0@, p.1@)),
            None => spec_parse_header_line(line@) is None,
        }),
{
    match find_byte(line, 58) {
        None => None,
        Some(c) => {
            if c == 0 {
                return None;
            }
            let ln = line.len();
            let name = &line[0..c];
            let rawvalue = &line[c + 1..ln];
            proof {
                assert(name@ =~= line@.take(c as int));
                assert(rawvalue@ =~= line@.skip(c as int + 1));
            }
            let value = trim_value(rawvalue);
            if valid_name(name) && valid_value(value.as_slice()) {
                let lowered = ascii::lower_bytes(name);
                Some((lowered, value))
            } else {
                None
            }
        },
    }
}

/// Parse the header lines from `from` to the closing empty line, which
/// must end the buffer.
fn parse_header_lines_at(s: &[u8], from: usize) -> (r: Option<Vec<(Vec<u8>, Vec<u8>)>>)
    requires
        from <= s@.len(),
    ensures
        (match r {
            Some(flat) => spec_parse_header_lines(s@.skip(from as int)) == Some(
                spec_pairs_view(flat@),
            ),
            None => spec_parse_header_lines(s@.skip(from as int)) is None,
        }),
    decreases s@.len() - from,
{
    let ghost t = s@.skip(from as int);
    match take_line_from(s, from) {
        None => None,
        Some((end, rest)) => {
            if end == from {
                if rest == s.len() {
                    let flat: Vec<(Vec<u8>, Vec<u8>)> = Vec::new();
                    proof {
                        assert(s@.subrange(from as int, end as int) =~= Seq::<u8>::empty());
                        assert(s@.skip(rest as int).len() == 0);
                        assert(spec_pairs_view(flat@) =~= Seq::<(Seq<u8>, Seq<u8>)>::empty());
                    }
                    Some(flat)
                } else {
                    None
                }
            } else {
                proof {
                    assert(s@.subrange(from as int, end as int).len() > 0);
                    assert(s@.skip(rest as int).len() < t.len());
                }
                match parse_header_line(&s[from..end]) {
                    None => {
                        proof {
                            assert((&s@.subrange(from as int, end as int))
                                == s@.subrange(from as int, end as int));
                        }
                        None
                    },
                    Some(p) => {
                        match parse_header_lines_at(s, rest) {
                            None => None,
                            Some(tail) => {
                                let mut flat = tail;
                                flat.insert(0, p);
                                proof {
                                    assert(spec_pairs_view(flat@) =~= seq![
                                        (flat@[0].0@, flat@[0].1@),
                                    ] + spec_pairs_view(flat@.skip(1)));
                                    assert(flat@.skip(1) =~= flat@.subrange(
                                        1,
                                        flat@.len() as int,
                                    ));
                                    assert(spec_pairs_view(flat@.skip(1)) =~= spec_pairs_view(
                                        flat@,
                                    ).skip(1));
                                }
                                Some(flat)
                            },
                        }
                    },
                }
            }
        },
    }
}

/// Every pair a successful header parse yields has a nonempty folded name
/// of printable bytes and a value of printable bytes.
proof fn lemma_parsed_pairs_valid(s: Seq<u8>)
    requires
        spec_parse_header_lines(s) is Some,
    ensures
        forall|i: int|
            0 <= i < spec_parse_header_lines(s).unwrap().len() ==> {
                let p = #[trigger] spec_parse_header_lines(s).unwrap()[i];
                &&& p.0.len() >= 1
                &&& spec_lower_bytes(p.0) == p.0
                &&& spec_ascii_bytes(p.0)
                &&& spec_ascii_bytes(p.1)
            },
    decreases s.len(),
{
    let lr = spec_take_line(s).unwrap();
    if lr.0.len() > 0 {
        let p0 = spec_parse_header_line(lr.0).unwrap();
        let c = spec_find_byte(lr.0, 58);
        let name = lr.0.take(c);
        assert(p0.0 == spec_lower_bytes(name));
        assert forall|j: int| 0 <= j < p0.0.len() implies #[trigger] p0.0[j] < 128
            && spec_lower_byte(p0.0[j]) == p0.0[j] by {
            assert(spec_name_byte(name[j]));
            assert(p0.0[j] == spec_lower_byte(name[j]));
        }
        assert(spec_lower_bytes(p0.0) =~= p0.0);
        assert forall|j: int| 0 <= j < p0.1.len() implies #[trigger] p0.1[j] < 128 by {
            assert(spec_value_byte(p0.1[j]));
        }
        lemma_parsed_pairs_valid(lr.1);
        let ps = spec_parse_header_lines(lr.1).unwrap();
        let whole = spec_parse_header_lines(s).unwrap();
        assert(whole == seq![p0] + ps);
        assert forall|i: int| 0 <= i < whole.len() implies {
            let p = #[trigger] whole[i];
            &&& p.0.len() >= 1
            &&& spec_lower_bytes(p.0) == p.0
            &&& spec_ascii_bytes(p.0)
            &&& spec_ascii_bytes(p.1)
        } by {
            if i == 0 {
                assert(whole[0] == p0);
            } else {
                assert(whole[i] == ps[i - 1]);
            }
        }
    }
}

use crate::ascii::spec_lower_byte;

/// The wire names the decoder looks up are ASCII and already folded.
proof fn lemma_decode_literals()
    ensures
        "content-length".is_ascii(),
        spec_lower_chars("content-length"@) == "content-length"@,
        "transfer-encoding".is_ascii(),
        spec_lower_chars("transfer-encoding"@) == "transfer-encoding"@,
        "host".is_ascii(),
        spec_lower_chars("host"@) == "host"@,
        "expect".is_ascii(),
        spec_lower_chars("expect"@) == "expect"@,
{
    reveal_strlit("content-length");
    reveal_strlit("transfer-encoding");
    reveal_strlit("host");
    reveal_strlit("expect");
    assert(spec_lower_chars("content-length"@) =~= "content-length"@);
    assert(spec_lower_chars("transfer-encoding"@) =~= "transfer-encoding"@);
    assert(spec_lower_chars("host"@) =~= "host"@);
    assert(spec_lower_chars("expect"@) =~= "expect"@);
}

/// Group parsed pairs into the ordered header collection.
fn collect_headers(flat: &Vec<(Vec<u8>, Vec<u8>)>) -> (r: Headers)
    requires
        forall|i: int|
            0 <= i < spec_pairs_view(flat@).len() ==> {
                let p = #[trigger] spec_pairs_view(flat@)[i];
                &&& p.0.len() >= 1
                &&& spec_lower_bytes(p.0) == p.0
                &&& spec_ascii_bytes(p.0)
                &&& spec_ascii_bytes(p.1)
            },
    ensures
        r@ == spec_collect(spec_pairs_view(flat@)),
        r.wf(),
{
    let ghost pv = spec_pairs_view(flat@);
    let mut headers = Headers::new();
    proof {
        assert(pv.take(0) =~= Seq::<(Seq<u8>, Seq<u8>)>::empty());
    }
    let mut i: usize = 0;
    while i < flat.len()
        invariant
            0 <= i <= flat@.len(),
            pv == spec_pairs_view(flat@),
            pv.len() == flat@.len(),
            forall|k: int|
                0 <= k < pv.len() ==> {
                    let p = #[trigger] pv[k];
                    &&& p.0.len() >= 1
                    &&& spec_lower_bytes(p.0) == p.0
                    &&& spec_ascii_bytes(p.0)
                    &&& spec_ascii_bytes(p.1)
                },
            headers@ == spec_collect(pv.take(i as int)),
            headers.wf(),
        decreases flat@.len() - i,
    {
        let ghost p = pv[i as int];
        let name_s = match ascii::bytes_to_string_checked(flat[i].0.as_slice()) {
            Some(x) => x,
            None => {
                proof {
                    assert(false);
                }
                String::new()
            },
        };
        let value_s = match ascii::bytes_to_string_checked(flat[i].1.as_slice()) {
            Some(x) => x,
            None => {
                proof {
                    assert(false);
                }
                String::new()
            },
        };
        proof {
            ascii::lemma_lower_chars_of_folded(p.0);
        }
        headers.append(name_s.as_str(), value_s.as_str());
        i = i + 1;
        proof {
            assert(pv.take(i as int).drop_last() =~= pv.take(i - 1));
            assert(pv.take(i as int).last() == p);
            assert(headers@ == spec_collect(pv.take(i as int)));
        }
    }
    proof {
        assert(pv.take(pv.len() as int) =~= pv);
    }
    headers
}

/// Decide the body framing from the collected headers.
fn framing_of(headers: &Headers) -> (r: Result<BodyFraming, DecodeError>)
    requires
        headers.wf(),
    ensures
        (match r {
            Ok(f) => spec_framing(headers@) == Ok::<BodyFraming, DecodeError>(f),
            Err(e) => spec_framing(headers@) == Err::<BodyFraming, DecodeError>(e),
        }),
{
    proof {
        lemma_decode_literals();
        reveal_strlit("chunked");
    }
    let cl_present: bool;
    let mut cl_value: Option<u64> = None;
    match headers.header("content-length") {
        Some(vs) => {
            cl_present = true;
            if vs.len() == 0 {
                return Err(DecodeError::BadContentLength);
            }
            let first = &vs[0];
            proof {
                assert(vs.deep_view()[0] == first@);
                let f = spec_find(headers@, "content-length"@);
                crate::headers::lemma_find_first(headers@, "content-length"@);
                assert(crate::headers::wf_entry(headers@[f]));
                assert(vstd::utf8::is_ascii_chars(first@));
            }
            let bytes = ascii::string_to_bytes(first.as_str());
            match crate::num::parse_dec(bytes.as_slice()) {
                None => {
                    return Err(DecodeError::BadContentLength);
                },
                Some(n) => {
                    cl_value = Some(n);
                },
            }
        },
        None => {
            cl_present = false;
        },
    }
    let te_present = headers.contains("transfer-encoding");
    if cl_present && te_present {
        return Err(DecodeError::AmbiguousFraming);
    }
    if te_present {
        match headers.header("transfer-encoding") {
            Some(vs) => {
                if vs.len() > 0 {
                    let last = &vs[vs.len() - 1];
                    proof {
                        assert(vs.deep_view()[vs@.len() - 1] == last@);
                        let f = spec_find(headers@, "transfer-encoding"@);
                        crate::headers::lemma_find_first(headers@, "transfer-encoding"@);
                        assert(crate::headers::wf_entry(headers@[f]));
                        assert(vstd::utf8::is_ascii_chars(last@));
                    }
                    let folded = ascii::lower_string(last.as_str());
                    let chunked = String::from_str("chunked");
                    if folded == chunked {
                        return Ok(BodyFraming::Chunked);
                    }
                }
            },
            None => {
                proof {
                    assert(false);
                }
            },
        }
    }
    match cl_value {
        Some(n) => Ok(BodyFraming::Fixed(n)),
        None => Ok(BodyFraming::Empty),
    }
}

/// Whether the head asks for a `100 Continue` interim response.
fn expect_continue_of(headers: &Headers) -> (r: bool)
    requires
        headers.wf(),
    ensures
        r == spec_expect_continue(headers@),
{
    proof {
        lemma_decode_literals();
        reveal_strlit("100-continue");
    }
    match headers.header("expect") {
        Some(vs) => {
            if vs.len() == 0 {
                return false;
            }
            let first = &vs[0];
            proof {
                assert(vs.deep_view()[0] == first@);
                let f = spec_find(headers@, "expect"@);
                crate::headers::lemma_find_first(headers@, "expect"@);
                assert(crate::headers::wf_entry(headers@[f]));
                assert(vstd::utf8::is_ascii_chars(first@));
            }
            let folded = ascii::lower_string(first.as_str());
            let token = String::from_str("100-continue");
            folded == token
        },
        None => false,
    }
}

/// Split an absolute-form target's remainder into host, path and query.
fn split_authority(rest: &[u8]) -> (r: Result<Url, DecodeError>)
    requires
        spec_ascii_bytes(rest@),
    ensures
        (match r {
            Ok(u) => spec_split_authority(rest@) == Ok::<
                (Seq<char>, Seq<char>, Option<Seq<char>>),
                DecodeError,
            >(u@),
            Err(e) => spec_split_authority(rest@) == Err::<
                (Seq<char>, Seq<char>, Option<Seq<char>>),
                DecodeError,
            >(e),
        }),
{
    let (host_b, pathq_b): (Vec<u8>, Vec<u8>) = match find_byte(rest, 47) {
        None => {
            let mut slash: Vec<u8> = Vec::new();
            slash.push(47);
            proof {
                assert(slash@ =~= seq![47u8]);
            }
            (vstd::slice::slice_to_vec(rest), slash)
        },
        Some(sl) => {
            let h = vstd::slice::slice_to_vec(&rest[0..sl]);
            let p = vstd::slice::slice_to_vec(&rest[sl..rest.len()]);
            proof {
                assert(h@ =~= rest@.take(sl as int));
                assert(p@ =~= rest@.skip(sl as int));
            }
            (h, p)
        },
    };
    if host_b.len() == 0 {
        return Err(DecodeError::BadTarget);
    }
    proof {
        assert forall|j: int| 0 <= j < pathq_b@.len() implies #[trigger] pathq_b@[j] < 128 by {}
    }
    let host = match ascii::bytes_to_string_checked(host_b.as_slice()) {
        Some(x) => x,
        None => {
            proof {
                assert(false);
            }
            String::new()
        },
    };
    match find_byte(pathq_b.as_slice(), 63) {
        None => {
            let path = match ascii::bytes_to_string_checked(pathq_b.as_slice()) {
                Some(x) => x,
                None => {
                    proof {
                        assert(false);
                    }
                    String::new()
                },
            };
            Ok(Url { host, path, query: None })
        },
        Some(q) => {
            let path_b = vstd::slice::slice_to_vec(&pathq_b.as_slice()[0..q]);
            let query_b = vstd::slice::slice_to_vec(
                &pathq_b.as_slice()[q + 1..pathq_b.len()],
            );
            proof {
                assert(path_b@ =~= pathq_b@.take(q as int));
                assert(query_b@ =~= pathq_b@.skip(q as int + 1));
            }
            let path = match ascii::bytes_to_string_checked(path_b.as_slice()) {
                Some(x) => x,
                None => {
                    proof {
                        assert(false);
                    }
                    String::new()
                },
            };
            let query = match ascii::bytes_to_string_checked(query_b.as_slice()) {
                Some(x) => x,
                None => {
                    proof {
                        assert(false);
                    }
                    String::new()
                },
            };
            Ok(Url { host, path, query: Some(query) })
        },
    }
}

/// Resolve the request URL from the target form and the headers.
fn resolve_url(method: Method, target: &[u8], headers: &Headers) -> (r: Result<Url, DecodeError>)
    requires
        headers.wf(),
        spec_valid_target(target@),
    ensures
        (match r {
            Ok(u) => spec_resolve_url(method, target@, headers@) == Ok::<
                (Seq<char>, Seq<char>, Option<Seq<char>>),
                DecodeError,
            >(u@),
            Err(e) => spec_resolve_url(method, target@, headers@) == Err::<
                (Seq<char>, Seq<char>, Option<Seq<char>>),
                DecodeError,
            >(e),
        }),
{
    proof {
        lemma_decode_literals();
        assert forall|j: int| 0 <= j < target@.len() implies #[trigger] target@[j] < 128 by {
            assert(spec_target_byte(target@[j]));
        }
    }
    let n = target.len();
    let is_http = n >= 7 && target[0] == 104 && target[1] == 116 && target[2] == 116 && target[3]
        == 112 && target[4] == 58 && target[5] == 47 && target[6] == 47;
    let is_https = n >= 8 && target[0] == 104 && target[1] == 116 && target[2] == 116 && target[3]
        == 112 && target[4] == 115 && target[5] == 58 && target[6] == 47 && target[7] == 47;
    if is_http {
        proof {
            assert(target@.take(7) =~= seq![104u8, 116u8, 116u8, 112u8, 58u8, 47u8, 47u8]);
        }
        let rest = &target[7..n];
        proof {
            assert(rest@ =~= target@.skip(7));
        }
        split_authority(rest)
    } else if is_https {
        proof {
            assert(!spec_starts_with(target@, seq![104u8, 116u8, 116u8, 112u8, 58u8, 47u8, 47u8]))
                by {
                if spec_starts_with(target@, seq![104u8, 116u8, 116u8, 112u8, 58u8, 47u8, 47u8]) {
                    assert(target@.take(7)[4] == 58);
                    assert(target@[4] == 115);
                }
            }
            assert(target@.take(8) =~= seq![104u8, 116u8, 116u8, 112u8, 115u8, 58u8, 47u8, 47u8]);
        }
        let rest = &target[8..n];
        proof {
            assert(rest@ =~= target@.skip(8));
        }
        split_authority(rest)
    } else {
        proof {
            assert(!spec_starts_with(target@, seq![104u8, 116u8, 116u8, 112u8, 58u8, 47u8, 47u8]))
                by {
                if spec_starts_with(target@, seq![104u8, 116u8, 116u8, 112u8, 58u8, 47u8, 47u8]) {
                    let p = target@.take(7);
                    assert(target@[0] == p[0] && target@[1] == p[1] && target@[2] == p[2]
                        && target@[3] == p[3] && target@[4] == p[4] && target@[5] == p[5]
                        && target@[6] == p[6]);
                }
            }
            assert(!spec_starts_with(
                target@,
                seq![104u8, 116u8, 116u8, 112u8, 115u8, 58u8, 47u8, 47u8],
            )) by {
                if spec_starts_with(
                    target@,
                    seq![104u8, 116u8, 116u8, 112u8, 115u8, 58u8, 47u8, 47u8],
                ) {
                    let p = target@.take(8);
                    assert(target@[0] == p[0] && target@[1] == p[1] && target@[2] == p[2]
                        && target@[3] == p[3] && target@[4] == p[4] && target@[5] == p[5]
                        && target@[6] == p[6] && target@[7] == p[7]);
                }
            }
        }
        if target[0] == 47 {
            match headers.header("host") {
                None => Err(DecodeError::MissingHost),
                Some(vs) => {
                    if vs.len() == 0 {
                        return Err(DecodeError::MissingHost);
                    }
                    let host = vs[0].clone();
                    proof {
                        assert(vs.deep_view()[0] == host@);
                    }
                    match find_byte(target, 63) {
                        None => {
                            let path = match ascii::bytes_to_string_checked(target) {
                                Some(x) => x,
                                None => {
                                    proof {
                                        assert(false);
                                    }
                                    String::new()
                                },
                            };
                            Ok(Url { host, path, query: None })
                        },
                        Some(q) => {
                            let path_b = vstd::slice::slice_to_vec(&target[0..q]);
                            let query_b = vstd::slice::slice_to_vec(&target[q + 1..n]);
                            proof {
                                assert(path_b@ =~= target@.take(q as int));
                                assert(query_b@ =~= target@.skip(q as int + 1));
                            }
                            let path = match ascii::bytes_to_string_checked(path_b.as_slice()) {
                                Some(x) => x,
                                None => {
                                    proof {
                                        assert(false);
                                    }
                                    String::new()
                                },
                            };
                            let query = match ascii::bytes_to_string_checked(query_b.as_slice()) {
                                Some(x) => x,
                                None => {
                                    proof {
                                        assert(false);
                                    }
                                    String::new()
                                },
                            };
                            Ok(Url { host, path, query: Some(query) })
                        },
                    }
                },
            }
        } else {
            if matches!(method, Method::Connect) {
                let host = match ascii::bytes_to_string_checked(target) {
                    Some(x) => x,
                    None => {
                        proof {
                            assert(false);
                        }
                        String::new()
                    },
                };
                let path = String::from_str("/");
                proof {
                    reveal_strlit("/");
                    assert(path@ =~= seq!['/']);
                }
                Ok(Url { host, path, query: None })
            } else {
                Err(DecodeError::BadTarget)
            }
        }
    }
}

/// Decode one complete request head (through its closing empty line).
///
/// Accepts exactly the heads that `spec_decode_head` accepts, and rejects
/// with exactly the error it names.
#[verifier::rlimit(100)]
#[verifier::spinoff_prover]
pub fn decode(head: &[u8]) -> (r: Result<DecodedHead, DecodeError>)
    ensures
        (match r {
            Ok(d) => spec_decode_head(head@) == Ok::<HeadView, DecodeError>(d@),
            Err(e) => spec_decode_head(head@) == Err::<HeadView, DecodeError>(e),
        }),
{
    proof {
        assert(head@.skip(0) =~= head@);
    }
    let (line_end, rest) = match take_line_from(head, 0) {
        None => {
            return Err(DecodeError::MalformedLine);
        },
        Some(x) => x,
    };
    let line = &head[0..line_end];
    proof {
        assert(line@ =~= head@.subrange(0, line_end as int));
    }
    let sp1 = match find_byte(line, 32) {
        None => {
            return Err(DecodeError::MalformedLine);
        },
        Some(x) => x,
    };
    if sp1 == 0 {
        return Err(DecodeError::MalformedLine);
    }
    let line_rest = &line[sp1 + 1..line.len()];
    proof {
        assert(line_rest@ =~= line@.skip(sp1 as int + 1));
    }
    let sp2 = match find_byte(line_rest, 32) {
        None => {
            return Err(DecodeError::MalformedLine);
        },
        Some(x) => x,
    };
    if sp2 == 0 {
        return Err(DecodeError::MalformedLine);
    }
    let target = &line_rest[0..sp2];
    let version = &line_rest[sp2 + 1..line_rest.len()];
    proof {
        assert(target@ =~= line_rest@.take(sp2 as int));
        assert(version@ =~= line_rest@.skip(sp2 as int + 1));
    }
    if !valid_target(target) {
        return Err(DecodeError::MalformedLine);
    }
    let vlen = version.len();
    let version_shape = vlen == 8 && version[0] == 72 && version[1] == 84 && version[2] == 84
        && version[3] == 80 && version[4] == 47 && version[5] == 49 && version[6] == 46 && 48
        <= version[7] && version[7] <= 57;
    proof {
        if version_shape {
            assert(version@.take(7) =~= spec_http_1_dot());
        } else {
            assert(!(version@.len() == 8 && version@.take(7) == spec_http_1_dot() && 48
                <= version@[7] <= 57)) by {
                if version@.len() == 8 && version@.take(7) == spec_http_1_dot() && 48
                    <= version@[7] <= 57 {
                    let p = version@.take(7);
                    assert(version@[0] == p[0] && version@[1] == p[1] && version@[2] == p[2]
                        && version@[3] == p[3] && version@[4] == p[4] && version@[5] == p[5]
                        && version@[6] == p[6]);
                }
            }
        }
    }
    if !version_shape {
        return Err(DecodeError::MalformedLine);
    }
    if version[7] != 49 {
        return Err(DecodeError::UnsupportedVersion);
    }
    let method = match Method::parse(&line[0..sp1]) {
        None => {
            proof {
                assert(head@.subrange(0, line_end as int).take(sp1 as int) =~= line@.take(
                    sp1 as int,
                ));
            }
            return Err(DecodeError::BadMethod);
        },
        Some(m) => m,
    };
    proof {
        assert(head@.subrange(0, line_end as int).take(sp1 as int) =~= line@.take(sp1 as int));
    }
    let flat = match parse_header_lines_at(head, rest) {
        None => {
            return Err(DecodeError::BadHeader);
        },
        Some(f) => f,
    };
    if flat.len() > 128 {
        return Err(DecodeError::TooManyHeaders);
    }
    proof {
        lemma_parsed_pairs_valid(head@.skip(rest as int));
    }
    let headers = collect_headers(&flat);
    let url = match resolve_url(method, target, &headers) {
        Err(e) => {
            return Err(e);
        },
        Ok(u) => u,
    };
    let framing = match framing_of(&headers) {
        Err(e) => {
            return Err(e);
        },
        Ok(f) => f,
    };
    let expect_continue = expect_continue_of(&headers);
    Ok(DecodedHead { method, url, headers, framing, expect_continue })
}

} // verus!
