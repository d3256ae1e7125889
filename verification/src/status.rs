//! Status codes and their canonical reason phrases.

use vstd::prelude::*;

verus! {

/// The status codes this server knows, as the wire carries them.
pub open spec fn spec_valid_status(s: u16) -> bool {
    ||| s == 100
    ||| s == 101
    ||| s == 200
    ||| s == 201
    ||| s == 202
    ||| s == 203
    ||| s == 204
    ||| s == 205
    ||| s == 206
    ||| s == 300
    ||| s == 301
    ||| s == 302
    ||| s == 303
    ||| s == 304
    ||| s == 307
    ||| s == 308
    ||| s == 400
    ||| s == 401
    ||| s == 402
    ||| s == 403
    ||| s == 404
    ||| s == 405
    ||| s == 406
    ||| s == 408
    ||| s == 409
    ||| s == 410
    ||| s == 411
    ||| s == 412
    ||| s == 413
    ||| s == 414
    ||| s == 415
    ||| s == 416
    ||| s == 417
    ||| s == 426
    ||| s == 429
    ||| s == 431
    ||| s == 500
    ||| s == 501
    ||| s == 502
    ||| s == 503
    ||| s == 504
    ||| s == 505
}

/// The canonical reason phrase of a status code; empty for unknown codes.
pub open spec fn spec_reason(s: u16) -> Seq<char> {
    if s == 100 {
        "Continue"@
    } else if s == 101 {
        "Switching Protocols"@
    } else if s == 200 {
        "OK"@
    } else if s == 201 {
        "Created"@
    } else if s == 202 {
        "Accepted"@
    } else if s == 203 {
        "Non-Authoritative Information"@
    } else if s == 204 {
        "No Content"@
    } else if s == 205 {
        "Reset Content"@
    } else if s == 206 {
        "Partial Content"@
    } else if s == 300 {
        "Multiple Choices"@
    } else if s == 301 {
        "Moved Permanently"@
    } else if s == 302 {
        "Found"@
    } else if s == 303 {
        "See Other"@
    } else if s == 304 {
        "Not Modified"@
    } else if s == 307 {
        "Temporary Redirect"@
    } else if s == 308 {
        "Permanent Redirect"@
    } else if s == 400 {
        "Bad Request"@
    } else if s == 401 {
        "Unauthorized"@
    } else if s == 402 {
        "Payment Required"@
    } else if s == 403 {
        "Forbidden"@
    } else if s == 404 {
        "Not Found"@
    } else if s == 405 {
        "Method Not Allowed"@
    } else if s == 406 {
        "Not Acceptable"@
    } else if s == 408 {
        "Request Timeout"@
    } else if s == 409 {
        "Conflict"@
    } else if s == 410 {
        "Gone"@
    } else if s == 411 {
        "Length Required"@
    } else if s == 412 {
        "Precondition Failed"@
    } else if s == 413 {
        "Payload Too Large"@
    } else if s == 414 {
        "URI Too Long"@
    } else if s == 415 {
        "Unsupported Media Type"@
    } else if s == 416 {
        "Requested Range Not Satisfiable"@
    } else if s == 417 {
        "Expectation Failed"@
    } else if s == 426 {
        "Upgrade Required"@
    } else if s == 429 {
        "Too Many Requests"@
    } else if s == 431 {
        "Request Header Fields Too Large"@
    } else if s == 500 {
        "Internal Server Error"@
    } else if s == 501 {
        "Not Implemented"@
    } else if s == 502 {
        "Bad Gateway"@
    } else if s == 503 {
        "Service Unavailable"@
    } else if s == 504 {
        "Gateway Timeout"@
    } else if s == 505 {
        "HTTP Version Not Supported"@
    } else {
        Seq::<char>::empty()
    }
}

/// Whether a status code marks a client error.
pub open spec fn spec_is_client_error(s: u16) -> bool {
    400 <= s <= 499
}

/// Whether a status code marks a server error.
pub open spec fn spec_is_server_error(s: u16) -> bool {
    500 <= s <= 599
}

/// The canonical reason phrase of a known status code.
pub fn canonical_reason(s: u16) -> (r: &'static str)
    requires
        spec_valid_status(s),
    ensures
        r@ == spec_reason(s),
{
    if s == 100 {
        "Continue"
    } else if s == 101 {
        "Switching Protocols"
    } else if s == 200 {
        "OK"
    } else if s == 201 {
        "Created"
    } else if s == 202 {
        "Accepted"
    } else if s == 203 {
        "Non-Authoritative Information"
    } else if s == 204 {
        "No Content"
    } else if s == 205 {
        "Reset Content"
    } else if s == 206 {
        "Partial Content"
    } else if s == 300 {
        "Multiple Choices"
    } else if s == 301 {
        "Moved Permanently"
    } else if s == 302 {
        "Found"
    } else if s == 303 {
        "See Other"
    } else if s == 304 {
        "Not Modified"
    } else if s == 307 {
        "Temporary Redirect"
    } else if s == 308 {
        "Permanent Redirect"
    } else if s == 400 {
        "Bad Request"
    } else if s == 401 {
        "Unauthorized"
    } else if s == 402 {
        "Payment Required"
    } else if s == 403 {
        "Forbidden"
    } else if s == 404 {
        "Not Found"
    } else if s == 405 {
        "Method Not Allowed"
    } else if s == 406 {
        "Not Acceptable"
    } else if s == 408 {
        "Request Timeout"
    } else if s == 409 {
        "Conflict"
    } else if s == 410 {
        "Gone"
    } else if s == 411 {
        "Length Required"
    } else if s == 412 {
        "Precondition Failed"
    } else if s == 413 {
        "Payload Too Large"
    } else if s == 414 {
        "URI Too Long"
    } else if s == 415 {
        "Unsupported Media Type"
    } else if s == 416 {
        "Requested Range Not Satisfiable"
    } else if s == 417 {
        "Expectation Failed"
    } else if s == 426 {
        "Upgrade Required"
    } else if s == 429 {
        "Too Many Requests"
    } else if s == 431 {
        "Request Header Fields Too Large"
    } else if s == 500 {
        "Internal Server Error"
    } else if s == 501 {
        "Not Implemented"
    } else if s == 502 {
        "Bad Gateway"
    } else if s == 503 {
        "Service Unavailable"
    } else if s == 504 {
        "Gateway Timeout"
    } else {
        "HTTP Version Not Supported"
    }
}

/// Whether the library knows this status code.
pub fn is_valid_status(s: u16) -> (r: bool)
    ensures
        r == spec_valid_status(s),
{
    let r = (s == 100) || (s == 101) || (s == 200) || (s == 201) || (s == 202) || (s == 203) || (s
        == 204) || (s == 205) || (s == 206) || (s == 300) || (s == 301) || (s == 302) || (s == 303)
        || (s == 304) || (s == 307) || (s == 308) || (s == 400) || (s == 401) || (s == 402) || (s
        == 403) || (s == 404) || (s == 405) || (s == 406) || (s == 408) || (s == 409) || (s == 410)
        || (s == 411) || (s == 412) || (s == 413) || (s == 414) || (s == 415) || (s == 416) || (s
        == 417) || (s == 426) || (s == 429) || (s == 431) || (s == 500) || (s == 501) || (s == 502)
        || (s == 503) || (s == 504) || (s == 505);
    r
}

/// Reason phrases of known status codes are ASCII text.
#[verifier::rlimit(100)]
#[verifier::spinoff_prover]
pub proof fn lemma_reason_ascii(s: u16)
    requires
        spec_valid_status(s),
    ensures
        vstd::utf8::is_ascii_chars(spec_reason(s)),
        forall|i: int|
            0 <= i < spec_reason(s).len() ==> 32 <= (#[trigger] spec_reason(s)[i] as u32) <= 126,
{
    reveal_strlit("Continue");
    reveal_strlit("Switching Protocols");
    reveal_strlit("OK");
    reveal_strlit("Created");
    reveal_strlit("Accepted");
    reveal_strlit("Non-Authoritative Information");
    reveal_strlit("No Content");
    reveal_strlit("Reset Content");
    reveal_strlit("Partial Content");
    reveal_strlit("Multiple Choices");
    reveal_strlit("Moved Permanently");
    reveal_strlit("Found");
    reveal_strlit("See Other");
    reveal_strlit("Not Modified");
    reveal_strlit("Temporary Redirect");
    reveal_strlit("Permanent Redirect");
    reveal_strlit("Bad Request");
    reveal_strlit("Unauthorized");
    reveal_strlit("Payment Required");
    reveal_strlit("Forbidden");
    reveal_strlit("Not Found");
    reveal_strlit("Method Not Allowed");
    reveal_strlit("Not Acceptable");
    reveal_strlit("Request Timeout");
    reveal_strlit("Conflict");
    reveal_strlit("Gone");
    reveal_strlit("Length Required");
    reveal_strlit("Precondition Failed");
    reveal_strlit("Payload Too Large");
    reveal_strlit("URI Too Long");
    reveal_strlit("Unsupported Media Type");
    reveal_strlit("Requested Range Not Satisfiable");
    reveal_strlit("Expectation Failed");
    reveal_strlit("Upgrade Required");
    reveal_strlit("Too Many Requests");
    reveal_strlit("Request Header Fields Too Large");
    reveal_strlit("Internal Server Error");
    reveal_strlit("Not Implemented");
    reveal_strlit("Bad Gateway");
    reveal_strlit("Service Unavailable");
    reveal_strlit("Gateway Timeout");
    reveal_strlit("HTTP Version Not Supported");
}

} // verus!
