//! The minimal HTTP server: one fixed plain-text response per request.

use vstd::prelude::*;
use vstd::string::*;
use vstd::utf8::{encode_utf8, is_ascii_chars, valid_utf8};

use crate::text::{decimal_bytes, decimal_digits};
use crate::wire::push_bytes;

verus! {

/// Whether `s` begins with `prefix`.
pub open spec fn starts_with(s: Seq<u8>, prefix: Seq<u8>) -> bool {
    prefix.len() <= s.len() && s.subrange(0, prefix.len() as int) == prefix
}

/// The request as text: the bytes themselves when they are valid UTF-8,
/// otherwise the empty text.
pub open spec fn request_text(request: Seq<u8>) -> Seq<u8> {
    if valid_utf8(request) {
        request
    } else {
        Seq::empty()
    }
}

/// The response body chosen for a request: a greeting for `GET / `, `OK`
/// for `GET /health`, the server's name for anything else.
pub open spec fn http_body(request: Seq<u8>) -> Seq<u8> {
    let text = request_text(request);
    if starts_with(text, "GET / ".spec_bytes()) || starts_with(text, "GET / HTTP".spec_bytes()) {
        "Hello from MiniNetStack!\n".spec_bytes()
    } else if starts_with(text, "GET /health".spec_bytes()) {
        "OK\n".spec_bytes()
    } else {
        "MiniNetStack HTTP Server\n".spec_bytes()
    }
}

/// The bytes of the response carrying `body`: status line, headers with the
/// body's length, a blank line, then the body.
pub open spec fn http_response(body: Seq<u8>) -> Seq<u8> {
    "HTTP/1.1 200 OK\r\nContent-Type: text/plain\r\nContent-Length: ".spec_bytes() + decimal_bytes(
        body.len(),
    ) + "\r\nConnection: close\r\nServer: MiniNetStack\r\n\r\n".spec_bytes() + body
}

/// The request prefixes as bytes: `GET / ` is six bytes and begins
/// `GET / HTTP`; `GET /health` differs from `GET / ` in its sixth byte.
proof fn lemma_request_prefixes()
    ensures
        "GET / ".spec_bytes().len() == 6,
        "GET / HTTP".spec_bytes().len() == 10,
        "GET /health".spec_bytes().len() == 11,
        "GET / HTTP".spec_bytes().subrange(0, 6) == "GET / ".spec_bytes(),
        "GET /health".spec_bytes()[5] != "GET / ".spec_bytes()[5],
        "GET /health".spec_bytes()[5] != "GET / HTTP".spec_bytes()[5],
{
    broadcast use vstd::utf8::is_ascii_chars_encode_utf8;

    reveal_strlit("GET / ");
    reveal_strlit("GET / HTTP");
    reveal_strlit("GET /health");
    let a = "GET / "@;
    let b = "GET / HTTP"@;
    let c = "GET /health"@;
    assert(is_ascii_chars(a));
    assert(is_ascii_chars(b));
    assert(is_ascii_chars(c));
    assert(encode_utf8(a)[5] == a[5] as u8);
    assert(encode_utf8(b)[5] == b[5] as u8);
    assert(encode_utf8(c)[5] == c[5] as u8);
    assert(encode_utf8(b).subrange(0, 6) =~= encode_utf8(a));
}

/// A request that begins with `GET /health` is answered `OK`.
pub proof fn lemma_health_check_answered_ok(request: Seq<u8>)
    requires
        valid_utf8(request),
        starts_with(request, "GET /health".spec_bytes()),
    ensures
        http_body(request) == "OK\n".spec_bytes(),
{
    lemma_request_prefixes();
    let h = "GET /health".spec_bytes();
    assert(request[5] == h[5]) by {
        assert(request.subrange(0, 11)[5] == h[5]);
    }
    assert(!starts_with(request, "GET / ".spec_bytes())) by {
        if starts_with(request, "GET / ".spec_bytes()) {
            assert(request.subrange(0, 6)[5] == request[5]);
        }
    }
    assert(!starts_with(request, "GET / HTTP".spec_bytes())) by {
        if starts_with(request, "GET / HTTP".spec_bytes()) {
            assert(request.subrange(0, 10)[5] == request[5]);
        }
    }
}

/// Any valid UTF-8 request that begins neither with `GET / ` nor with
/// `GET /health` gets the server's name as its body; so does any request
/// that is not valid UTF-8.
pub proof fn lemma_other_requests_get_server_name(request: Seq<u8>)
    requires
        !valid_utf8(request) || (!starts_with(request, "GET / ".spec_bytes()) && !starts_with(
            request,
            "GET /health".spec_bytes(),
        )),
    ensures
        http_body(request) == "MiniNetStack HTTP Server\n".spec_bytes(),
{
    lemma_request_prefixes();
    reveal_strlit("GET / ");
    reveal_strlit("GET / HTTP");
    reveal_strlit("GET /health");
    let g = "GET / ".spec_bytes();
    let gh = "GET / HTTP".spec_bytes();
    if valid_utf8(request) && starts_with(request, gh) {
        assert(request.subrange(0, 6) =~= request.subrange(0, 10).subrange(0, 6));
        assert(starts_with(request, g));
    }
    if !valid_utf8(request) {
        assert(request_text(request) == Seq::<u8>::empty());
        assert(!starts_with(Seq::<u8>::empty(), g));
        assert(!starts_with(Seq::<u8>::empty(), gh));
        assert(!starts_with(Seq::<u8>::empty(), "GET /health".spec_bytes()));
    }
}

/// A character takes at most four bytes in UTF-8.
proof fn lemma_encode_utf8_len(chars: Seq<char>)
    ensures
        encode_utf8(chars).len() <= 4 * chars.len(),
    decreases chars.len(),
{
    if chars.len() > 0 {
        lemma_encode_utf8_len(chars.drop_first());
    }
}

/// The decimal digits of a number below 1000 are at most three.
proof fn lemma_decimal_bytes_short(n: nat)
    requires
        n < 1000,
    ensures
        decimal_bytes(n).len() <= 3,
{
    if n >= 10 {
        let m = n / 10;
        assert(decimal_bytes(n).len() == decimal_bytes(m).len() + 1);
        if m >= 10 {
            assert(m / 10 < 10);
            assert(decimal_bytes(m / 10).len() == 1);
            assert(decimal_bytes(m).len() == decimal_bytes(m / 10).len() + 1);
        } else {
            assert(decimal_bytes(m).len() == 1);
        }
    }
}

/// Every response is under 600 bytes.
pub proof fn lemma_http_response_short(request: Seq<u8>)
    ensures
        http_response(http_body(request)).len() < 600,
{
    reveal_strlit("Hello from MiniNetStack!\n");
    reveal_strlit("OK\n");
    reveal_strlit("MiniNetStack HTTP Server\n");
    reveal_strlit("HTTP/1.1 200 OK\r\nContent-Type: text/plain\r\nContent-Length: ");
    reveal_strlit("\r\nConnection: close\r\nServer: MiniNetStack\r\n\r\n");
    lemma_encode_utf8_len("Hello from MiniNetStack!\n"@);
    lemma_encode_utf8_len("OK\n"@);
    lemma_encode_utf8_len("MiniNetStack HTTP Server\n"@);
    lemma_encode_utf8_len("HTTP/1.1 200 OK\r\nContent-Type: text/plain\r\nContent-Length: "@);
    lemma_encode_utf8_len("\r\nConnection: close\r\nServer: MiniNetStack\r\n\r\n"@);
    let body = http_body(request);
    assert(body.len() <= 100);
    lemma_decimal_bytes_short(body.len());
}

/// Whether `bytes` are valid UTF-8, as `std::str::from_utf8` decides.
///
/// Trusted: `std::str::from_utf8` returns `Ok` exactly when the bytes are
/// valid UTF-8; this states that with vstd's definition of valid UTF-8.
#[verifier::external_body]
fn is_utf8(bytes: &[u8]) -> (valid: bool)
    ensures
        valid == valid_utf8(bytes@),
{
    std::str::from_utf8(bytes).is_ok()
}

/// Whether `data` begins with `prefix`.
fn has_prefix(data: &[u8], prefix: &[u8]) -> (found: bool)
    ensures
        found == starts_with(data@, prefix@),
{
    if prefix.len() > data.len() {
        return false;
    }
    let mut i: usize = 0;
    while i < prefix.len()
        invariant
            prefix@.len() <= data@.len(),
            0 <= i <= prefix@.len(),
            forall|j: int| 0 <= j < i ==> data@[j] == prefix@[j],
        decreases prefix.len() - i,
    {
        if data[i] != prefix[i] {
            assert(data@.subrange(0, prefix@.len() as int)[i as int] != prefix@[i as int]);
            return false;
        }
        i = i + 1;
    }
    assert(data@.subrange(0, prefix@.len() as int) =~= prefix@);
    true
}

/// Builds the HTTP response to the request `request_payload`.
pub fn build_http_response(request_payload: &[u8]) -> (response: Vec<u8>)
    ensures
        response@ == http_response(http_body(request_payload@)),
{
    let empty: Vec<u8> = Vec::new();
    let text: &[u8] = if is_utf8(request_payload) {
        request_payload
    } else {
        empty.as_slice()
    };
    assert(text@ == request_text(request_payload@));
    let body: &str = if has_prefix(text, "GET / ".as_bytes()) || has_prefix(
        text,
        "GET / HTTP".as_bytes(),
    ) {
        "Hello from MiniNetStack!\n"
    } else if has_prefix(text, "GET /health".as_bytes()) {
        "OK\n"
    } else {
        "MiniNetStack HTTP Server\n"
    };
    assert(body.spec_bytes() == http_body(request_payload@));
    let mut response = Vec::new();
    push_bytes(
        &mut response,
        "HTTP/1.1 200 OK\r\nContent-Type: text/plain\r\nContent-Length: ".as_bytes(),
    );
    let body_bytes = body.as_bytes();
    let digits = decimal_digits(body_bytes.len());
    push_bytes(&mut response, digits.as_slice());
    push_bytes(&mut response, "\r\nConnection: close\r\nServer: MiniNetStack\r\n\r\n".as_bytes());
    push_bytes(&mut response, body_bytes);
    assert(response@ =~= http_response(body.spec_bytes()));
    response
}

} // verus!
