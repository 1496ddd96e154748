//! The answers of the health endpoints.

use http::header::{CONTENT_LENGTH, CONTENT_TYPE};
use http::Response;
use vstd::multiset::Multiset;
use vstd::prelude::*;
use vstd::string::StrSliceExecFns;
use vstd::utf8::encode_utf8;

use crate::text::same_text;

verus! {

#[verifier::external_type_specification]
#[verifier::external_body]
#[verifier::reject_recursive_types(T)]
pub struct ExResponse<T>(http::Response<T>);

/// What a response holds: its status, its header fields, each with a name in small letters and
/// the bytes of a value, and its body.
pub uninterp spec fn response_contents(response: http::Response<Vec<u8>>) -> (
    u16,
    Multiset<(Seq<char>, Seq<u8>)>,
    Seq<u8>,
);

/// The header fields of a text: what it is and how many bytes it has.
pub open spec fn text_headers(content_type: Seq<char>, length: nat) -> Multiset<
    (Seq<char>, Seq<u8>),
> {
    Multiset::empty().insert(("content-type"@, encode_utf8(content_type))).insert(
        ("content-length"@, encode_utf8(crate::text::decimal(length))),
    )
}

/// Whether a header field may have the value `text`: visible ASCII characters and spaces.
pub open spec fn header_text(text: Seq<char>) -> bool {
    forall|i: int| 0 <= i < text.len() ==> ' ' <= #[trigger] text[i] <= '~'
}

/// `http::Response::builder`, with `status`, the two header fields and `body` put in: the
/// response holds the status, the fields `content-type` and `content-length` and no others, the
/// second with the number in decimal, and the body. The builder accepts every status of three
/// digits and every value of visible ASCII characters and spaces.
#[verifier::external_body]
fn build_response(status: u16, content_type: &str, content_length: usize, body: Vec<u8>) -> (r:
    http::Response<Vec<u8>>)
    requires
        100 <= status <= 999,
        header_text(content_type@),
    ensures
        response_contents(r) == (
            status,
            text_headers(content_type@, content_length as nat),
            body@,
        ),
{
    Response::builder()
        .status(status)
        .header(CONTENT_TYPE, content_type)
        .header(CONTENT_LENGTH, content_length)
        .body(body)
        .expect("static health response is valid")
}

/// The health endpoints, as they answer while the proxy is ready or not.
#[derive(Debug, Clone)]
pub struct AdminApp {
    ready: bool,
}

/// The status and the text with which the path is answered: liveness always, readiness while
/// the proxy is ready, and no other path.
pub open spec fn health_answer(path: Seq<char>, ready: bool) -> (u16, Seq<char>) {
    if path == "/healthz"@ {
        (200, "ok\n"@)
    } else if path == "/readyz"@ {
        if ready {
            (200, "ready\n"@)
        } else {
            (503, "not ready\n"@)
        }
    } else {
        (404, "not found\n"@)
    }
}

impl AdminApp {
    pub closed spec fn ready(&self) -> bool {
        self.ready
    }

    pub fn new(ready: bool) -> (r: AdminApp)
        ensures
            r.ready() == ready,
    {
        AdminApp { ready }
    }

    /// The status and the text with which the path is answered.
    pub fn answer(&self, path: &str) -> (r: (u16, &'static str))
        ensures
            (r.0, r.1@) == health_answer(path@, self.ready()),
    {
        if same_text(path, "/healthz") {
            (200, "ok\n")
        } else if same_text(path, "/readyz") {
            if self.ready {
                (200, "ready\n")
            } else {
                (503, "not ready\n")
            }
        } else {
            (404, "not found\n")
        }
    }

    /// The response to a request for `path`.
    pub fn response(&self, path: &str) -> (r: Response<Vec<u8>>)
        ensures
            ({
                let (status, text) = health_answer(path@, self.ready());
                let body = encode_utf8(text);
                response_contents(r) == (
                    status,
                    text_headers("text/plain; charset=utf-8"@, body.len()),
                    body,
                )
            }),
    {
        let (status, text): (u16, &'static str) = self.answer(path);
        let body = text.as_bytes_vec();
        let content_type = "text/plain; charset=utf-8";
        proof {
            reveal_strlit("text/plain; charset=utf-8");
        }
        let length = body.len();
        build_response(status, content_type, length, body)
    }
}

// ---------------------------------------------------------------------------------------------
// Laws
// ---------------------------------------------------------------------------------------------

/// Liveness is always answered 200. Readiness is answered 200 while the proxy is ready and 503
/// else. Every other path is answered 404.
pub proof fn health_paths(path: Seq<char>, ready: bool)
    ensures
        ({
            let status = health_answer(path, ready).0;
            &&& status == 200 <==> path == "/healthz"@ || path == "/readyz"@ && ready
            &&& status == 503 <==> path == "/readyz"@ && !ready
            &&& status == 404 <==> path != "/healthz"@ && path != "/readyz"@
        }),
{
    reveal_strlit("/readyz");
    reveal_strlit("/healthz");
    assert("/readyz"@.len() != "/healthz"@.len());
}

/// Each answer has its text.
pub proof fn health_texts(path: Seq<char>, ready: bool)
    ensures
        ({
            let text = health_answer(path, ready).1;
            &&& path == "/healthz"@ ==> text == "ok\n"@
            &&& path == "/readyz"@ && ready ==> text == "ready\n"@
            &&& path == "/readyz"@ && !ready ==> text == "not ready\n"@
            &&& path != "/healthz"@ && path != "/readyz"@ ==> text == "not found\n"@
        }),
{
    health_paths(path, ready);
    reveal_strlit("/readyz");
    reveal_strlit("/healthz");
    assert("/readyz"@.len() != "/healthz"@.len());
}

/// The header fields of a text are two: what it is, and its length in decimal digits.
pub proof fn text_headers_are_two(content_type: Seq<char>, length: nat)
    ensures
        ({
            let fields = text_headers(content_type, length);
            &&& fields.len() == 2
            &&& fields.contains(("content-type"@, encode_utf8(content_type)))
            &&& exists|digits: Seq<char>|
                crate::net::writes(digits, length) && #[trigger] fields.contains(
                    ("content-length"@, encode_utf8(digits)),
                )
        }),
{
    broadcast use vstd::multiset::group_multiset_axioms;

    crate::text::decimals_are_short(length);
    let digits = crate::text::decimal(length);
    let fields = text_headers(content_type, length);
    crate::text::decimal_reads_back(length);
    assert(crate::net::writes(digits, length));
    assert(fields.contains(("content-length"@, encode_utf8(digits))));
}

} // verus!
