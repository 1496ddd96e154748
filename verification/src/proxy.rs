//! The verdict on a request, and the probe of the readiness endpoint.

use vstd::prelude::*;
use vstd::utf8::{decode_utf8, valid_utf8};

use crate::routes::{normalize_host, RouteSelection, RouteTable, Upstream};
use crate::text::has_prefix;

verus! {

#[verifier::external_type_specification]
#[verifier::external_body]
pub struct ExHeaderValue(http::HeaderValue);

#[verifier::external_type_specification]
#[verifier::external_body]
pub struct ExToStrError(http::header::ToStrError);

/// The bytes of a header value.
pub uninterp spec fn header_bytes(value: http::HeaderValue) -> Seq<u8>;

/// Whether the bytes are visible ASCII characters, spaces and tabs.
pub open spec fn visible(bytes: Seq<u8>) -> bool {
    forall|i: int| 0 <= i < bytes.len() ==> 32 <= #[trigger] bytes[i] < 127 || bytes[i] == 9
}

/// The text that ASCII bytes write.
pub open spec fn ascii_text(bytes: Seq<u8>) -> Seq<char> {
    Seq::new(bytes.len(), |i: int| bytes[i] as char)
}

/// `http::HeaderValue::to_str`: the text of the value where each of its bytes is a visible ASCII
/// character, a space or a tab, and an error where one is not.
pub assume_specification[ http::HeaderValue::to_str ](value: &http::HeaderValue) -> (r: Result<
    &str,
    http::header::ToStrError,
>)
    ensures
        match r {
            Ok(text) => visible(header_bytes(*value)) && text@ == ascii_text(header_bytes(*value)),
            Err(_) => !visible(header_bytes(*value)),
        },
;

/// `std::str::from_utf8`: the text that the bytes write in UTF-8, and an error where they are
/// not valid UTF-8.
#[verifier::external_body]
fn text_from_utf8(bytes: &[u8]) -> (r: Option<&str>)
    ensures
        match r {
            Some(text) => valid_utf8(bytes@) && text@ == decode_utf8(bytes@),
            None => !valid_utf8(bytes@),
        },
{
    std::str::from_utf8(bytes).ok()
}

/// The normalized host that a request names in its `Host` header.
pub open spec fn named_host(header: Option<Seq<u8>>) -> Option<Seq<char>> {
    match header {
        Some(bytes) if visible(bytes) => match crate::routes::normalized(ascii_text(bytes)) {
            Ok(host) => Some(host),
            Err(_) => None,
        },
        _ => None,
    }
}

pub open spec fn bytes_in(header: Option<&http::HeaderValue>) -> Option<Seq<u8>> {
    match header {
        Some(value) => Some(header_bytes(*value)),
        None => None,
    }
}

/// The normalized host that a request names in its `Host` header.
pub fn request_host(header: Option<&http::HeaderValue>) -> (r: Option<String>)
    ensures
        match r {
            Some(host) => named_host(bytes_in(header)) == Some(host@),
            None => named_host(bytes_in(header)) is None,
        },
{
    match header {
        Some(value) => match value.to_str() {
            Ok(text) => match normalize_host(text) {
                Ok(host) => Some(host),
                Err(_) => None,
            },
            Err(_) => None,
        },
        None => None,
    }
}

/// What is done with a request: it is answered with an error status, or sent to an upstream.
#[derive(Debug, Clone, PartialEq, Eq)]
pub enum Verdict {
    Respond(u16),
    Forward(Upstream),
}

#[verifier::ext_equal]
pub enum VerdictModel {
    Respond(u16),
    Forward(Seq<char>),
}

impl View for Verdict {
    type V = VerdictModel;

    open spec fn view(&self) -> VerdictModel {
        match self {
            Verdict::Respond(status) => VerdictModel::Respond(*status),
            Verdict::Forward(upstream) => VerdictModel::Forward(upstream@),
        }
    }
}

/// The verdict on a request for the normalized host `host`, and the table after it.
pub open spec fn verdict(
    table: crate::routes::TableModel,
    host: Option<Seq<char>>,
) -> (VerdictModel, crate::routes::TableModel) {
    match host {
        None => (VerdictModel::Respond(400), table),
        Some(host) => {
            let (selection, after) = crate::routes::selection(table, host);
            (
                match selection {
                    crate::routes::SelectionModel::Unknown => VerdictModel::Respond(404),
                    crate::routes::SelectionModel::Unavailable => VerdictModel::Respond(503),
                    crate::routes::SelectionModel::Available(addr) => VerdictModel::Forward(addr),
                },
                after,
            )
        },
    }
}

/// The verdict on a request for the normalized host `host`: no host, no route and no upstream
/// each have their status, and else it is the turn of an upstream.
pub fn host_filter(routes: &mut RouteTable, host: Option<&str>) -> (r: Verdict)
    ensures
        (r@, final(routes)@) == verdict(
            old(routes)@,
            match host {
                Some(host) => Some(host@),
                None => None,
            },
        ),
{
    match host {
        None => Verdict::Respond(400),
        Some(host) => match routes.select(host) {
            RouteSelection::Unknown => Verdict::Respond(404),
            RouteSelection::Unavailable => Verdict::Respond(503),
            RouteSelection::Available(upstream) => Verdict::Forward(upstream),
        },
    }
}

/// The verdict on a request with this `Host` header.
pub fn request_filter(routes: &mut RouteTable, header: Option<&http::HeaderValue>) -> (r: Verdict)
    ensures
        (r@, final(routes)@) == verdict(old(routes)@, named_host(bytes_in(header))),
{
    match request_host(header) {
        None => host_filter(routes, None),
        Some(host) => host_filter(routes, Some(host.as_str())),
    }
}

// ---------------------------------------------------------------------------------------------
// The readiness probe
// ---------------------------------------------------------------------------------------------

/// What the probe sends.
pub const PROBE_REQUEST: &'static str = "GET /readyz HTTP/1.0\r\nHost: localhost\r\n\r\n";

/// Whether an answer, of which these are the first bytes, says that the proxy is ready.
pub open spec fn says_ready(response: Seq<u8>) -> bool {
    let text = decode_utf8(response);
    &&& valid_utf8(response)
    &&& {
        ||| crate::text::starts_with(text, "HTTP/1.1 200"@)
        ||| crate::text::starts_with(text, "HTTP/1.0 200"@)
    }
}

/// Whether an answer, of which these are the first bytes, says that the proxy is ready.
pub fn probe_succeeded(response: &[u8]) -> (r: bool)
    ensures
        r == says_ready(response@),
{
    match text_from_utf8(response) {
        Some(text) => has_prefix(text, "HTTP/1.1 200") || has_prefix(text, "HTTP/1.0 200"),
        None => false,
    }
}

// ---------------------------------------------------------------------------------------------
// Laws
// ---------------------------------------------------------------------------------------------

/// The status tells what stands in the way of a request: 400 that it names no valid host, 404
/// that its host has no route, 503 that its route has no upstream. Else the request goes to an
/// upstream of its host. A request that is answered changes nothing.
pub proof fn statuses_tell_apart(table: crate::routes::TableModel, header: Option<Seq<u8>>)
    ensures
        ({
            let host = named_host(header);
            let (v, after) = verdict(table, host);
            &&& v == VerdictModel::Respond(400) <==> host is None
            &&& v == VerdictModel::Respond(404) <==> host is Some && !table.contains_key(host->0)
            &&& v == VerdictModel::Respond(503) <==> host is Some && table.contains_key(host->0)
                && table[host->0].upstreams.len() == 0
            &&& v is Forward <==> host is Some && table.contains_key(host->0)
                && table[host->0].upstreams.len() > 0
            &&& v is Forward ==> table[host->0].upstreams.contains(v->Forward_0)
            &&& v is Respond ==> after == table
        }),
{
    let host = named_host(header);
    if host is Some {
        let bytes = header->0;
        crate::routes::normalizing_is_final(ascii_text(bytes), host->0);
        if table.contains_key(host->0) && table[host->0].upstreams.len() > 0 {
            let entry = table[host->0];
            let turn = entry.next as int % entry.upstreams.len() as int;
            assert(0 <= turn < entry.upstreams.len());
        }
    }
}

/// An answer in HTTP 1.0 or 1.1 says that the proxy is ready exactly where its status is 200.
pub proof fn probe_sees_the_status(version: Seq<char>, status: nat, rest: Seq<char>)
    requires
        version == "HTTP/1.0 "@ || version == "HTTP/1.1 "@,
        100 <= status <= 999,
    ensures
        says_ready(vstd::utf8::encode_utf8(version + crate::text::decimal(status) + rest))
            <==> status == 200,
{
    let text = version + crate::text::decimal(status) + rest;
    vstd::utf8::encode_utf8_valid_utf8(text);
    vstd::utf8::encode_utf8_decode_utf8(text);
    reveal_strlit("HTTP/1.0 ");
    reveal_strlit("HTTP/1.1 ");
    reveal_strlit("HTTP/1.0 200");
    reveal_strlit("HTTP/1.1 200");
    reveal_with_fuel(crate::text::decimal, 3);
    let ok = crate::text::decimal(200);
    assert(ok =~= seq!['2', '0', '0']);
    assert("HTTP/1.0 200"@ =~= "HTTP/1.0 "@ + ok);
    assert("HTTP/1.1 200"@ =~= "HTTP/1.1 "@ + ok);
    assert(crate::text::decimal(status).len() == 3);
    assert(text.take(9) =~= version);
    assert(text.subrange(9, 12) =~= crate::text::decimal(status));
    crate::text::decimal_reads_back(status);
    crate::text::decimal_reads_back(200);
    if crate::text::starts_with(text, "HTTP/1.0 200"@) {
        assert(text.subrange(9, 12) =~= text.take(12).skip(9));
        assert(crate::text::decimal(status) =~= ok);
    }
    if crate::text::starts_with(text, "HTTP/1.1 200"@) {
        assert(text.subrange(9, 12) =~= text.take(12).skip(9));
        assert(crate::text::decimal(status) =~= ok);
    }
    if status == 200 {
        assert(text.take(12) =~= version + ok);
    }
}

/// A request names a host exactly where it has a `Host` header, each byte of it is a visible ASCII
/// character, a space or a tab, and the text that the bytes write, one character each, is a valid
/// host; it is then that host in normalized form.
pub proof fn headers_name_hosts(bytes: Seq<u8>, text: Seq<char>)
    requires
        text.len() == bytes.len(),
        forall|i: int| 0 <= i < bytes.len() ==> (#[trigger] text[i]) as u32 == bytes[i] as u32,
    ensures
        ({
            let shown = forall|i: int|
                0 <= i < bytes.len() ==> 32 <= #[trigger] bytes[i] <= 126 || bytes[i] == 9;
            let host = crate::routes::normalized(text);
            &&& named_host(Some(bytes)) is Some <==> shown && host is Ok
            &&& shown && host is Ok ==> named_host(Some(bytes)) == Some(host->Ok_0)
        }),
        named_host(None) is None,
{
    assert(ascii_text(bytes) =~= text) by {
        assert forall|i: int| 0 <= i < bytes.len() implies bytes[i] as char == #[trigger] text[i] by {
            assert(text[i] as u32 == bytes[i] as u32);
            lemma_byte_char(bytes[i], text[i]);
        }
    }
}

proof fn lemma_byte_char(byte: u8, c: char)
    requires
        c as u32 == byte as u32,
    ensures
        byte as char == c,
{
}

/// The bytes of a request's header are those of the value, where there is one.
pub proof fn header_contents(header: Option<&http::HeaderValue>)
    ensures
        bytes_in(header) is Some <==> header is Some,
        header is Some ==> bytes_in(header)->0 == header_bytes(*header->0),
{
}

/// A verdict follows from the selection for the host: unknown is 404, unavailable is 503, and an
/// available upstream is the one that the request goes to; the table is the one after the
/// selection. Without a host the verdict is 400 and the table stays.
pub proof fn verdicts_follow_selections(table: crate::routes::TableModel, host: Seq<char>)
    ensures
        ({
            let (chosen, after) = crate::routes::selection(table, host);
            let (v, then) = verdict(table, Some(host));
            &&& v == VerdictModel::Respond(404) <==> chosen is Unknown
            &&& v == VerdictModel::Respond(503) <==> chosen is Unavailable
            &&& v is Forward <==> chosen is Available
            &&& chosen is Available ==> v->Forward_0 == chosen->Available_0
            &&& then == after
        }),
        verdict(table, None) == (VerdictModel::Respond(400), table),
{
}

/// An answer says that the proxy is ready exactly where its bytes are UTF-8 and write a text that
/// is one of two status lines, up to the status 200, with something or nothing behind it.
pub proof fn ready_answers(response: Seq<u8>)
    ensures
        says_ready(response) <==> valid_utf8(response) && {
            ||| exists|rest: Seq<char>|
                decode_utf8(response) == #[trigger] ("HTTP/1.1 200"@ + rest)
            ||| exists|rest: Seq<char>|
                decode_utf8(response) == #[trigger] ("HTTP/1.0 200"@ + rest)
        },
{
    crate::text::prefixes(decode_utf8(response), "HTTP/1.1 200"@);
    crate::text::prefixes(decode_utf8(response), "HTTP/1.0 200"@);
}

/// The contents of a verdict are its status or the address of its upstream.
pub proof fn verdict_contents(v: Verdict)
    ensures
        v is Respond ==> v@ == VerdictModel::Respond(v->Respond_0),
        v is Forward ==> v@ == VerdictModel::Forward(v->Forward_0.addr@),
{
}

} // verus!
