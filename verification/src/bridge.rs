//! The HTTP/3-to-HTTP/2 request bridge.
//!
//! A request envelope (method, path, header list, body) is turned into a
//! validated HTTP/2 request for a given backend: pseudo-headers, hop-by-hop
//! headers and the inbound `Content-Length` are dropped, a `Host` header is
//! supplied when the client sent none, and a fresh `Content-Length` is added
//! for a non-empty body. Whether the method, URI and header tokens are valid
//! on the wire is decided by the http crate, behind trusted wrappers.

use vstd::prelude::*;
use vstd::slice::slice_to_vec;
use vstd::string::StringSliceAdditionalSpecFns;

use crate::util::{bytes_eq, lower_bytes, lower_vec, push_u64_dec, spec_u64_dec, str_bytes};

verus! {

/// Why a request could not be bridged into HTTP/2.
#[derive(Clone, Copy, Debug, PartialEq, Eq, Structural)]
pub enum BridgeError {
    InvalidMethod,
    InvalidUri,
    InvalidHeader,
}

impl BridgeError {
    /// Short description for logs.
    pub fn message(&self) -> (r: &'static str)
        ensures
            *self is InvalidMethod ==> r@ == "invalid method"@,
            *self is InvalidUri ==> r@ == "invalid uri"@,
            *self is InvalidHeader ==> r@ == "invalid header"@,
    {
        match self {
            BridgeError::InvalidMethod => "invalid method",
            BridgeError::InvalidUri => "invalid uri",
            BridgeError::InvalidHeader => "invalid header",
        }
    }
}

/// A validated HTTP/2 request: method and absolute URI as bytes, the header
/// list in send order, and the body.
pub struct H2Request {
    pub method: Vec<u8>,
    pub uri: Vec<u8>,
    pub headers: Vec<(Vec<u8>, Vec<u8>)>,
    pub body: Vec<u8>,
}

/// Byte views of a header list.
pub open spec fn view_headers(hs: Seq<(Vec<u8>, Vec<u8>)>) -> Seq<(Seq<u8>, Seq<u8>)> {
    hs.map_values(|p: (Vec<u8>, Vec<u8>)| (p.0@, p.1@))
}

/// Whether bytes form an HTTP method token, as http::Method::from_bytes
/// decides it.
pub uninterp spec fn method_bytes_ok(m: Seq<u8>) -> bool;

/// Relies on http::Method::from_bytes: a pure parse of the method token,
/// a function of the bytes alone.
#[verifier::external_body]
fn method_parses(m: &[u8]) -> (r: bool)
    ensures
        r == method_bytes_ok(m@),
{
    http::Method::from_bytes(m).is_ok()
}

/// Whether bytes form a URI, as http::Uri's TryFrom<&[u8]> decides it.
pub uninterp spec fn uri_bytes_ok(u: Seq<u8>) -> bool;

/// Relies on http::Uri::try_from over a byte slice: a pure parse of the URI,
/// a function of the bytes alone.
#[verifier::external_body]
fn uri_parses(u: &[u8]) -> (r: bool)
    ensures
        r == uri_bytes_ok(u@),
{
    http::Uri::try_from(u).is_ok()
}

/// Whether bytes form a header name, as http::HeaderName::from_bytes decides
/// it.
pub uninterp spec fn header_name_ok(n: Seq<u8>) -> bool;

/// Relies on http::HeaderName::from_bytes: a pure parse of the field name,
/// a function of the bytes alone.
#[verifier::external_body]
fn header_name_parses(n: &[u8]) -> (r: bool)
    ensures
        r == header_name_ok(n@),
{
    http::HeaderName::from_bytes(n).is_ok()
}

/// A byte http::HeaderValue accepts: horizontal tab, or at least 32 and not
/// the delete character.
pub open spec fn header_value_byte_ok(b: u8) -> bool {
    b == 9 || (b >= 32 && b != 127)
}

/// Whether bytes form a header value, as http::HeaderValue::from_bytes
/// decides it: every byte acceptable, nothing else checked.
pub open spec fn header_value_ok(v: Seq<u8>) -> bool {
    forall|i: int| 0 <= i < v.len() ==> header_value_byte_ok(#[trigger] v[i])
}

/// Relies on http::HeaderValue::from_bytes, which accepts exactly the inputs
/// whose every byte is a tab or at least 32 and not 127.
#[verifier::external_body]
fn header_value_parses(v: &[u8]) -> (r: bool)
    ensures
        r == header_value_ok(v@),
{
    http::HeaderValue::from_bytes(v).is_ok()
}

/// The bytes of "host".
pub open spec fn host_bytes() -> Seq<u8> {
    seq!['h' as u8, 'o' as u8, 's' as u8, 't' as u8]
}

/// The bytes of "content-length".
pub open spec fn content_length_bytes() -> Seq<u8> {
    seq![
        'c' as u8,
        'o' as u8,
        'n' as u8,
        't' as u8,
        'e' as u8,
        'n' as u8,
        't' as u8,
        '-' as u8,
        'l' as u8,
        'e' as u8,
        'n' as u8,
        'g' as u8,
        't' as u8,
        'h' as u8,
    ]
}

pub open spec fn connection_bytes() -> Seq<u8> {
    seq![
        'c' as u8,
        'o' as u8,
        'n' as u8,
        'n' as u8,
        'e' as u8,
        'c' as u8,
        't' as u8,
        'i' as u8,
        'o' as u8,
        'n' as u8,
    ]
}

pub open spec fn keep_alive_bytes() -> Seq<u8> {
    seq![
        'k' as u8,
        'e' as u8,
        'e' as u8,
        'p' as u8,
        '-' as u8,
        'a' as u8,
        'l' as u8,
        'i' as u8,
        'v' as u8,
        'e' as u8,
    ]
}

pub open spec fn proxy_connection_bytes() -> Seq<u8> {
    seq![
        'p' as u8,
        'r' as u8,
        'o' as u8,
        'x' as u8,
        'y' as u8,
        '-' as u8,
        'c' as u8,
        'o' as u8,
        'n' as u8,
        'n' as u8,
        'e' as u8,
        'c' as u8,
        't' as u8,
        'i' as u8,
        'o' as u8,
        'n' as u8,
    ]
}

pub open spec fn transfer_encoding_bytes() -> Seq<u8> {
    seq![
        't' as u8,
        'r' as u8,
        'a' as u8,
        'n' as u8,
        's' as u8,
        'f' as u8,
        'e' as u8,
        'r' as u8,
        '-' as u8,
        'e' as u8,
        'n' as u8,
        'c' as u8,
        'o' as u8,
        'd' as u8,
        'i' as u8,
        'n' as u8,
        'g' as u8,
    ]
}

pub open spec fn upgrade_bytes() -> Seq<u8> {
    seq!['u' as u8, 'p' as u8, 'g' as u8, 'r' as u8, 'a' as u8, 'd' as u8, 'e' as u8]
}

/// The hop-by-hop field names, which apply to one transport hop only and are
/// never forwarded.
pub open spec fn spec_is_hop(name: Seq<u8>) -> bool {
    name == connection_bytes() || name == keep_alive_bytes() || name == proxy_connection_bytes()
        || name == transfer_encoding_bytes() || name == upgrade_bytes()
}

fn host_vec() -> (v: Vec<u8>)
    ensures
        v@ == host_bytes(),
{
    let v: Vec<u8> = vec!['h' as u8, 'o' as u8, 's' as u8, 't' as u8];
    proof {
        assert(v@ =~= host_bytes());
    }
    v
}

fn content_length_vec() -> (v: Vec<u8>)
    ensures
        v@ == content_length_bytes(),
{
    let v: Vec<u8> = vec![
        'c' as u8,
        'o' as u8,
        'n' as u8,
        't' as u8,
        'e' as u8,
        'n' as u8,
        't' as u8,
        '-' as u8,
        'l' as u8,
        'e' as u8,
        'n' as u8,
        'g' as u8,
        't' as u8,
        'h' as u8,
    ];
    proof {
        assert(v@ =~= content_length_bytes());
    }
    v
}

/// Whether a (lower-case) field name is hop-by-hop.
pub fn is_hop_header(name: &str) -> (r: bool)
    ensures
        r == spec_is_hop(str_bytes(name@)),
{
    is_hop_bytes(name.as_bytes())
}

/// Byte-level worker for `is_hop_header`.
pub fn is_hop_bytes(name: &[u8]) -> (r: bool)
    ensures
        r == spec_is_hop(name@),
{
    let connection: Vec<u8> = vec![
        'c' as u8,
        'o' as u8,
        'n' as u8,
        'n' as u8,
        'e' as u8,
        'c' as u8,
        't' as u8,
        'i' as u8,
        'o' as u8,
        'n' as u8,
    ];
    let keep_alive: Vec<u8> = vec![
        'k' as u8,
        'e' as u8,
        'e' as u8,
        'p' as u8,
        '-' as u8,
        'a' as u8,
        'l' as u8,
        'i' as u8,
        'v' as u8,
        'e' as u8,
    ];
    let proxy_connection: Vec<u8> = vec![
        'p' as u8,
        'r' as u8,
        'o' as u8,
        'x' as u8,
        'y' as u8,
        '-' as u8,
        'c' as u8,
        'o' as u8,
        'n' as u8,
        'n' as u8,
        'e' as u8,
        'c' as u8,
        't' as u8,
        'i' as u8,
        'o' as u8,
        'n' as u8,
    ];
    let transfer_encoding: Vec<u8> = vec![
        't' as u8,
        'r' as u8,
        'a' as u8,
        'n' as u8,
        's' as u8,
        'f' as u8,
        'e' as u8,
        'r' as u8,
        '-' as u8,
        'e' as u8,
        'n' as u8,
        'c' as u8,
        'o' as u8,
        'd' as u8,
        'i' as u8,
        'n' as u8,
        'g' as u8,
    ];
    let upgrade: Vec<u8> = vec![
        'u' as u8,
        'p' as u8,
        'g' as u8,
        'r' as u8,
        'a' as u8,
        'd' as u8,
        'e' as u8,
    ];
    proof {
        assert(connection@ =~= connection_bytes());
        assert(keep_alive@ =~= keep_alive_bytes());
        assert(proxy_connection@ =~= proxy_connection_bytes());
        assert(transfer_encoding@ =~= transfer_encoding_bytes());
        assert(upgrade@ =~= upgrade_bytes());
    }
    bytes_eq(name, connection.as_slice()) || bytes_eq(name, keep_alive.as_slice()) || bytes_eq(
        name,
        proxy_connection.as_slice(),
    ) || bytes_eq(name, transfer_encoding.as_slice()) || bytes_eq(name, upgrade.as_slice())
}

/// A pseudo-header: the name starts with a colon.
pub open spec fn spec_is_pseudo(name: Seq<u8>) -> bool {
    name.len() > 0 && name[0] == 58
}

/// Headers the bridge drops: pseudo-headers, hop-by-hop headers, and the
/// inbound content length.
pub open spec fn spec_dropped(name: Seq<u8>) -> bool {
    spec_is_pseudo(name) || spec_is_hop(lower_bytes(name)) || lower_bytes(name)
        == content_length_bytes()
}

/// Every non-pseudo name parses, and every kept header's value parses.
pub open spec fn spec_headers_ok(hs: Seq<(Seq<u8>, Seq<u8>)>) -> bool {
    forall|i: int|
        0 <= i < hs.len() ==> (!spec_is_pseudo((#[trigger] hs[i]).0) ==> header_name_ok(hs[i].0))
            && (!spec_dropped(hs[i].0) ==> header_value_ok(hs[i].1))
}

/// The headers that survive the bridge, in arrival order.
pub open spec fn spec_kept(hs: Seq<(Seq<u8>, Seq<u8>)>) -> Seq<(Seq<u8>, Seq<u8>)>
    decreases hs.len(),
{
    if hs.len() == 0 {
        Seq::empty()
    } else {
        let pre = spec_kept(hs.drop_last());
        if spec_dropped(hs.last().0) {
            pre
        } else {
            pre.push(hs.last())
        }
    }
}

/// Whether the client already named a host.
pub open spec fn spec_saw_host(hs: Seq<(Seq<u8>, Seq<u8>)>) -> bool {
    exists|i: int|
        0 <= i < hs.len() && !spec_is_pseudo((#[trigger] hs[i]).0) && lower_bytes(hs[i].0)
            == host_bytes()
}

/// The egress URI: `http://{backend}{path}`, an empty path becoming `/`.
pub open spec fn spec_uri_bytes(backend: Seq<char>, path: Seq<char>) -> Seq<u8> {
    str_bytes("http://"@) + str_bytes(backend) + (if path.len() == 0 {
        seq!['/' as u8]
    } else {
        str_bytes(path)
    })
}

/// The egress header list: the kept headers, then `host` if the client named
/// none, then a fresh `content-length` when the body is not empty.
pub open spec fn spec_final_headers(
    backend: Seq<char>,
    hs: Seq<(Seq<u8>, Seq<u8>)>,
    body: Seq<u8>,
) -> Seq<(Seq<u8>, Seq<u8>)> {
    let kept = spec_kept(hs);
    let with_host = if spec_saw_host(hs) {
        kept
    } else {
        kept.push((host_bytes(), str_bytes(backend)))
    };
    if body.len() > 0 {
        with_host.push((content_length_bytes(), spec_u64_dec(body.len() as u64)))
    } else {
        with_host
    }
}

/// When the bridge succeeds: the method token, the formed URI and every
/// header parse.
pub open spec fn spec_build_ok(
    backend: Seq<char>,
    method: Seq<char>,
    path: Seq<char>,
    hs: Seq<(Seq<u8>, Seq<u8>)>,
) -> bool {
    method_bytes_ok(str_bytes(method)) && uri_bytes_ok(spec_uri_bytes(backend, path))
        && spec_headers_ok(hs)
}

/// Build the HTTP/2 request for `backend` from an HTTP/3 request envelope.
/// On success the parts are exactly `spec_uri_bytes` / `spec_final_headers`
/// of the inputs; each failure names the first part that did not parse.
pub fn build_h2_request(
    backend: &str,
    method: &str,
    path: &str,
    headers: &[(Vec<u8>, Vec<u8>)],
    body: &[u8],
) -> (r: Result<H2Request, BridgeError>)
    ensures
        spec_build_ok(backend@, method@, path@, view_headers(headers@)) ==> (r matches Ok(req)
            && req.method@ == str_bytes(method@) && req.uri@ == spec_uri_bytes(backend@, path@)
            && view_headers(req.headers@) == spec_final_headers(
            backend@,
            view_headers(headers@),
            body@,
        ) && req.body@ == body@),
        !method_bytes_ok(str_bytes(method@)) ==> r == Err::<H2Request, BridgeError>(
            BridgeError::InvalidMethod,
        ),
        method_bytes_ok(str_bytes(method@)) && !uri_bytes_ok(spec_uri_bytes(backend@, path@))
            ==> r == Err::<H2Request, BridgeError>(BridgeError::InvalidUri),
        method_bytes_ok(str_bytes(method@)) && uri_bytes_ok(spec_uri_bytes(backend@, path@))
            && !spec_headers_ok(view_headers(headers@)) ==> r == Err::<H2Request, BridgeError>(
            BridgeError::InvalidHeader,
        ),
{
    if !method_parses(method.as_bytes()) {
        return Err(BridgeError::InvalidMethod);
    }
    let mut uri: Vec<u8> = Vec::new();
    uri.extend_from_slice("http://".as_bytes());
    uri.extend_from_slice(backend.as_bytes());
    if path.is_empty() {
        uri.push(47);
    } else {
        uri.extend_from_slice(path.as_bytes());
    }
    proof {
        assert(uri@ =~= spec_uri_bytes(backend@, path@));
    }
    if !uri_parses(uri.as_slice()) {
        return Err(BridgeError::InvalidUri);
    }

    let ghost vh = view_headers(headers@);
    let mut kept: Vec<(Vec<u8>, Vec<u8>)> = Vec::new();
    let mut saw_host = false;
    let mut i: usize = 0;
    proof {
        assert(vh.subrange(0, 0) =~= Seq::<(Seq<u8>, Seq<u8>)>::empty());
    }
    while i < headers.len()
        invariant
            i <= headers@.len(),
            vh == view_headers(headers@),
            method_bytes_ok(str_bytes(method@)),
            uri_bytes_ok(spec_uri_bytes(backend@, path@)),
            view_headers(kept@) == spec_kept(vh.subrange(0, i as int)),
            saw_host == spec_saw_host(vh.subrange(0, i as int)),
            spec_headers_ok(vh.subrange(0, i as int)),
        decreases headers@.len() - i,
    {
        let name = &headers[i].0;
        let value = &headers[i].1;
        proof {
            assert(vh[i as int] == (name@, value@));
        }
        let pseudo = name.len() > 0 && {
            let b = name[0];
            b == 58
        };
        if !pseudo {
            if !header_name_parses(name.as_slice()) {
                proof {
                    assert(!spec_headers_ok(vh)) by {
                        assert(vh[i as int] == (name@, value@));
                        assert(!spec_is_pseudo(vh[i as int].0) && !header_name_ok(vh[i as int].0));
                    }
                }
                return Err(BridgeError::InvalidHeader);
            }
            let lname = lower_vec(name.as_slice());
            let hostv = host_vec();
            if bytes_eq(lname.as_slice(), hostv.as_slice()) {
                saw_host = true;
            }
            let clv = content_length_vec();
            let dropped = bytes_eq(lname.as_slice(), clv.as_slice()) || is_hop_bytes(
                lname.as_slice(),
            );
            if !dropped {
                if !header_value_parses(value.as_slice()) {
                    proof {
                        assert(!spec_headers_ok(vh)) by {
                            assert(vh[i as int] == (name@, value@));
                            assert(!spec_dropped(vh[i as int].0) && !header_value_ok(
                                vh[i as int].1,
                            ));
                        }
                    }
                    return Err(BridgeError::InvalidHeader);
                }
                kept.push((name.clone(), value.clone()));
            }
        }
        i += 1;
        proof {
            assert(vh.subrange(0, i as int).drop_last() =~= vh.subrange(0, i - 1));
            assert(vh.subrange(0, i as int).last() == vh[i - 1]);
            assert(view_headers(kept@) =~= spec_kept(vh.subrange(0, i as int)));
            if spec_saw_host(vh.subrange(0, i as int)) && !spec_saw_host(vh.subrange(0, i - 1)) {
                let w = choose|w: int|
                    0 <= w < i && !spec_is_pseudo(
                        (#[trigger] vh.subrange(0, i as int)[w]).0,
                    ) && lower_bytes(vh.subrange(0, i as int)[w].0) == host_bytes();
                assert(w == i - 1);
            }
            if saw_host {
                assert(spec_saw_host(vh.subrange(0, i as int)));
            }
            assert forall|j: int| 0 <= j < i implies (!spec_is_pseudo(
                (#[trigger] vh.subrange(0, i as int)[j]).0,
            ) ==> header_name_ok(vh.subrange(0, i as int)[j].0)) && (!spec_dropped(
                vh.subrange(0, i as int)[j].0,
            ) ==> header_value_ok(vh.subrange(0, i as int)[j].1)) by {
                assert(vh.subrange(0, i as int)[j] == vh.subrange(0, i - 1).push(vh[i - 1])[j]);
            }
        }
    }
    proof {
        assert(vh.subrange(0, vh.len() as int) =~= vh);
    }
    let mut final_headers = kept;
    if !saw_host {
        final_headers.push((host_vec(), slice_to_vec(backend.as_bytes())));
    }
    if body.len() > 0 {
        let mut cl: Vec<u8> = Vec::new();
        push_u64_dec(body.len() as u64, &mut cl);
        final_headers.push((content_length_vec(), cl));
    }
    proof {
        assert(view_headers(final_headers@) =~= spec_final_headers(backend@, vh, body@));
    }
    Ok(
        H2Request {
            method: slice_to_vec(method.as_bytes()),
            uri,
            headers: final_headers,
            body: slice_to_vec(body),
        },
    )
}

/// Bridging is idempotent: what it builds is a function of backend, method,
/// path, headers and body alone, so two requests built from identical inputs
/// agree byte for byte on the method, the URI, the header list and the body.
pub proof fn lemma_bridge_deterministic(
    backend: Seq<char>,
    method: Seq<char>,
    path: Seq<char>,
    hs: Seq<(Seq<u8>, Seq<u8>)>,
    body: Seq<u8>,
    r1: H2Request,
    r2: H2Request,
)
    requires
        r1.method@ == str_bytes(method),
        r1.uri@ == spec_uri_bytes(backend, path),
        view_headers(r1.headers@) == spec_final_headers(backend, hs, body),
        r1.body@ == body,
        r2.method@ == str_bytes(method),
        r2.uri@ == spec_uri_bytes(backend, path),
        view_headers(r2.headers@) == spec_final_headers(backend, hs, body),
        r2.body@ == body,
    ensures
        r1.method@ == r2.method@,
        r1.uri@ == r2.uri@,
        view_headers(r1.headers@) == view_headers(r2.headers@),
        r1.body@ == r2.body@,
{
}

/// No hop-by-hop header and no pseudo-header survives the bridge: every name
/// on the egress request is neither, however the name was cased.
pub proof fn lemma_no_hop_headers_on_egress(
    backend: Seq<char>,
    hs: Seq<(Seq<u8>, Seq<u8>)>,
    body: Seq<u8>,
)
    ensures
        forall|i: int|
            0 <= i < spec_final_headers(backend, hs, body).len() ==> !spec_is_hop(
                lower_bytes((#[trigger] spec_final_headers(backend, hs, body)[i]).0),
            ) && !spec_is_pseudo(spec_final_headers(backend, hs, body)[i].0),
{
    lemma_kept_headers_clean(hs);
    let kept = spec_kept(hs);
    let out = spec_final_headers(backend, hs, body);
    assert(lower_bytes(host_bytes()) =~= host_bytes());
    assert(lower_bytes(content_length_bytes()) =~= content_length_bytes());
    assert(!spec_is_hop(host_bytes()));
    assert(!spec_is_hop(content_length_bytes()));
    assert forall|i: int| 0 <= i < out.len() implies !spec_is_hop(
        lower_bytes((#[trigger] out[i]).0),
    ) && !spec_is_pseudo(out[i].0) by {
        if i < kept.len() {
            assert(out[i] == kept[i]);
        }
    }
}

/// The kept headers are neither pseudo nor hop-by-hop.
proof fn lemma_kept_headers_clean(hs: Seq<(Seq<u8>, Seq<u8>)>)
    ensures
        forall|i: int|
            0 <= i < spec_kept(hs).len() ==> !spec_dropped((#[trigger] spec_kept(hs)[i]).0),
    decreases hs.len(),
{
    if hs.len() > 0 {
        lemma_kept_headers_clean(hs.drop_last());
        let pre = spec_kept(hs.drop_last());
        assert forall|i: int| 0 <= i < spec_kept(hs).len() implies !spec_dropped(
            (#[trigger] spec_kept(hs)[i]).0,
        ) by {
            if i < pre.len() {
                assert(spec_kept(hs)[i] == pre[i]);
            }
        }
    }
}

} // verus!