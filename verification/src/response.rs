//! Assembly of the header lists written back over HTTP/3: the `:status`
//! pseudo-header, the backend's headers with hop-by-hop names and the stale
//! `Content-Length` stripped, and a fresh `Content-Length` for the body about
//! to be sent.

use vstd::prelude::*;

use crate::bridge::{content_length_bytes, spec_is_hop, is_hop_bytes};
use crate::util::{lower_bytes, lower_vec, push_u64_dec, spec_u64_dec};

verus! {

/// The bytes of ":status".
pub open spec fn status_pseudo_bytes() -> Seq<u8> {
    seq![':' as u8, 's' as u8, 't' as u8, 'a' as u8, 't' as u8, 'u' as u8, 's' as u8]
}

/// The bytes of "content-type".
pub open spec fn content_type_bytes() -> Seq<u8> {
    seq![
        'c' as u8,
        'o' as u8,
        'n' as u8,
        't' as u8,
        'e' as u8,
        'n' as u8,
        't' as u8,
        '-' as u8,
        't' as u8,
        'y' as u8,
        'p' as u8,
        'e' as u8,
    ]
}

/// The bytes of "text/plain".
pub open spec fn text_plain_bytes() -> Seq<u8> {
    seq![
        't' as u8,
        'e' as u8,
        'x' as u8,
        't' as u8,
        '/' as u8,
        'p' as u8,
        'l' as u8,
        'a' as u8,
        'i' as u8,
        'n' as u8,
    ]
}

/// A response header is dropped when its name is hop-by-hop or the backend's
/// own content length, whatever its case.
pub open spec fn spec_resp_dropped(name: Seq<u8>) -> bool {
    spec_is_hop(lower_bytes(name)) || lower_bytes(name) == content_length_bytes()
}

/// The backend headers that are forwarded, in arrival order.
pub open spec fn spec_resp_kept(hs: Seq<(Seq<u8>, Seq<u8>)>) -> Seq<(Seq<u8>, Seq<u8>)>
    decreases hs.len(),
{
    if hs.len() == 0 {
        Seq::empty()
    } else {
        let pre = spec_resp_kept(hs.drop_last());
        if spec_resp_dropped(hs.last().0) {
            pre
        } else {
            pre.push(hs.last())
        }
    }
}

/// Byte views of a header list.
pub open spec fn view_resp_headers(hs: Seq<(Vec<u8>, Vec<u8>)>) -> Seq<(Seq<u8>, Seq<u8>)> {
    hs.map_values(|p: (Vec<u8>, Vec<u8>)| (p.0@, p.1@))
}

/// The full HTTP/3 response header list for a forwarded backend response.
pub open spec fn spec_h3_response_headers(
    status: u16,
    hs: Seq<(Seq<u8>, Seq<u8>)>,
    body_len: u64,
) -> Seq<(Seq<u8>, Seq<u8>)> {
    seq![(status_pseudo_bytes(), spec_u64_dec(status as u64))] + spec_resp_kept(hs) + seq![
        (content_length_bytes(), spec_u64_dec(body_len)),
    ]
}

fn status_pseudo_vec() -> (v: Vec<u8>)
    ensures
        v@ == status_pseudo_bytes(),
{
    let v: Vec<u8> = vec![':' as u8, 's' as u8, 't' as u8, 'a' as u8, 't' as u8, 'u' as u8,
        's' as u8];
    proof {
        assert(v@ =~= status_pseudo_bytes());
    }
    v
}

fn content_length_vec() -> (v: Vec<u8>)
    ensures
        v@ == content_length_bytes(),
{
    let v: Vec<u8> = vec![
        'c' as u8,
        'o' as u8,
        'n' as u8,
        't' as u8,
        'e' as u8,
        'n' as u8,
        't' as u8,
        '-' as u8,
        'l' as u8,
        'e' as u8,
        'n' as u8,
        'g' as u8,
        't' as u8,
        'h' as u8,
    ];
    proof {
        assert(v@ =~= content_length_bytes());
    }
    v
}

fn dec_vec(n: u64) -> (v: Vec<u8>)
    ensures
        v@ == spec_u64_dec(n),
{
    let mut v: Vec<u8> = Vec::new();
    push_u64_dec(n, &mut v);
    proof {
        assert(v@ =~= spec_u64_dec(n));
    }
    v
}

/// Header list for forwarding a backend response over HTTP/3: `:status`,
/// the kept backend headers, then a fresh content length.
pub fn build_h3_response_headers(
    status: u16,
    headers: &[(Vec<u8>, Vec<u8>)],
    body_len: u64,
) -> (r: Vec<(Vec<u8>, Vec<u8>)>)
    ensures
        view_resp_headers(r@) == spec_h3_response_headers(
            status,
            view_resp_headers(headers@),
            body_len,
        ),
{
    let ghost vh = view_resp_headers(headers@);
    let mut r: Vec<(Vec<u8>, Vec<u8>)> = Vec::new();
    r.push((status_pseudo_vec(), dec_vec(status as u64)));
    let mut i: usize = 0;
    proof {
        assert(vh.subrange(0, 0) =~= Seq::<(Seq<u8>, Seq<u8>)>::empty());
        assert(view_resp_headers(r@) =~= seq![(status_pseudo_bytes(), spec_u64_dec(status as u64))]
            + spec_resp_kept(vh.subrange(0, 0)));
    }
    while i < headers.len()
        invariant
            i <= headers@.len(),
            vh == view_resp_headers(headers@),
            view_resp_headers(r@) == seq![(status_pseudo_bytes(), spec_u64_dec(status as u64))]
                + spec_resp_kept(vh.subrange(0, i as int)),
        decreases headers@.len() - i,
    {
        let ghost r_prev = r@;
        let name = &headers[i].0;
        let value = &headers[i].1;
        proof {
            assert(vh[i as int] == (name@, value@));
        }
        let lname = lower_vec(name.as_slice());
        let clv = content_length_vec();
        let dropped = is_hop_bytes(lname.as_slice()) || crate::util::bytes_eq(
            lname.as_slice(),
            clv.as_slice(),
        );
        if !dropped {
            r.push((name.clone(), value.clone()));
        }
        i += 1;
        proof {
            assert(vh.subrange(0, i as int).drop_last() =~= vh.subrange(0, i - 1));
            assert(vh.subrange(0, i as int).last() == vh[i - 1]);
            if !spec_resp_dropped(vh[i - 1].0) {
                assert(view_resp_headers(r@) =~= view_resp_headers(r_prev).push(vh[i - 1]));
            }
            assert(view_resp_headers(r@) =~= seq![
                (status_pseudo_bytes(), spec_u64_dec(status as u64)),
            ] + spec_resp_kept(vh.subrange(0, i as int)));
        }
    }
    proof {
        assert(vh.subrange(0, vh.len() as int) =~= vh);
    }
    r.push((content_length_vec(), dec_vec(body_len)));
    proof {
        assert(view_resp_headers(r@) =~= spec_h3_response_headers(status, vh, body_len));
    }
    r
}

/// Header list for a proxy-generated plain-text response: `:status`,
/// `content-type: text/plain`, and the body's length.
pub fn build_simple_response_headers(status: u16, body_len: u64) -> (r: Vec<(Vec<u8>, Vec<u8>)>)
    ensures
        view_resp_headers(r@) == seq![
            (status_pseudo_bytes(), spec_u64_dec(status as u64)),
            (content_type_bytes(), text_plain_bytes()),
            (content_length_bytes(), spec_u64_dec(body_len)),
        ],
{
    let content_type: Vec<u8> = vec![
        'c' as u8,
        'o' as u8,
        'n' as u8,
        't' as u8,
        'e' as u8,
        'n' as u8,
        't' as u8,
        '-' as u8,
        't' as u8,
        'y' as u8,
        'p' as u8,
        'e' as u8,
    ];
    let text_plain: Vec<u8> = vec![
        't' as u8,
        'e' as u8,
        'x' as u8,
        't' as u8,
        '/' as u8,
        'p' as u8,
        'l' as u8,
        'a' as u8,
        'i' as u8,
        'n' as u8,
    ];
    proof {
        assert(content_type@ =~= content_type_bytes());
        assert(text_plain@ =~= text_plain_bytes());
    }
    let mut r: Vec<(Vec<u8>, Vec<u8>)> = Vec::new();
    r.push((status_pseudo_vec(), dec_vec(status as u64)));
    r.push((content_type, text_plain));
    r.push((content_length_vec(), dec_vec(body_len)));
    proof {
        assert(view_resp_headers(r@) =~= seq![
            (status_pseudo_bytes(), spec_u64_dec(status as u64)),
            (content_type_bytes(), text_plain_bytes()),
            (content_length_bytes(), spec_u64_dec(body_len)),
        ]);
    }
    r
}

/// No hop-by-hop name appears on a forwarded response's header list, however
/// the backend cased it.
pub proof fn lemma_no_hop_headers_on_response(status: u16, hs: Seq<(Seq<u8>, Seq<u8>)>, body_len: u64)
    ensures
        forall|i: int|
            0 <= i < spec_h3_response_headers(status, hs, body_len).len() ==> !spec_is_hop(
                lower_bytes((#[trigger] spec_h3_response_headers(status, hs, body_len)[i]).0),
            ),
{
    lemma_resp_kept_clean(hs);
    let kept = spec_resp_kept(hs);
    let out = spec_h3_response_headers(status, hs, body_len);
    assert(lower_bytes(status_pseudo_bytes()) =~= status_pseudo_bytes());
    assert(lower_bytes(content_length_bytes()) =~= content_length_bytes());
    assert(!spec_is_hop(status_pseudo_bytes()));
    assert(!spec_is_hop(content_length_bytes()));
    assert forall|i: int| 0 <= i < out.len() implies !spec_is_hop(
        lower_bytes((#[trigger] out[i]).0),
    ) by {
        if 1 <= i < 1 + kept.len() {
            assert(out[i] == kept[i - 1]);
        }
    }
}

/// The kept response headers are not hop-by-hop.
proof fn lemma_resp_kept_clean(hs: Seq<(Seq<u8>, Seq<u8>)>)
    ensures
        forall|i: int|
            0 <= i < spec_resp_kept(hs).len() ==> !spec_resp_dropped(
                (#[trigger] spec_resp_kept(hs)[i]).0,
            ),
    decreases hs.len(),
{
    if hs.len() > 0 {
        lemma_resp_kept_clean(hs.drop_last());
        let pre = spec_resp_kept(hs.drop_last());
        assert forall|i: int| 0 <= i < spec_resp_kept(hs).len() implies !spec_resp_dropped(
            (#[trigger] spec_resp_kept(hs)[i]).0,
        ) by {
            if i < pre.len() {
                assert(spec_resp_kept(hs)[i] == pre[i]);
            }
        }
    }
}

} // verus!
