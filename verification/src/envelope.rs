//! Per-stream request assembly: the request envelope built from HTTP/3
//! headers, and the per-connection table of open streams keyed by stream id.

use vstd::prelude::*;

use crate::bridge::host_bytes;

verus! {

/// One HTTP/3 request as it arrives: pseudo-header fields, the full header
/// list in order, the accumulated body, and when it started.
pub struct RequestEnvelope {
    pub method: String,
    pub path: String,
    pub authority: Option<String>,
    pub headers: Vec<(Vec<u8>, Vec<u8>)>,
    pub body: Vec<u8>,
    pub start_ms: u64,
}

/// The characters `String::from_utf8_lossy` yields for these bytes.
pub uninterp spec fn lossy_utf8(b: Seq<u8>) -> Seq<char>;

/// Relies on String::from_utf8_lossy: a function of the bytes alone, invalid
/// sequences becoming replacement characters, so the result is empty exactly
/// when the input is.
#[verifier::external_body]
fn lossy_string(b: &[u8]) -> (s: String)
    ensures
        s@ == lossy_utf8(b@),
        b@.len() == 0 <==> s@.len() == 0,
{
    String::from_utf8_lossy(b).to_string()
}

/// The bytes of ":method".
pub open spec fn method_pseudo_bytes() -> Seq<u8> {
    seq![':' as u8, 'm' as u8, 'e' as u8, 't' as u8, 'h' as u8, 'o' as u8, 'd' as u8]
}

/// The bytes of ":path".
pub open spec fn path_pseudo_bytes() -> Seq<u8> {
    seq![':' as u8, 'p' as u8, 'a' as u8, 't' as u8, 'h' as u8]
}

/// The bytes of ":authority".
pub open spec fn authority_pseudo_bytes() -> Seq<u8> {
    seq![
        ':' as u8,
        'a' as u8,
        'u' as u8,
        't' as u8,
        'h' as u8,
        'o' as u8,
        'r' as u8,
        'i' as u8,
        't' as u8,
        'y' as u8,
    ]
}

/// Byte views of a header list.
pub open spec fn view_env_headers(hs: Seq<(Vec<u8>, Vec<u8>)>) -> Seq<(Seq<u8>, Seq<u8>)> {
    hs.map_values(|p: (Vec<u8>, Vec<u8>)| (p.0@, p.1@))
}

/// Value of the last header named exactly `name`, if any.
pub open spec fn spec_last_value(hs: Seq<(Seq<u8>, Seq<u8>)>, name: Seq<u8>) -> Option<Seq<u8>>
    decreases hs.len(),
{
    if hs.len() == 0 {
        None
    } else if hs.last().0 == name {
        Some(hs.last().1)
    } else {
        spec_last_value(hs.drop_last(), name)
    }
}

/// Value of the last header named `:authority` or `host`, if any.
pub open spec fn spec_last_authority(hs: Seq<(Seq<u8>, Seq<u8>)>) -> Option<Seq<u8>>
    decreases hs.len(),
{
    if hs.len() == 0 {
        None
    } else if hs.last().0 == authority_pseudo_bytes() || hs.last().0 == host_bytes() {
        Some(hs.last().1)
    } else {
        spec_last_authority(hs.drop_last())
    }
}

fn find_last_eq(headers: &Vec<(Vec<u8>, Vec<u8>)>, name: &[u8]) -> (r: Option<usize>)
    ensures
        r matches Some(k) ==> k < headers@.len() && headers@[k as int].0@ == name@
            && spec_last_value(view_env_headers(headers@), name@) == Some(
            headers@[k as int].1@,
        ),
        r is None ==> spec_last_value(view_env_headers(headers@), name@) is None,
{
    let ghost vh = view_env_headers(headers@);
    let mut r: Option<usize> = None;
    let mut i: usize = 0;
    proof {
        assert(vh.subrange(0, 0) =~= Seq::<(Seq<u8>, Seq<u8>)>::empty());
    }
    while i < headers.len()
        invariant
            i <= headers@.len(),
            vh == view_env_headers(headers@),
            r matches Some(k) ==> k < i && headers@[k as int].0@ == name@ && spec_last_value(
                vh.subrange(0, i as int),
                name@,
            ) == Some(headers@[k as int].1@),
            r is None ==> spec_last_value(vh.subrange(0, i as int), name@) is None,
        decreases headers@.len() - i,
    {
        if crate::util::bytes_eq(headers[i].0.as_slice(), name) {
            r = Some(i);
        }
        i += 1;
        proof {
            assert(vh.subrange(0, i as int).drop_last() =~= vh.subrange(0, i - 1));
            assert(vh.subrange(0, i as int).last() == vh[i - 1]);
            assert(vh[i - 1] == (headers@[i - 1].0@, headers@[i - 1].1@));
        }
    }
    proof {
        assert(vh.subrange(0, vh.len() as int) =~= vh);
    }
    r
}

fn find_last_authority(headers: &Vec<(Vec<u8>, Vec<u8>)>) -> (r: Option<usize>)
    ensures
        r matches Some(k) ==> k < headers@.len() && spec_last_authority(
            view_env_headers(headers@),
        ) == Some(headers@[k as int].1@),
        r is None ==> spec_last_authority(view_env_headers(headers@)) is None,
{
    let authority: Vec<u8> = vec![
        ':' as u8,
        'a' as u8,
        'u' as u8,
        't' as u8,
        'h' as u8,
        'o' as u8,
        'r' as u8,
        'i' as u8,
        't' as u8,
        'y' as u8,
    ];
    let host: Vec<u8> = vec!['h' as u8, 'o' as u8, 's' as u8, 't' as u8];
    proof {
        assert(authority@ =~= authority_pseudo_bytes());
        assert(host@ =~= host_bytes());
    }
    let ghost vh = view_env_headers(headers@);
    let mut r: Option<usize> = None;
    let mut i: usize = 0;
    proof {
        assert(vh.subrange(0, 0) =~= Seq::<(Seq<u8>, Seq<u8>)>::empty());
    }
    while i < headers.len()
        invariant
            i <= headers@.len(),
            vh == view_env_headers(headers@),
            authority@ == authority_pseudo_bytes(),
            host@ == host_bytes(),
            r matches Some(k) ==> k < i && spec_last_authority(vh.subrange(0, i as int)) == Some(
                headers@[k as int].1@,
            ),
            r is None ==> spec_last_authority(vh.subrange(0, i as int)) is None,
        decreases headers@.len() - i,
    {
        if crate::util::bytes_eq(headers[i].0.as_slice(), authority.as_slice())
            || crate::util::bytes_eq(headers[i].0.as_slice(), host.as_slice()) {
            r = Some(i);
        }
        i += 1;
        proof {
            assert(vh.subrange(0, i as int).drop_last() =~= vh.subrange(0, i - 1));
            assert(vh.subrange(0, i as int).last() == vh[i - 1]);
            assert(vh[i - 1] == (headers@[i - 1].0@, headers@[i - 1].1@));
        }
    }
    proof {
        assert(vh.subrange(0, vh.len() as int) =~= vh);
    }
    r
}

/// Everything `RequestEnvelope::from_headers` promises of the envelope `r`
/// built from header list `hs` at time `now_ms`.
pub open spec fn spec_envelope_of(hs: Seq<(Vec<u8>, Vec<u8>)>, now_ms: u64, r: RequestEnvelope) -> bool {
    &&& (spec_last_value(view_env_headers(hs), method_pseudo_bytes()) matches Some(v)
        ==> r.method@ == lossy_utf8(v))
    &&& (spec_last_value(view_env_headers(hs), method_pseudo_bytes()) is None ==> r.method@.len()
        == 0)
    &&& (spec_last_value(view_env_headers(hs), path_pseudo_bytes()) matches Some(v) ==> r.path@
        == lossy_utf8(v))
    &&& (spec_last_value(view_env_headers(hs), path_pseudo_bytes()) is None ==> r.path@.len() == 0)
    &&& (spec_last_authority(view_env_headers(hs)) matches Some(v) ==> (r.authority matches Some(
        a,
    ) && a@ == lossy_utf8(v)))
    &&& (spec_last_authority(view_env_headers(hs)) is None ==> r.authority is None)
    &&& r.headers@ == hs
    &&& r.body@ == Seq::<u8>::empty()
    &&& r.start_ms == now_ms
}

impl RequestEnvelope {
    /// Assemble a fresh envelope from the headers of an HTTP/3 `Headers`
    /// event: the last `:method` and `:path` become the method and path
    /// (empty when absent), the last `:authority` or `host` the authority;
    /// the header list is kept whole and the body starts empty.
    pub fn from_headers(headers: Vec<(Vec<u8>, Vec<u8>)>, now_ms: u64) -> (r: RequestEnvelope)
        ensures
            spec_envelope_of(headers@, now_ms, r),
    {
        let method_name: Vec<u8> = vec![
            ':' as u8,
            'm' as u8,
            'e' as u8,
            't' as u8,
            'h' as u8,
            'o' as u8,
            'd' as u8,
        ];
        let path_name: Vec<u8> = vec![':' as u8, 'p' as u8, 'a' as u8, 't' as u8, 'h' as u8];
        proof {
            assert(method_name@ =~= method_pseudo_bytes());
            assert(path_name@ =~= path_pseudo_bytes());
        }
        let mi = find_last_eq(&headers, method_name.as_slice());
        let pi = find_last_eq(&headers, path_name.as_slice());
        let ai = find_last_authority(&headers);
        let method = match mi {
            Some(k) => lossy_string(headers[k].1.as_slice()),
            None => String::new(),
        };
        let path = match pi {
            Some(k) => lossy_string(headers[k].1.as_slice()),
            None => String::new(),
        };
        let authority = match ai {
            Some(k) => Some(lossy_string(headers[k].1.as_slice())),
            None => None,
        };
        RequestEnvelope {
            method,
            path,
            authority,
            headers,
            body: Vec::new(),
            start_ms: now_ms,
        }
    }
}

/// First position of `id` in the table, if present.
pub open spec fn spec_find_stream(entries: Seq<(u64, RequestEnvelope)>, id: u64) -> Option<int>
    decreases entries.len(),
{
    if entries.len() == 0 {
        None
    } else if entries.first().0 == id {
        Some(0int)
    } else {
        match spec_find_stream(entries.drop_first(), id) {
            Some(k) => Some(k + 1),
            None => None,
        }
    }
}

/// Shape of `spec_find_stream`: a hit is the first position carrying `id`,
/// and a miss means no position carries it.
pub proof fn lemma_find_stream_props(entries: Seq<(u64, RequestEnvelope)>, id: u64)
    ensures
        spec_find_stream(entries, id) matches Some(k) ==> 0 <= k < entries.len() && entries[k].0
            == id && forall|j: int| 0 <= j < k ==> (#[trigger] entries[j]).0 != id,
        spec_find_stream(entries, id) is None ==> forall|j: int|
            0 <= j < entries.len() ==> (#[trigger] entries[j]).0 != id,
    decreases entries.len(),
{
    if entries.len() > 0 {
        lemma_find_stream_props(entries.drop_first(), id);
        if entries.first().0 != id {
            let rest = entries.drop_first();
            match spec_find_stream(rest, id) {
                Some(k) => {
                    assert forall|j: int| 0 <= j < k + 1 implies (#[trigger] entries[j]).0
                        != id by {
                        if j > 0 {
                            assert(entries[j] == rest[j - 1]);
                        }
                    }
                },
                None => {
                    assert forall|j: int| 0 <= j < entries.len() implies (#[trigger] entries[j]).0
                        != id by {
                        if j > 0 {
                            assert(entries[j] == rest[j - 1]);
                        }
                    }
                },
            }
        }
    }
}

/// Everything `StreamTable::insert` promises: a stream already under `id`
/// is replaced in place, a new one is appended.
pub open spec fn spec_insert_post(
    es0: Seq<(u64, RequestEnvelope)>,
    es1: Seq<(u64, RequestEnvelope)>,
    id: u64,
    env: RequestEnvelope,
) -> bool {
    match spec_find_stream(es0, id) {
        Some(k) => es1 == es0.update(k, (id, env)),
        None => es1 == es0.push((id, env)),
    }
}

/// Everything `StreamTable::append_body` promises: on a known stream the
/// chunk lands at the end of that envelope's body and nothing else moves;
/// on an unknown stream nothing moves and the call reports `false`.
pub open spec fn spec_append_post(
    es0: Seq<(u64, RequestEnvelope)>,
    es1: Seq<(u64, RequestEnvelope)>,
    id: u64,
    chunk: Seq<u8>,
    r: bool,
) -> bool {
    match spec_find_stream(es0, id) {
        Some(k) => r && es1.len() == es0.len() && es1[k].0 == id && es1[k].1.body@ == es0[k].1.body@
            + chunk && es1[k].1.method == es0[k].1.method && es1[k].1.path == es0[k].1.path
            && es1[k].1.authority == es0[k].1.authority && es1[k].1.headers == es0[k].1.headers
            && es1[k].1.start_ms == es0[k].1.start_ms && (forall|j: int|
            0 <= j < es0.len() && j != k ==> es1[j] == es0[j]),
        None => !r && es1 == es0,
    }
}

/// Everything `StreamTable::remove` promises: a known stream's envelope comes
/// out and its entry disappears; an unknown id changes nothing.
pub open spec fn spec_remove_post(
    es0: Seq<(u64, RequestEnvelope)>,
    es1: Seq<(u64, RequestEnvelope)>,
    id: u64,
    r: Option<RequestEnvelope>,
) -> bool {
    match spec_find_stream(es0, id) {
        Some(k) => (r matches Some(env) && env == es0[k].1 && es1 == es0.remove(k)),
        None => r is None && es1 == es0,
    }
}

/// The open streams of one connection, keyed by stream id.
pub struct StreamTable {
    pub entries: Vec<(u64, RequestEnvelope)>,
}

impl StreamTable {
    pub fn new() -> (t: Self)
        ensures
            t.entries@.len() == 0,
    {
        StreamTable { entries: Vec::new() }
    }

    pub fn len(&self) -> (n: usize)
        ensures
            n == self.entries@.len(),
    {
        self.entries.len()
    }

    fn find(&self, id: u64) -> (r: Option<usize>)
        ensures
            r matches Some(k) ==> spec_find_stream(self.entries@, id) == Some(k as int),
            r is None ==> spec_find_stream(self.entries@, id) is None,
    {
        let ghost es = self.entries@;
        let mut i: usize = 0;
        proof {
            assert(es.skip(0) =~= es);
        }
        while i < self.entries.len()
            invariant
                i <= es.len(),
                es == self.entries@,
                spec_find_stream(es.skip(i as int), id) matches Some(k) ==> spec_find_stream(
                    es,
                    id,
                ) == Some(k + i),
                spec_find_stream(es.skip(i as int), id) is None ==> spec_find_stream(
                    es,
                    id,
                ) is None,
            decreases es.len() - i,
        {
            proof {
                assert(es.skip(i as int).first() == es[i as int]);
                assert(es.skip(i as int).drop_first() =~= es.skip(i as int + 1));
            }
            if self.entries[i].0 == id {
                return Some(i);
            }
            i += 1;
        }
        None
    }

    /// Store `env` under `id`, replacing an envelope already there.
    pub fn insert(&mut self, id: u64, env: RequestEnvelope)
        ensures
            spec_insert_post(old(self).entries@, final(self).entries@, id, env),
    {
        let found = self.find(id);
        match found {
            Some(k) => {
                proof {
                    lemma_find_stream_props(self.entries@, id);
                }
                self.entries.remove(k);
                self.entries.insert(k, (id, env));
                proof {
                    assert(self.entries@ =~= old(self).entries@.update(
                        spec_find_stream(old(self).entries@, id)->0,
                        (id, env),
                    ));
                }
            },
            None => {
                self.entries.push((id, env));
            },
        }
    }

    /// Append body bytes to the stream's envelope; reports whether the
    /// stream was known.
    pub fn append_body(&mut self, id: u64, chunk: &[u8]) -> (r: bool)
        ensures
            spec_append_post(old(self).entries@, final(self).entries@, id, chunk@, r),
            spec_find_stream(old(self).entries@, id) is None ==> *final(self) == *old(self),
    {
        let found = self.find(id);
        match found {
            Some(k) => {
                proof {
                    lemma_find_stream_props(self.entries@, id);
                }
                let entry = self.entries.remove(k);
                let (eid, mut env) = entry;
                env.body.extend_from_slice(chunk);
                proof {
                    assert(env.body@ =~= old(self).entries@[k as int].1.body@ + chunk@);
                }
                self.entries.insert(k, (eid, env));
                true
            },
            None => false,
        }
    }

    /// Take the envelope of `id` out of the table, if present.
    pub fn remove(&mut self, id: u64) -> (r: Option<RequestEnvelope>)
        ensures
            spec_remove_post(old(self).entries@, final(self).entries@, id, r),
            spec_find_stream(old(self).entries@, id) is None ==> *final(self) == *old(self),
    {
        let found = self.find(id);
        match found {
            Some(k) => {
                proof {
                    lemma_find_stream_props(self.entries@, id);
                }
                let entry = self.entries.remove(k);
                Some(entry.1)
            },
            None => None,
        }
    }
}

} // verus!