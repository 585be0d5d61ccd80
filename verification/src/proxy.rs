//! The request dispatcher and the cache controller.
//!
//! A request is served cache-first: Static Cache by URI, then API Cache by
//! fingerprint, then forwarded upstream with the protocol version forced to
//! HTTP/1.1 and the `Host` header set to the request authority.  When the
//! forwarded response comes back it is classified; a static response goes
//! into the Static Cache, a dynamic GET response runs the capture/promote
//! protocol, and a dynamic non-GET response touches no cache.  The cache
//! controller clears every tier, reports the combined size of the Static and
//! API caches, and signals shutdown.

use vstd::prelude::*;
use crate::bytesutil::bytes_eq;
use crate::strutil::str_eq;
use crate::cache::{
    CacheEntry, CacheEntryView, StaticCache, CapturedMap, ApiCache, headers_view,
    static_lookup, static_insert, captured_lookup, captured_insert, api_lookup, api_insert,
    lemma_static_insert_lookup, lemma_captured_insert_lookup, lemma_api_insert_lookup,
};
use crate::classify::{is_static_response, spec_is_static_response, spec_is_success, spec_static_path};
use crate::bytesutil::seq_ends_with;
use vstd::string::StringExecFns;

verus! {

/// HTTP protocol version of a request.
#[derive(Clone, Copy, PartialEq, Eq, Structural, Debug)]
pub enum HttpVersion {
    Http09,
    Http10,
    Http11,
    H2,
    H3,
}

/// Mathematical image of one inbound request.
pub ghost struct RequestInfoView {
    pub method: Seq<char>,
    pub uri: Seq<char>,
    pub path: Seq<char>,
    pub authority: Seq<char>,
    pub headers: Seq<(Seq<char>, Seq<char>)>,
    pub body: Seq<u8>,
    pub version: HttpVersion,
}

/// One inbound request, already buffered: method, full URI, the URI's path
/// component, the URI's authority component, headers and the body bytes.
pub struct RequestInfo {
    pub method: String,
    pub uri: String,
    pub path: String,
    pub authority: String,
    pub headers: Vec<(String, String)>,
    pub body: Vec<u8>,
    pub version: HttpVersion,
}

impl View for RequestInfo {
    type V = RequestInfoView;

    open spec fn view(&self) -> RequestInfoView {
        RequestInfoView {
            method: self.method@,
            uri: self.uri@,
            path: self.path@,
            authority: self.authority@,
            headers: headers_view(self.headers@),
            body: self.body@,
            version: self.version,
        }
    }
}

/// What the dispatcher decides for one request: answer from a cache, or
/// forward the rewritten request upstream.
pub enum DispatchStep {
    Respond(CacheEntry),
    Forward(RequestInfo),
}

/// A header list with every `host` entry removed.
pub open spec fn spec_remove_host(hs: Seq<(Seq<char>, Seq<char>)>) -> Seq<(Seq<char>, Seq<char>)>
    decreases hs.len(),
{
    if hs.len() == 0 {
        Seq::empty()
    } else if hs[0].0 == "host"@ {
        spec_remove_host(hs.drop_first())
    } else {
        seq![hs[0]] + spec_remove_host(hs.drop_first())
    }
}

/// The header rewrite of the forwarded request: every previous `host` value
/// is replaced by one `host` entry carrying the request authority.
pub open spec fn spec_set_host(
    hs: Seq<(Seq<char>, Seq<char>)>,
    authority: Seq<char>,
) -> Seq<(Seq<char>, Seq<char>)> {
    spec_remove_host(hs).push(("host"@, authority))
}

/// `spec_remove_host` distributes over appending one header.
proof fn lemma_remove_host_push(hs: Seq<(Seq<char>, Seq<char>)>, x: (Seq<char>, Seq<char>))
    ensures
        spec_remove_host(hs.push(x)) == if x.0 == "host"@ {
            spec_remove_host(hs)
        } else {
            spec_remove_host(hs).push(x)
        },
    decreases hs.len(),
{
    let t = hs.push(x);
    if hs.len() == 0 {
        assert(t[0] == x);
        assert(t.drop_first() =~= hs);
        if x.0 == "host"@ {
            assert(spec_remove_host(t) == spec_remove_host(hs));
        } else {
            assert(spec_remove_host(t) == seq![x] + spec_remove_host(t.drop_first()));
            assert(seq![x] + spec_remove_host(hs) =~= spec_remove_host(hs).push(x));
        }
    } else {
        assert(t[0] == hs[0]);
        assert(t.drop_first() =~= hs.drop_first().push(x));
        lemma_remove_host_push(hs.drop_first(), x);
        if hs[0].0 == "host"@ {
            assert(spec_remove_host(t) == spec_remove_host(t.drop_first()));
            assert(spec_remove_host(hs) == spec_remove_host(hs.drop_first()));
        } else {
            assert(spec_remove_host(t) == seq![hs[0]] + spec_remove_host(t.drop_first()));
            assert(spec_remove_host(hs) == seq![hs[0]] + spec_remove_host(hs.drop_first()));
            if x.0 != "host"@ {
                assert(seq![hs[0]] + spec_remove_host(hs.drop_first()).push(x) =~= (seq![hs[0]]
                    + spec_remove_host(hs.drop_first())).push(x));
            }
        }
    }
}

/// Build the forwarded header list: drop `host`, then add the authority.
pub fn set_host(headers: &Vec<(String, String)>, authority: &String) -> (r: Vec<(String, String)>)
    ensures
        headers_view(r@) == spec_set_host(headers_view(headers@), authority@),
{
    let ghost hs = headers_view(headers@);
    let mut out: Vec<(String, String)> = Vec::new();
    let mut i: usize = 0;
    proof {
        assert(hs.take(0) =~= Seq::<(Seq<char>, Seq<char>)>::empty());
        assert(headers_view(out@) =~= spec_remove_host(hs.take(0)));
    }
    while i < headers.len()
        invariant
            i <= headers@.len(),
            hs == headers_view(headers@),
            headers_view(out@) == spec_remove_host(hs.take(i as int)),
        decreases headers@.len() - i,
    {
        proof {
            assert(hs.take(i as int + 1) =~= hs.take(i as int).push(hs[i as int]));
            lemma_remove_host_push(hs.take(i as int), hs[i as int]);
        }
        if !str_eq(headers[i].0.as_str(), "host") {
            let name = headers[i].0.clone();
            let value = headers[i].1.clone();
            out.push((name, value));
            proof {
                assert(headers_view(out@) =~= spec_remove_host(hs.take(i as int)).push(hs[i as int]));
            }
        }
        i += 1;
    }
    proof {
        assert(hs.take(i as int) =~= hs);
    }
    let host_value = authority.clone();
    out.push((String::from_str("host"), host_value));
    proof {
        assert(headers_view(out@) =~= spec_set_host(hs, authority@));
    }
    out
}

/// Mathematical image of the whole proxy state.
pub ghost struct ProxyView {
    pub statics: Seq<(Seq<char>, CacheEntryView)>,
    pub captured: Seq<((Seq<char>, u16, Seq<u8>), Seq<u8>)>,
    pub api: Seq<((Seq<char>, Seq<u8>), CacheEntryView)>,
    pub accepting: bool,
}

/// The shared proxy state: the three cache tiers and the serving flag that a
/// successful cache clear turns off.
pub struct ProxyState {
    pub statics: StaticCache,
    pub captured: CapturedMap,
    pub api: ApiCache,
    accepting: bool,
}

impl View for ProxyState {
    type V = ProxyView;

    closed spec fn view(&self) -> ProxyView {
        ProxyView {
            statics: self.statics@,
            captured: self.captured@,
            api: self.api@,
            accepting: self.accepting,
        }
    }
}

/// What the cache-first lookup serves for a request: `Some` entry from the
/// Static Cache (checked first) or the API Cache, `None` when the request
/// must be forwarded upstream.
pub open spec fn spec_begin(s: ProxyView, q: RequestInfoView) -> Option<CacheEntryView> {
    if static_lookup(s.statics, q.uri) is Some {
        static_lookup(s.statics, q.uri)
    } else {
        api_lookup(s.api, (q.uri, q.body))
    }
}

/// The cache mutation performed after a forwarded response came back:
/// static responses go to the Static Cache; dynamic GET responses run the
/// capture/promote protocol; dynamic non-GET responses change nothing.
pub open spec fn spec_finish(s: ProxyView, q: RequestInfoView, resp: CacheEntryView) -> ProxyView {
    if spec_is_static_response(resp.status, q.path, resp.headers) {
        ProxyView { statics: static_insert(s.statics, q.uri, resp), ..s }
    } else if q.method != "GET"@ {
        s
    } else {
        let k = (q.uri, resp.status, q.body);
        match captured_lookup(s.captured, k) {
            Some(prev) => if prev == resp.body {
                ProxyView { api: api_insert(s.api, (q.uri, q.body), resp), ..s }
            } else {
                s
            },
            None => ProxyView { captured: captured_insert(s.captured, k, resp.body), ..s },
        }
    }
}

/// The state after a clear command: every tier empty, serving stopped.
pub open spec fn spec_clear(s: ProxyView) -> ProxyView {
    ProxyView {
        statics: Seq::empty(),
        captured: Seq::empty(),
        api: Seq::empty(),
        accepting: false,
    }
}

/// The count a clear command reports: the combined size of the Static and
/// API caches immediately before clearing.  The Captured Map is excluded.
pub open spec fn spec_clear_count(s: ProxyView) -> nat {
    s.statics.len() + s.api.len()
}

impl ProxyState {
    /// Fresh state: all three maps empty, serving enabled.
    pub fn new() -> (r: Self)
        ensures
            r@.statics == Seq::<(Seq<char>, CacheEntryView)>::empty(),
            r@.captured == Seq::<((Seq<char>, u16, Seq<u8>), Seq<u8>)>::empty(),
            r@.api == Seq::<((Seq<char>, Seq<u8>), CacheEntryView)>::empty(),
            r@.accepting == true,
    {
        ProxyState {
            statics: StaticCache::new(),
            captured: CapturedMap::new(),
            api: ApiCache::new(),
            accepting: true,
        }
    }

    /// Whether the proxy still accepts new connections.
    pub fn should_accept(&self) -> (r: bool)
        ensures
            r == self@.accepting,
    {
        self.accepting
    }

    /// Cache-first dispatch: serve from the Static Cache, else from the API
    /// Cache, else hand back the rewritten request to forward upstream
    /// (HTTP/1.1, `Host` set to the request authority, method, headers and
    /// body preserved).
    pub fn begin_request(&self, req: &RequestInfo) -> (r: DispatchStep)
        ensures
            spec_begin(self@, req@) matches Some(e) ==> (r matches DispatchStep::Respond(out)
                && out@ == e),
            spec_begin(self@, req@) is None ==> (r matches DispatchStep::Forward(fw)
                && fw@.method == req@.method
                && fw@.uri == req@.uri
                && fw@.path == req@.path
                && fw@.authority == req@.authority
                && fw@.body == req@.body
                && fw@.version == HttpVersion::Http11
                && fw@.headers == spec_set_host(req@.headers, req@.authority)),
    {
        if let Some(entry) = self.statics.get(&req.uri) {
            return DispatchStep::Respond(entry.clone());
        }
        if let Some(entry) = self.api.get(&req.uri, req.body.as_slice()) {
            return DispatchStep::Respond(entry.clone());
        }
        let fw = RequestInfo {
            method: req.method.clone(),
            uri: req.uri.clone(),
            path: req.path.clone(),
            authority: req.authority.clone(),
            headers: set_host(&req.headers, &req.authority),
            body: vstd::slice::slice_to_vec(req.body.as_slice()),
            version: HttpVersion::Http11,
        };
        DispatchStep::Forward(fw)
    }

    /// Record a forwarded response: classify it and perform exactly one of
    /// {Static Cache insert, Captured Map insert, API Cache insert, no
    /// mutation}.  The response itself is returned to the caller unchanged
    /// by the surrounding application.
    pub fn finish_request(&mut self, req: &RequestInfo, resp: &CacheEntry)
        ensures
            final(self)@ == spec_finish(old(self)@, req@, resp@),
    {
        if is_static_response(resp.status, req.path.as_str(), &resp.headers) {
            let uri = req.uri.clone();
            self.statics.insert(uri, resp.clone());
            return;
        }
        if !str_eq(req.method.as_str(), "GET") {
            return;
        }
        let prev_is_match: Option<bool> = match self.captured.get(
            &req.uri,
            resp.status,
            req.body.as_slice(),
        ) {
            Some(prev) => Some(bytes_eq(prev.as_slice(), resp.body.as_slice())),
            None => None,
        };
        match prev_is_match {
            Some(true) => {
                let uri = req.uri.clone();
                let body = vstd::slice::slice_to_vec(req.body.as_slice());
                self.api.insert(uri, body, resp.clone());
            }
            Some(false) => {}
            None => {
                let uri = req.uri.clone();
                let body = vstd::slice::slice_to_vec(req.body.as_slice());
                let observed = vstd::slice::slice_to_vec(resp.body.as_slice());
                self.captured.insert(uri, resp.status, body, observed);
            }
        }
    }

    /// The cache controller's clear command: empty the Static Cache, the
    /// API Cache and the Captured Map, report the combined size of the
    /// Static and API caches before clearing, and stop serving.
    pub fn clear_caches(&mut self) -> (count: usize)
        requires
            old(self)@.statics.len() + old(self)@.api.len() <= usize::MAX,
        ensures
            count == spec_clear_count(old(self)@),
            final(self)@ == spec_clear(old(self)@),
    {
        let a = self.statics.len();
        self.statics.clear();
        let b = self.api.len();
        self.api.clear();
        self.captured.clear();
        self.accepting = false;
        a + b
    }
}

/// Static idempotence: a URI whose response sits in the Static Cache is
/// served from the cache (no forward), and handling any request for a
/// different URI leaves that binding untouched, so a repeated request is
/// served the byte-identical entry again.
pub proof fn lemma_static_idempotence(
    s: ProxyView,
    q: RequestInfoView,
    e: CacheEntryView,
    q2: RequestInfoView,
    resp2: CacheEntryView,
)
    requires
        static_lookup(s.statics, q.uri) == Some(e),
        q2.uri != q.uri,
    ensures
        spec_begin(s, q) == Some(e),
        static_lookup(spec_finish(s, q2, resp2).statics, q.uri) == Some(e),
        spec_begin(spec_finish(s, q2, resp2), q) == Some(e),
{
    let s1 = spec_finish(s, q2, resp2);
    if spec_is_static_response(resp2.status, q2.path, resp2.headers) {
        lemma_static_insert_lookup(s.statics, q2.uri, resp2, q.uri);
    }
    assert(static_lookup(s1.statics, q.uri) == Some(e));
}

/// Classification correctness, static half: a success response to a request
/// whose path ends in `.js` is always inserted into the Static Cache.
pub proof fn lemma_static_classification(s: ProxyView, q: RequestInfoView, resp: CacheEntryView)
    requires
        resp.status == 200,
        seq_ends_with(q.path, ".js"@),
    ensures
        static_lookup(spec_finish(s, q, resp).statics, q.uri) == Some(resp),
{
    assert(spec_is_success(resp.status));
    assert(spec_static_path(q.path));
    lemma_static_insert_lookup(s.statics, q.uri, resp, q.uri);
}

/// Classification correctness, dynamic half: a 404 response is never
/// inserted into the Static Cache or the API Cache; as a first observation
/// it can at most be recorded in the transient Captured Map.
pub proof fn lemma_dynamic_not_cached(s: ProxyView, q: RequestInfoView, resp: CacheEntryView)
    requires
        resp.status == 404,
        captured_lookup(s.captured, (q.uri, resp.status, q.body)) is None,
    ensures
        spec_finish(s, q, resp).statics == s.statics,
        spec_finish(s, q, resp).api == s.api,
{
    assert(!spec_is_success(resp.status));
}

/// Promotion requires two matching observations: after two dynamic GET
/// responses for the same fingerprint with bodies `B1` then `B2`, the API
/// Cache holds the second response exactly when `B1 == B2`; when the bodies
/// differ the fingerprint stays absent.
pub proof fn lemma_promotion(
    s0: ProxyView,
    q: RequestInfoView,
    resp1: CacheEntryView,
    resp2: CacheEntryView,
)
    requires
        q.method == "GET"@,
        resp1.status == resp2.status,
        !spec_is_static_response(resp1.status, q.path, resp1.headers),
        !spec_is_static_response(resp2.status, q.path, resp2.headers),
        captured_lookup(s0.captured, (q.uri, resp1.status, q.body)) is None,
        api_lookup(s0.api, (q.uri, q.body)) is None,
    ensures
        resp1.body == resp2.body ==> api_lookup(
            spec_finish(spec_finish(s0, q, resp1), q, resp2).api,
            (q.uri, q.body),
        ) == Some(resp2),
        resp1.body != resp2.body ==> api_lookup(
            spec_finish(spec_finish(s0, q, resp1), q, resp2).api,
            (q.uri, q.body),
        ) is None,
{
    let k = (q.uri, resp1.status, q.body);
    let s1 = spec_finish(s0, q, resp1);
    assert(s1.captured == captured_insert(s0.captured, k, resp1.body));
    assert(s1.api == s0.api);
    lemma_captured_insert_lookup(s0.captured, k, resp1.body, k);
    assert(captured_lookup(s1.captured, k) == Some(resp1.body));
    let s2 = spec_finish(s1, q, resp2);
    if resp1.body == resp2.body {
        assert(s2.api == api_insert(s1.api, (q.uri, q.body), resp2));
        lemma_api_insert_lookup(s1.api, (q.uri, q.body), resp2, (q.uri, q.body));
    } else {
        assert(s2 == s1);
    }
}

/// Non-GET exclusion: a dynamic response to a non-GET request (a POST, for
/// instance) changes no cache tier at all, however often it is repeated.
pub proof fn lemma_non_get_exclusion(s: ProxyView, q: RequestInfoView, resp: CacheEntryView)
    requires
        q.method != "GET"@,
        !spec_is_static_response(resp.status, q.path, resp.headers),
    ensures
        spec_finish(s, q, resp) == s,
{
}

/// Clear triggers shutdown and resets every tier: after a clear command the
/// proxy no longer accepts connections, all three maps are empty, no URI is
/// served statically any more, and the reported count is the combined size
/// of the Static and API caches before the clear.
pub proof fn lemma_clear_shutdown(s: ProxyView, u: Seq<char>)
    ensures
        spec_clear(s).accepting == false,
        spec_clear(s).statics.len() == 0,
        spec_clear(s).captured.len() == 0,
        spec_clear(s).api.len() == 0,
        static_lookup(spec_clear(s).statics, u) is None,
        spec_clear_count(s) == s.statics.len() + s.api.len(),
{
}

/// Per dynamic request, exactly one of {Static Cache insert, Captured Map
/// insert, API Cache insert, no cache mutation} occurs, and the serving
/// flag never changes on the request path.
pub proof fn lemma_finish_one_mutation(s: ProxyView, q: RequestInfoView, resp: CacheEntryView)
    ensures
        ({
            let t = spec_finish(s, q, resp);
            &&& (t.statics != s.statics ==> t.captured == s.captured && t.api == s.api)
            &&& (t.captured != s.captured ==> t.statics == s.statics && t.api == s.api)
            &&& (t.api != s.api ==> t.statics == s.statics && t.captured == s.captured)
            &&& t.accepting == s.accepting
        }),
{
}

/// Cache checks happen strictly in the order Static Cache, then API Cache:
/// a URI held in the Static Cache is served from it even when the API
/// Cache holds the same fingerprint.
pub proof fn lemma_static_checked_first(s: ProxyView, q: RequestInfoView, e: CacheEntryView)
    requires
        static_lookup(s.statics, q.uri) == Some(e),
    ensures
        spec_begin(s, q) == Some(e),
{
}

} // verus!
