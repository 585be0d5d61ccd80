//! The cache store: three independently owned mapping structures shared by
//! the request dispatcher and the cache controller.
//!
//! * Static Cache: request URI -> cached response, for static assets.
//! * Captured Map: (URI, response status, request body) -> previously
//!   observed response body, the "seen once, not yet verified" holding area.
//! * API Cache: (URI, request body) -> cached response, for responses that
//!   were observed twice with byte-identical bodies.
//!
//! Each map is modelled as an association sequence whose keys stay unique:
//! `insert` overwrites the binding in place, so the number of entries is the
//! number of distinct keys.

use vstd::prelude::*;
use crate::bytesutil::bytes_eq;

verus! {

/// Mathematical image of an ordered header list.
pub open spec fn headers_view(h: Seq<(String, String)>) -> Seq<(Seq<char>, Seq<char>)> {
    Seq::new(h.len(), |i: int| (h[i].0@, h[i].1@))
}

/// Mathematical image of one cached response.
pub ghost struct CacheEntryView {
    pub status: u16,
    pub headers: Seq<(Seq<char>, Seq<char>)>,
    pub body: Seq<u8>,
}

/// A complete cacheable response: status code, ordered response headers and
/// the full body bytes.
pub struct CacheEntry {
    pub status: u16,
    pub headers: Vec<(String, String)>,
    pub body: Vec<u8>,
}

impl View for CacheEntry {
    type V = CacheEntryView;

    open spec fn view(&self) -> CacheEntryView {
        CacheEntryView {
            status: self.status,
            headers: headers_view(self.headers@),
            body: self.body@,
        }
    }
}

/// Element-for-element copy of a header list.
pub fn copy_headers(h: &Vec<(String, String)>) -> (r: Vec<(String, String)>)
    ensures
        headers_view(r@) == headers_view(h@),
{
    let mut r: Vec<(String, String)> = Vec::new();
    let mut i: usize = 0;
    while i < h.len()
        invariant
            i <= h@.len(),
            r@.len() == i,
            forall|j: int| 0 <= j < i ==> r@[j].0@ == h@[j].0@ && r@[j].1@ == h@[j].1@,
        decreases h@.len() - i,
    {
        let name = h[i].0.clone();
        let value = h[i].1.clone();
        r.push((name, value));
        i += 1;
    }
    proof {
        assert(headers_view(r@) =~= headers_view(h@));
    }
    r
}

impl Clone for CacheEntry {
    fn clone(&self) -> (res: Self)
        ensures
            res@ == self@,
    {
        CacheEntry {
            status: self.status,
            headers: copy_headers(&self.headers),
            body: vstd::slice::slice_to_vec(self.body.as_slice()),
        }
    }
}

/// Lookup in an association sequence keyed by URI; first binding wins.
pub open spec fn static_lookup(
    s: Seq<(Seq<char>, CacheEntryView)>,
    uri: Seq<char>,
) -> Option<CacheEntryView>
    decreases s.len(),
{
    if s.len() == 0 {
        None
    } else if s[0].0 == uri {
        Some(s[0].1)
    } else {
        static_lookup(s.drop_first(), uri)
    }
}

/// Overwriting insert into an association sequence keyed by URI.
pub open spec fn static_insert(
    s: Seq<(Seq<char>, CacheEntryView)>,
    uri: Seq<char>,
    e: CacheEntryView,
) -> Seq<(Seq<char>, CacheEntryView)>
    decreases s.len(),
{
    if s.len() == 0 {
        seq![(uri, e)]
    } else if s[0].0 == uri {
        seq![(uri, e)] + s.drop_first()
    } else {
        seq![s[0]] + static_insert(s.drop_first(), uri, e)
    }
}

/// After an insert, the inserted key maps to the new entry and every other
/// key keeps its old binding.
pub proof fn lemma_static_insert_lookup(
    s: Seq<(Seq<char>, CacheEntryView)>,
    uri: Seq<char>,
    e: CacheEntryView,
    q: Seq<char>,
)
    ensures
        static_lookup(static_insert(s, uri, e), q) == if q == uri {
            Some(e)
        } else {
            static_lookup(s, q)
        },
    decreases s.len(),
{
    if s.len() == 0 {
        let t = static_insert(s, uri, e);
        assert(t[0] == (uri, e));
        assert(t.drop_first() =~= Seq::<(Seq<char>, CacheEntryView)>::empty());
        if q == uri {
            assert(static_lookup(t, q) == Some(e));
        } else {
            assert(static_lookup(t, q) == static_lookup(t.drop_first(), q));
        }
    } else if s[0].0 == uri {
        let t = static_insert(s, uri, e);
        assert(t[0] == (uri, e));
        assert(t.drop_first() =~= s.drop_first());
        if q == uri {
            assert(static_lookup(t, q) == Some(e));
        } else {
            assert(static_lookup(t, q) == static_lookup(s.drop_first(), q));
            assert(static_lookup(s, q) == static_lookup(s.drop_first(), q));
        }
    } else {
        let t = static_insert(s, uri, e);
        assert(t[0] == s[0]);
        assert(t.drop_first() =~= static_insert(s.drop_first(), uri, e));
        lemma_static_insert_lookup(s.drop_first(), uri, e, q);
        if q == uri {
            assert(t[0].0 != q);
            assert(static_lookup(t, q) == static_lookup(t.drop_first(), q));
        } else if s[0].0 == q {
            assert(static_lookup(t, q) == Some(t[0].1));
        } else {
            assert(static_lookup(t, q) == static_lookup(t.drop_first(), q));
            assert(static_lookup(s, q) == static_lookup(s.drop_first(), q));
        }
    }
}

/// Inserting an already-bound key keeps the entry count; a new key grows it
/// by one.
pub proof fn lemma_static_insert_len(
    s: Seq<(Seq<char>, CacheEntryView)>,
    uri: Seq<char>,
    e: CacheEntryView,
)
    ensures
        static_insert(s, uri, e).len() == if static_lookup(s, uri) is Some {
            s.len()
        } else {
            s.len() + 1
        },
    decreases s.len(),
{
    if s.len() == 0 {
    } else if s[0].0 == uri {
    } else {
        lemma_static_insert_len(s.drop_first(), uri, e);
    }
}

/// URL-keyed cache of static-asset responses.
pub struct StaticCache {
    entries: Vec<(String, CacheEntry)>,
}

impl View for StaticCache {
    type V = Seq<(Seq<char>, CacheEntryView)>;

    closed spec fn view(&self) -> Seq<(Seq<char>, CacheEntryView)> {
        Seq::new(self.entries@.len(), |i: int| (self.entries@[i].0@, self.entries@[i].1@))
    }
}

impl StaticCache {
    /// The cache starts empty.
    pub fn new() -> (r: Self)
        ensures
            r@ == Seq::<(Seq<char>, CacheEntryView)>::empty(),
    {
        let r = StaticCache { entries: Vec::new() };
        proof {
            assert(r@ =~= Seq::<(Seq<char>, CacheEntryView)>::empty());
        }
        r
    }

    /// Number of cached URIs.
    pub fn len(&self) -> (r: usize)
        ensures
            r == self@.len(),
    {
        self.entries.len()
    }

    /// Look the full request URI up; `None` when it was never cached.
    pub fn get(&self, uri: &String) -> (r: Option<&CacheEntry>)
        ensures
            r is Some <==> static_lookup(self@, uri@) is Some,
            r matches Some(e) ==> static_lookup(self@, uri@) == Some(e@),
    {
        let mut i: usize = 0;
        proof {
            assert(self@.skip(0) =~= self@);
        }
        while i < self.entries.len()
            invariant
                i <= self.entries@.len(),
                static_lookup(self@, uri@) == static_lookup(self@.skip(i as int), uri@),
            decreases self.entries@.len() - i,
        {
            proof {
                assert(self@.skip(i as int)[0] == self@[i as int]);
                assert(self@.skip(i as int).drop_first() =~= self@.skip(i as int + 1));
            }
            if self.entries[i].0.eq(uri) {
                return Some(&self.entries[i].1);
            }
            i += 1;
        }
        proof {
            assert(self@.skip(i as int) =~= Seq::<(Seq<char>, CacheEntryView)>::empty());
        }
        None
    }

    /// Insert with overwrite semantics: a later write for the same URI
    /// replaces the entry.
    pub fn insert(&mut self, uri: String, entry: CacheEntry)
        ensures
            final(self)@ == static_insert(old(self)@, uri@, entry@),
    {
        let ghost orig = old(self)@;
        let mut i: usize = 0;
        while i < self.entries.len()
            invariant
                i <= self.entries@.len(),
                orig == old(self)@,
                self@ == orig,
                forall|j: int| 0 <= j < i ==> orig[j].0 != uri@,
            decreases self.entries@.len() - i,
        {
            if self.entries[i].0.eq(&uri) {
                proof {
                    assert(orig[i as int].0 == uri@);
                }
                self.entries.set(i, (uri, entry));
                proof {
                    lemma_static_prefix_insert(orig, uri@, entry@, i as int);
                    assert(self@ =~= orig.update(i as int, (uri@, entry@)));
                }
                return;
            }
            i += 1;
        }
        self.entries.push((uri, entry));
        proof {
            lemma_static_absent_insert(orig, uri@, entry@);
            assert(self@ =~= orig + seq![(uri@, entry@)]);
        }
    }

    /// Drop every entry.
    pub fn clear(&mut self)
        ensures
            final(self)@ == Seq::<(Seq<char>, CacheEntryView)>::empty(),
    {
        self.entries.clear();
        proof {
            assert(self@ =~= Seq::<(Seq<char>, CacheEntryView)>::empty());
        }
    }
}

/// When the first match for a key sits at position `i`, the overwriting
/// insert is an in-place update.
proof fn lemma_static_prefix_insert(
    s: Seq<(Seq<char>, CacheEntryView)>,
    uri: Seq<char>,
    e: CacheEntryView,
    i: int,
)
    requires
        0 <= i < s.len(),
        s[i].0 == uri,
        forall|j: int| 0 <= j < i ==> s[j].0 != uri,
    ensures
        static_insert(s, uri, e) == s.update(i, (uri, e)),
    decreases i,
{
    if i == 0 {
        assert(static_insert(s, uri, e) =~= s.update(0, (uri, e)));
    } else {
        lemma_static_prefix_insert(s.drop_first(), uri, e, i - 1);
        assert(static_insert(s, uri, e) =~= s.update(i, (uri, e)));
    }
}

/// Inserting a key that is absent appends the binding.
proof fn lemma_static_absent_insert(
    s: Seq<(Seq<char>, CacheEntryView)>,
    uri: Seq<char>,
    e: CacheEntryView,
)
    requires
        forall|j: int| 0 <= j < s.len() ==> s[j].0 != uri,
    ensures
        static_insert(s, uri, e) == s + seq![(uri, e)],
    decreases s.len(),
{
    if s.len() == 0 {
        assert(static_insert(s, uri, e) =~= s + seq![(uri, e)]);
    } else {
        lemma_static_absent_insert(s.drop_first(), uri, e);
        assert(static_insert(s, uri, e) =~= s + seq![(uri, e)]);
    }
}

/// Key of the Captured Map: request URI, response status, request body.
pub type CapturedKeyView = (Seq<char>, u16, Seq<u8>);

/// Lookup in the captured association sequence; first binding wins.
pub open spec fn captured_lookup(
    s: Seq<(CapturedKeyView, Seq<u8>)>,
    k: CapturedKeyView,
) -> Option<Seq<u8>>
    decreases s.len(),
{
    if s.len() == 0 {
        None
    } else if s[0].0 == k {
        Some(s[0].1)
    } else {
        captured_lookup(s.drop_first(), k)
    }
}

/// Overwriting insert into the captured association sequence.
pub open spec fn captured_insert(
    s: Seq<(CapturedKeyView, Seq<u8>)>,
    k: CapturedKeyView,
    body: Seq<u8>,
) -> Seq<(CapturedKeyView, Seq<u8>)>
    decreases s.len(),
{
    if s.len() == 0 {
        seq![(k, body)]
    } else if s[0].0 == k {
        seq![(k, body)] + s.drop_first()
    } else {
        seq![s[0]] + captured_insert(s.drop_first(), k, body)
    }
}

/// After an insert, the inserted key maps to the new body and every other
/// key keeps its old binding.
pub proof fn lemma_captured_insert_lookup(
    s: Seq<(CapturedKeyView, Seq<u8>)>,
    k: CapturedKeyView,
    body: Seq<u8>,
    q: CapturedKeyView,
)
    ensures
        captured_lookup(captured_insert(s, k, body), q) == if q == k {
            Some(body)
        } else {
            captured_lookup(s, q)
        },
    decreases s.len(),
{
    if s.len() == 0 {
        let t = captured_insert(s, k, body);
        assert(t[0] == (k, body));
        assert(t.drop_first() =~= Seq::<(CapturedKeyView, Seq<u8>)>::empty());
        if q == k {
            assert(captured_lookup(t, q) == Some(body));
        } else {
            assert(captured_lookup(t, q) == captured_lookup(t.drop_first(), q));
        }
    } else if s[0].0 == k {
        let t = captured_insert(s, k, body);
        assert(t[0] == (k, body));
        assert(t.drop_first() =~= s.drop_first());
        if q == k {
            assert(captured_lookup(t, q) == Some(body));
        } else {
            assert(captured_lookup(t, q) == captured_lookup(s.drop_first(), q));
            assert(captured_lookup(s, q) == captured_lookup(s.drop_first(), q));
        }
    } else {
        let t = captured_insert(s, k, body);
        assert(t[0] == s[0]);
        assert(t.drop_first() =~= captured_insert(s.drop_first(), k, body));
        lemma_captured_insert_lookup(s.drop_first(), k, body, q);
        if q == k {
            assert(t[0].0 != q);
            assert(captured_lookup(t, q) == captured_lookup(t.drop_first(), q));
        } else if s[0].0 == q {
            assert(captured_lookup(t, q) == Some(t[0].1));
        } else {
            assert(captured_lookup(t, q) == captured_lookup(t.drop_first(), q));
            assert(captured_lookup(s, q) == captured_lookup(s.drop_first(), q));
        }
    }
}

/// Transient holding area: one previously observed response body per
/// (URI, status, request body) key.
pub struct CapturedMap {
    entries: Vec<((String, u16, Vec<u8>), Vec<u8>)>,
}

impl View for CapturedMap {
    type V = Seq<(CapturedKeyView, Seq<u8>)>;

    closed spec fn view(&self) -> Seq<(CapturedKeyView, Seq<u8>)> {
        Seq::new(
            self.entries@.len(),
            |i: int| (
                (self.entries@[i].0.0@, self.entries@[i].0.1, self.entries@[i].0.2@),
                self.entries@[i].1@,
            ),
        )
    }
}

impl CapturedMap {
    /// The map starts empty.
    pub fn new() -> (r: Self)
        ensures
            r@ == Seq::<(CapturedKeyView, Seq<u8>)>::empty(),
    {
        let r = CapturedMap { entries: Vec::new() };
        proof {
            assert(r@ =~= Seq::<(CapturedKeyView, Seq<u8>)>::empty());
        }
        r
    }

    /// Number of captured observations.
    pub fn len(&self) -> (r: usize)
        ensures
            r == self@.len(),
    {
        self.entries.len()
    }

    /// Look a (URI, status, request body) key up.
    pub fn get(&self, uri: &String, status: u16, body: &[u8]) -> (r: Option<&Vec<u8>>)
        ensures
            r is Some <==> captured_lookup(self@, (uri@, status, body@)) is Some,
            r matches Some(b) ==> captured_lookup(self@, (uri@, status, body@)) == Some(b@),
    {
        let ghost k = (uri@, status, body@);
        let mut i: usize = 0;
        proof {
            assert(self@.skip(0) =~= self@);
        }
        while i < self.entries.len()
            invariant
                i <= self.entries@.len(),
                k == (uri@, status, body@),
                captured_lookup(self@, k) == captured_lookup(self@.skip(i as int), k),
            decreases self.entries@.len() - i,
        {
            proof {
                assert(self@.skip(i as int)[0] == self@[i as int]);
                assert(self@.skip(i as int).drop_first() =~= self@.skip(i as int + 1));
            }
            let hit = self.entries[i].0.0.eq(uri) && self.entries[i].0.1 == status
                && bytes_eq(self.entries[i].0.2.as_slice(), body);
            if hit {
                return Some(&self.entries[i].1);
            }
            i += 1;
        }
        proof {
            assert(self@.skip(i as int) =~= Seq::<(CapturedKeyView, Seq<u8>)>::empty());
        }
        None
    }

    /// Insert with overwrite semantics.
    pub fn insert(&mut self, uri: String, status: u16, body: Vec<u8>, observed: Vec<u8>)
        ensures
            final(self)@ == captured_insert(old(self)@, (uri@, status, body@), observed@),
    {
        let ghost orig = old(self)@;
        let ghost k = (uri@, status, body@);
        let mut i: usize = 0;
        while i < self.entries.len()
            invariant
                i <= self.entries@.len(),
                orig == old(self)@,
                self@ == orig,
                k == (uri@, status, body@),
                forall|j: int| 0 <= j < i ==> orig[j].0 != k,
            decreases self.entries@.len() - i,
        {
            let hit = self.entries[i].0.0.eq(&uri) && self.entries[i].0.1 == status
                && bytes_eq(self.entries[i].0.2.as_slice(), body.as_slice());
            if hit {
                proof {
                    assert(orig[i as int].0 == k);
                }
                self.entries.set(i, ((uri, status, body), observed));
                proof {
                    lemma_captured_prefix_insert(orig, k, observed@, i as int);
                    assert(self@ =~= orig.update(i as int, (k, observed@)));
                }
                return;
            }
            i += 1;
        }
        self.entries.push(((uri, status, body), observed));
        proof {
            lemma_captured_absent_insert(orig, k, observed@);
            assert(self@ =~= orig + seq![(k, observed@)]);
        }
    }

    /// Drop every entry.
    pub fn clear(&mut self)
        ensures
            final(self)@ == Seq::<(CapturedKeyView, Seq<u8>)>::empty(),
    {
        self.entries.clear();
        proof {
            assert(self@ =~= Seq::<(CapturedKeyView, Seq<u8>)>::empty());
        }
    }
}

/// When the first match for a key sits at position `i`, the overwriting
/// insert is an in-place update.
proof fn lemma_captured_prefix_insert(
    s: Seq<(CapturedKeyView, Seq<u8>)>,
    k: CapturedKeyView,
    body: Seq<u8>,
    i: int,
)
    requires
        0 <= i < s.len(),
        s[i].0 == k,
        forall|j: int| 0 <= j < i ==> s[j].0 != k,
    ensures
        captured_insert(s, k, body) == s.update(i, (k, body)),
    decreases i,
{
    if i == 0 {
        assert(captured_insert(s, k, body) =~= s.update(0, (k, body)));
    } else {
        lemma_captured_prefix_insert(s.drop_first(), k, body, i - 1);
        assert(captured_insert(s, k, body) =~= s.update(i, (k, body)));
    }
}

/// Inserting a key that is absent appends the binding.
proof fn lemma_captured_absent_insert(
    s: Seq<(CapturedKeyView, Seq<u8>)>,
    k: CapturedKeyView,
    body: Seq<u8>,
)
    requires
        forall|j: int| 0 <= j < s.len() ==> s[j].0 != k,
    ensures
        captured_insert(s, k, body) == s + seq![(k, body)],
    decreases s.len(),
{
    if s.len() == 0 {
        assert(captured_insert(s, k, body) =~= s + seq![(k, body)]);
    } else {
        lemma_captured_absent_insert(s.drop_first(), k, body);
        assert(captured_insert(s, k, body) =~= s + seq![(k, body)]);
    }
}

/// Key of the API Cache, the request fingerprint: URI and request body.
pub type FingerprintView = (Seq<char>, Seq<u8>);

/// Lookup in the API association sequence; first binding wins.
pub open spec fn api_lookup(
    s: Seq<(FingerprintView, CacheEntryView)>,
    k: FingerprintView,
) -> Option<CacheEntryView>
    decreases s.len(),
{
    if s.len() == 0 {
        None
    } else if s[0].0 == k {
        Some(s[0].1)
    } else {
        api_lookup(s.drop_first(), k)
    }
}

/// Overwriting insert into the API association sequence.
pub open spec fn api_insert(
    s: Seq<(FingerprintView, CacheEntryView)>,
    k: FingerprintView,
    e: CacheEntryView,
) -> Seq<(FingerprintView, CacheEntryView)>
    decreases s.len(),
{
    if s.len() == 0 {
        seq![(k, e)]
    } else if s[0].0 == k {
        seq![(k, e)] + s.drop_first()
    } else {
        seq![s[0]] + api_insert(s.drop_first(), k, e)
    }
}

/// After an insert, the inserted fingerprint maps to the new entry and every
/// other fingerprint keeps its old binding.
pub proof fn lemma_api_insert_lookup(
    s: Seq<(FingerprintView, CacheEntryView)>,
    k: FingerprintView,
    e: CacheEntryView,
    q: FingerprintView,
)
    ensures
        api_lookup(api_insert(s, k, e), q) == if q == k {
            Some(e)
        } else {
            api_lookup(s, q)
        },
    decreases s.len(),
{
    if s.len() == 0 {
        let t = api_insert(s, k, e);
        assert(t[0] == (k, e));
        assert(t.drop_first() =~= Seq::<(FingerprintView, CacheEntryView)>::empty());
        if q == k {
            assert(t[0].0 == q);
            assert(api_lookup(t, q) == Some(e));
        } else {
            assert(api_lookup(t, q) == api_lookup(t.drop_first(), q));
        }
    } else if s[0].0 == k {
        let t = api_insert(s, k, e);
        assert(t[0] == (k, e));
        assert(t.drop_first() =~= s.drop_first());
        if q == k {
            assert(api_lookup(t, q) == Some(e));
        } else {
            assert(api_lookup(t, q) == api_lookup(s.drop_first(), q));
            assert(api_lookup(s, q) == api_lookup(s.drop_first(), q));
        }
    } else {
        let t = api_insert(s, k, e);
        assert(t[0] == s[0]);
        assert(t.drop_first() =~= api_insert(s.drop_first(), k, e));
        lemma_api_insert_lookup(s.drop_first(), k, e, q);
        if q == k {
            assert(t[0].0 != q);
            assert(api_lookup(t, q) == api_lookup(t.drop_first(), q));
        } else if s[0].0 == q {
            assert(api_lookup(t, q) == Some(t[0].1));
        } else {
            assert(api_lookup(t, q) == api_lookup(t.drop_first(), q));
            assert(api_lookup(s, q) == api_lookup(s.drop_first(), q));
        }
    }
}

/// Inserting an already-bound fingerprint keeps the entry count; a new one
/// grows it by one.
pub proof fn lemma_api_insert_len(
    s: Seq<(FingerprintView, CacheEntryView)>,
    k: FingerprintView,
    e: CacheEntryView,
)
    ensures
        api_insert(s, k, e).len() == if api_lookup(s, k) is Some {
            s.len()
        } else {
            s.len() + 1
        },
    decreases s.len(),
{
    if s.len() == 0 {
    } else if s[0].0 == k {
    } else {
        lemma_api_insert_len(s.drop_first(), k, e);
    }
}

/// Fingerprint-keyed cache of verified-deterministic API responses.
pub struct ApiCache {
    entries: Vec<((String, Vec<u8>), CacheEntry)>,
}

impl View for ApiCache {
    type V = Seq<(FingerprintView, CacheEntryView)>;

    closed spec fn view(&self) -> Seq<(FingerprintView, CacheEntryView)> {
        Seq::new(
            self.entries@.len(),
            |i: int| ((self.entries@[i].0.0@, self.entries@[i].0.1@), self.entries@[i].1@),
        )
    }
}

impl ApiCache {
    /// The cache starts empty.
    pub fn new() -> (r: Self)
        ensures
            r@ == Seq::<(FingerprintView, CacheEntryView)>::empty(),
    {
        let r = ApiCache { entries: Vec::new() };
        proof {
            assert(r@ =~= Seq::<(FingerprintView, CacheEntryView)>::empty());
        }
        r
    }

    /// Number of promoted fingerprints.
    pub fn len(&self) -> (r: usize)
        ensures
            r == self@.len(),
    {
        self.entries.len()
    }

    /// Look a fingerprint up.
    pub fn get(&self, uri: &String, body: &[u8]) -> (r: Option<&CacheEntry>)
        ensures
            r is Some <==> api_lookup(self@, (uri@, body@)) is Some,
            r matches Some(e) ==> api_lookup(self@, (uri@, body@)) == Some(e@),
    {
        let ghost k = (uri@, body@);
        let mut i: usize = 0;
        proof {
            assert(self@.skip(0) =~= self@);
        }
        while i < self.entries.len()
            invariant
                i <= self.entries@.len(),
                k == (uri@, body@),
                api_lookup(self@, k) == api_lookup(self@.skip(i as int), k),
            decreases self.entries@.len() - i,
        {
            proof {
                assert(self@.skip(i as int)[0] == self@[i as int]);
                assert(self@.skip(i as int).drop_first() =~= self@.skip(i as int + 1));
            }
            let hit = self.entries[i].0.0.eq(uri)
                && bytes_eq(self.entries[i].0.1.as_slice(), body);
            if hit {
                return Some(&self.entries[i].1);
            }
            i += 1;
        }
        proof {
            assert(self@.skip(i as int) =~= Seq::<(FingerprintView, CacheEntryView)>::empty());
        }
        None
    }

    /// Insert with overwrite semantics.
    pub fn insert(&mut self, uri: String, body: Vec<u8>, entry: CacheEntry)
        ensures
            final(self)@ == api_insert(old(self)@, (uri@, body@), entry@),
    {
        let ghost orig = old(self)@;
        let ghost k = (uri@, body@);
        let mut i: usize = 0;
        while i < self.entries.len()
            invariant
                i <= self.entries@.len(),
                orig == old(self)@,
                self@ == orig,
                k == (uri@, body@),
                forall|j: int| 0 <= j < i ==> orig[j].0 != k,
            decreases self.entries@.len() - i,
        {
            let hit = self.entries[i].0.0.eq(&uri)
                && bytes_eq(self.entries[i].0.1.as_slice(), body.as_slice());
            if hit {
                proof {
                    assert(orig[i as int].0 == k);
                }
                self.entries.set(i, ((uri, body), entry));
                proof {
                    lemma_api_prefix_insert(orig, k, entry@, i as int);
                    assert(self@ =~= orig.update(i as int, (k, entry@)));
                }
                return;
            }
            i += 1;
        }
        self.entries.push(((uri, body), entry));
        proof {
            lemma_api_absent_insert(orig, k, entry@);
            assert(self@ =~= orig + seq![(k, entry@)]);
        }
    }

    /// Drop every entry.
    pub fn clear(&mut self)
        ensures
            final(self)@ == Seq::<(FingerprintView, CacheEntryView)>::empty(),
    {
        self.entries.clear();
        proof {
            assert(self@ =~= Seq::<(FingerprintView, CacheEntryView)>::empty());
        }
    }
}

/// When the first match for a fingerprint sits at position `i`, the
/// overwriting insert is an in-place update.
proof fn lemma_api_prefix_insert(
    s: Seq<(FingerprintView, CacheEntryView)>,
    k: FingerprintView,
    e: CacheEntryView,
    i: int,
)
    requires
        0 <= i < s.len(),
        s[i].0 == k,
        forall|j: int| 0 <= j < i ==> s[j].0 != k,
    ensures
        api_insert(s, k, e) == s.update(i, (k, e)),
    decreases i,
{
    if i == 0 {
        assert(api_insert(s, k, e) =~= s.update(0, (k, e)));
    } else {
        lemma_api_prefix_insert(s.drop_first(), k, e, i - 1);
        assert(api_insert(s, k, e) =~= s.update(i, (k, e)));
    }
}

/// Inserting a fingerprint that is absent appends the binding.
proof fn lemma_api_absent_insert(
    s: Seq<(FingerprintView, CacheEntryView)>,
    k: FingerprintView,
    e: CacheEntryView,
)
    requires
        forall|j: int| 0 <= j < s.len() ==> s[j].0 != k,
    ensures
        api_insert(s, k, e) == s + seq![(k, e)],
    decreases s.len(),
{
    if s.len() == 0 {
        assert(api_insert(s, k, e) =~= s + seq![(k, e)]);
    } else {
        lemma_api_absent_insert(s.drop_first(), k, e);
        assert(api_insert(s, k, e) =~= s + seq![(k, e)]);
    }
}

} // verus!
