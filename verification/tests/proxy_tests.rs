use perfsee::cache::CacheEntry;
use perfsee::proxy::{DispatchStep, HttpVersion, ProxyState, RequestInfo};
use perfsee::startup::{alpn_protocols, listen_address, select_single_private_key, StartupError};

fn request(method: &str, uri: &str, path: &str, body: &[u8]) -> RequestInfo {
    RequestInfo {
        method: method.to_string(),
        uri: uri.to_string(),
        path: path.to_string(),
        authority: String::from("origin.example:443"),
        headers: vec![(String::from("accept"), String::from("*/*"))],
        body: body.to_vec(),
        version: HttpVersion::H2,
    }
}

fn entry(status: u16, content_type: &str, body: &[u8]) -> CacheEntry {
    CacheEntry {
        status,
        headers: vec![(String::from("content-type"), content_type.to_string())],
        body: body.to_vec(),
    }
}

#[test]
fn end_to_end_static_asset() {
    let mut state = ProxyState::new();
    let req = request("GET", "https://origin.example/app.js", "/app.js", b"");

    let first = state.begin_request(&req);
    let forwarded = match first {
        DispatchStep::Forward(fw) => fw,
        DispatchStep::Respond(_) => panic!("first request must go upstream"),
    };
    assert_eq!(forwarded.version, HttpVersion::Http11);
    assert_eq!(forwarded.method, "GET");
    assert_eq!(forwarded.uri, "https://origin.example/app.js");
    let host: Vec<&(String, String)> = forwarded
        .headers
        .iter()
        .filter(|h| h.0 == "host")
        .collect();
    assert_eq!(host.len(), 1);
    assert_eq!(host[0].1, "origin.example:443");

    let upstream = entry(200, "application/javascript", b"x");
    state.finish_request(&req, &upstream);
    assert_eq!(state.statics.len(), 1);

    let second = state.begin_request(&req);
    match second {
        DispatchStep::Respond(cached) => {
            assert_eq!(cached.status, 200);
            assert_eq!(cached.body, b"x".to_vec());
        }
        DispatchStep::Forward(_) => panic!("second request must hit the cache"),
    }
}

#[test]
fn classification_by_status_and_suffix() {
    let mut state = ProxyState::new();
    let req = request("GET", "https://origin.example/app.js", "/app.js", b"");

    let not_found = entry(404, "text/plain", b"missing");
    state.finish_request(&req, &not_found);
    assert_eq!(state.statics.len(), 0);
    assert_eq!(state.api.len(), 0);

    let ok = entry(200, "text/plain", b"x");
    state.finish_request(&req, &ok);
    assert_eq!(state.statics.len(), 1);
}

#[test]
fn classification_by_content_type() {
    let mut state = ProxyState::new();
    let req = request("GET", "https://origin.example/page", "/page", b"");
    let html = entry(200, "text/html; charset=utf-8", b"<html></html>");
    state.finish_request(&req, &html);
    assert_eq!(state.statics.len(), 1);
    assert_eq!(state.captured.len(), 0);
}

#[test]
fn promotion_needs_two_equal_observations() {
    let mut state = ProxyState::new();
    let req = request("GET", "https://origin.example/api/data", "/api/data", b"{}");

    let first = entry(200, "application/octet-stream", b"payload");
    state.finish_request(&req, &first);
    assert_eq!(state.captured.len(), 1);
    assert_eq!(state.api.len(), 0);

    let second = entry(200, "application/octet-stream", b"payload");
    state.finish_request(&req, &second);
    assert_eq!(state.api.len(), 1);

    let hit = state.begin_request(&req);
    match hit {
        DispatchStep::Respond(cached) => assert_eq!(cached.body, b"payload".to_vec()),
        DispatchStep::Forward(_) => panic!("promoted response must be served from the API cache"),
    }
}

#[test]
fn promotion_refused_on_differing_bodies() {
    let mut state = ProxyState::new();
    let req = request("GET", "https://origin.example/api/time", "/api/time", b"{}");

    state.finish_request(&req, &entry(200, "application/octet-stream", b"one"));
    state.finish_request(&req, &entry(200, "application/octet-stream", b"two"));
    assert_eq!(state.api.len(), 0);
    assert_eq!(state.captured.len(), 1);
}

#[test]
fn non_get_is_never_captured() {
    let mut state = ProxyState::new();
    let req = request("POST", "https://origin.example/api/save", "/api/save", b"body");
    let resp = entry(200, "application/octet-stream", b"saved");

    state.finish_request(&req, &resp);
    state.finish_request(&req, &resp);
    assert_eq!(state.captured.len(), 0);
    assert_eq!(state.api.len(), 0);
    assert_eq!(state.statics.len(), 0);
}

#[test]
fn clear_reports_count_and_stops_serving() {
    let mut state = ProxyState::new();
    for i in 0..3u32 {
        let uri = format!("https://origin.example/a{}.js", i);
        let path = format!("/a{}.js", i);
        let req = request("GET", &uri, &path, b"");
        state.finish_request(&req, &entry(200, "text/plain", b"s"));
    }
    for i in 0..2u32 {
        let uri = format!("https://origin.example/api/{}", i);
        let path = format!("/api/{}", i);
        let req = request("GET", &uri, &path, b"q");
        state.finish_request(&req, &entry(200, "application/octet-stream", b"r"));
        state.finish_request(&req, &entry(200, "application/octet-stream", b"r"));
    }
    for i in 0..3u32 {
        let uri = format!("https://origin.example/once/{}", i);
        let path = format!("/once/{}", i);
        let req = request("GET", &uri, &path, b"q");
        state.finish_request(&req, &entry(200, "application/octet-stream", b"r"));
    }
    assert_eq!(state.statics.len(), 3);
    assert_eq!(state.api.len(), 2);
    assert_eq!(state.captured.len(), 5);
    assert!(state.should_accept());

    let count = state.clear_caches();
    assert_eq!(count, 5);
    assert_eq!(state.statics.len(), 0);
    assert_eq!(state.api.len(), 0);
    assert_eq!(state.captured.len(), 0);
    assert!(!state.should_accept());
}

#[test]
fn repeated_identical_404_promotes_to_api_cache() {
    // The capture/promote protocol keys on (URI, status, request body) and
    // does not demand a success status: two byte-identical 404 responses
    // for one GET fingerprint are promoted like any other dynamic pair.
    let mut state = ProxyState::new();
    let req = request("GET", "https://origin.example/gone", "/gone", b"");
    state.finish_request(&req, &entry(404, "text/plain", b"missing"));
    assert_eq!(state.api.len(), 0);
    state.finish_request(&req, &entry(404, "text/plain", b"missing"));
    assert_eq!(state.api.len(), 1);
}

#[test]
fn static_hit_is_idempotent() {
    let mut state = ProxyState::new();
    let req = request("GET", "https://origin.example/logo.png", "/logo.png", b"");
    state.finish_request(&req, &entry(200, "image/png", b"pixels"));

    let other = request("GET", "https://origin.example/other.css", "/other.css", b"");
    state.finish_request(&other, &entry(200, "text/css", b"css"));

    for _ in 0..3 {
        match state.begin_request(&req) {
            DispatchStep::Respond(cached) => {
                assert_eq!(cached.status, 200);
                assert_eq!(cached.body, b"pixels".to_vec());
            }
            DispatchStep::Forward(_) => panic!("cached URI must not be forwarded"),
        }
    }
}

#[test]
fn static_insert_overwrites() {
    let mut state = ProxyState::new();
    let req = request("GET", "https://origin.example/a.js", "/a.js", b"");
    state.finish_request(&req, &entry(200, "text/plain", b"old"));
    state.finish_request(&req, &entry(201, "text/plain", b"new"));
    assert_eq!(state.statics.len(), 1);
    match state.begin_request(&req) {
        DispatchStep::Respond(cached) => {
            assert_eq!(cached.status, 201);
            assert_eq!(cached.body, b"new".to_vec());
        }
        DispatchStep::Forward(_) => panic!("expected a cache hit"),
    }
}

#[test]
fn forward_replaces_existing_host_header() {
    let state = ProxyState::new();
    let mut req = request("GET", "https://origin.example/x", "/x", b"");
    req.headers.push((String::from("host"), String::from("stale.example")));
    match state.begin_request(&req) {
        DispatchStep::Forward(fw) => {
            let hosts: Vec<&(String, String)> =
                fw.headers.iter().filter(|h| h.0 == "host").collect();
            assert_eq!(hosts.len(), 1);
            assert_eq!(hosts[0].1, "origin.example:443");
        }
        DispatchStep::Respond(_) => panic!("empty cache cannot hit"),
    }
}

#[test]
fn startup_key_selection() {
    let one = vec![vec![1u8, 2, 3]];
    assert_eq!(select_single_private_key(one), Ok(vec![1u8, 2, 3]));
    assert_eq!(
        select_single_private_key(Vec::new()),
        Err(StartupError::NotSingleKey)
    );
    let two = vec![vec![1u8], vec![2u8]];
    assert_eq!(select_single_private_key(two), Err(StartupError::NotSingleKey));
    assert_eq!(
        StartupError::NotSingleKey.message(),
        "expected a single private key"
    );
}

#[test]
fn startup_configuration() {
    assert_eq!(listen_address(), "127.0.0.1:443");
    let alpn = alpn_protocols();
    assert_eq!(alpn, vec![String::from("h2"), String::from("http/1.1")]);
}
