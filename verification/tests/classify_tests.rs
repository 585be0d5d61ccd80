use perfsee::classify::is_static_response;
use perfsee::cache::{ApiCache, CacheEntry, CapturedMap, StaticCache};

fn headers(content_type: Option<&str>) -> Vec<(String, String)> {
    let mut hs = vec![(String::from("server"), String::from("origin"))];
    if let Some(ct) = content_type {
        hs.push((String::from("content-type"), ct.to_string()));
    }
    hs
}

#[test]
fn static_suffixes_are_recognised() {
    for path in [
        "/a.js", "/a.css", "/a.png", "/a.svg", "/a.woff", "/a.woff2", "/a.ttf", "/a.ico",
        "/a.gif", "/a.jpg", "/a.jpeg", "/a.webp", "/a.json", "/a.wasm",
    ] {
        assert!(
            is_static_response(200, path, &headers(None)),
            "expected {} to be static",
            path
        );
    }
    assert!(!is_static_response(200, "/a.html", &headers(None)));
    assert!(!is_static_response(200, "/a.jsx", &headers(None)));
    assert!(!is_static_response(200, "/api/data", &headers(None)));
}

#[test]
fn only_success_codes_are_static() {
    assert!(is_static_response(200, "/a.js", &headers(None)));
    assert!(is_static_response(204, "/a.js", &headers(None)));
    assert!(is_static_response(299, "/a.js", &headers(None)));
    assert!(!is_static_response(199, "/a.js", &headers(None)));
    assert!(!is_static_response(300, "/a.js", &headers(None)));
    assert!(!is_static_response(404, "/a.js", &headers(None)));
    assert!(!is_static_response(500, "/a.js", &headers(None)));
}

#[test]
fn html_content_type_is_static() {
    assert!(is_static_response(
        200,
        "/page",
        &headers(Some("text/html; charset=utf-8"))
    ));
    assert!(!is_static_response(200, "/page", &headers(Some("text/plain"))));
    assert!(!is_static_response(404, "/page", &headers(Some("text/html"))));
}

#[test]
fn static_cache_overwrites_by_uri() {
    let mut cache = StaticCache::new();
    let entry = |status: u16, body: &[u8]| CacheEntry {
        status,
        headers: Vec::new(),
        body: body.to_vec(),
    };
    assert!(cache.get(&String::from("/a")).is_none());
    cache.insert(String::from("/a"), entry(200, b"one"));
    cache.insert(String::from("/b"), entry(200, b"two"));
    cache.insert(String::from("/a"), entry(201, b"three"));
    assert_eq!(cache.len(), 2);
    let got = cache.get(&String::from("/a")).unwrap();
    assert_eq!(got.status, 201);
    assert_eq!(got.body, b"three".to_vec());
    cache.clear();
    assert_eq!(cache.len(), 0);
    assert!(cache.get(&String::from("/a")).is_none());
}

#[test]
fn captured_map_keys_include_status() {
    let mut captured = CapturedMap::new();
    captured.insert(String::from("/u"), 200, b"q".to_vec(), b"one".to_vec());
    captured.insert(String::from("/u"), 500, b"q".to_vec(), b"two".to_vec());
    assert_eq!(captured.len(), 2);
    assert_eq!(
        captured.get(&String::from("/u"), 200, b"q").unwrap(),
        &b"one".to_vec()
    );
    assert_eq!(
        captured.get(&String::from("/u"), 500, b"q").unwrap(),
        &b"two".to_vec()
    );
    assert!(captured.get(&String::from("/u"), 404, b"q").is_none());
    assert!(captured.get(&String::from("/u"), 200, b"r").is_none());
}

#[test]
fn api_cache_keys_include_body() {
    let mut api = ApiCache::new();
    let entry = CacheEntry {
        status: 200,
        headers: Vec::new(),
        body: b"r".to_vec(),
    };
    api.insert(String::from("/u"), b"q1".to_vec(), entry.clone());
    assert_eq!(api.len(), 1);
    assert!(api.get(&String::from("/u"), b"q1").is_some());
    assert!(api.get(&String::from("/u"), b"q2").is_none());
    assert!(api.get(&String::from("/v"), b"q1").is_none());
}
