//! Response classification: a response is static when its status is a
//! success code and either the request path carries one of the fixed asset
//! suffixes or the `Content-Type` response header contains `text/html`.
//! Everything else is dynamic.

use vstd::prelude::*;
use crate::bytesutil::{seq_ends_with, seq_contains};
use crate::strutil::{str_ends_with, str_contains, str_eq};
use crate::cache::headers_view;

verus! {

/// The status is a success code (2xx).
pub open spec fn spec_is_success(status: u16) -> bool {
    200 <= status < 300
}

/// The request path ends in one of the static-asset suffixes.
pub open spec fn spec_static_path(path: Seq<char>) -> bool {
    ||| seq_ends_with(path, ".js"@)
    ||| seq_ends_with(path, ".css"@)
    ||| seq_ends_with(path, ".png"@)
    ||| seq_ends_with(path, ".svg"@)
    ||| seq_ends_with(path, ".woff"@)
    ||| seq_ends_with(path, ".woff2"@)
    ||| seq_ends_with(path, ".ttf"@)
    ||| seq_ends_with(path, ".ico"@)
    ||| seq_ends_with(path, ".gif"@)
    ||| seq_ends_with(path, ".jpg"@)
    ||| seq_ends_with(path, ".jpeg"@)
    ||| seq_ends_with(path, ".webp"@)
    ||| seq_ends_with(path, ".json"@)
    ||| seq_ends_with(path, ".wasm"@)
}

/// First `content-type` header value, if any.  Header names are expected in
/// lower case, as the HTTP layer normalises them.
pub open spec fn spec_content_type(hs: Seq<(Seq<char>, Seq<char>)>) -> Option<Seq<char>>
    decreases hs.len(),
{
    if hs.len() == 0 {
        None
    } else if hs[0].0 == "content-type"@ {
        Some(hs[0].1)
    } else {
        spec_content_type(hs.drop_first())
    }
}

/// The response declares an HTML content type.
pub open spec fn spec_is_html(hs: Seq<(Seq<char>, Seq<char>)>) -> bool {
    match spec_content_type(hs) {
        Some(v) => seq_contains(v, "text/html"@),
        None => false,
    }
}

/// The classification rule of the dispatcher.
pub open spec fn spec_is_static_response(
    status: u16,
    path: Seq<char>,
    hs: Seq<(Seq<char>, Seq<char>)>,
) -> bool {
    spec_is_success(status) && (spec_static_path(path) || spec_is_html(hs))
}

/// First `content-type` header value in an ordered header list.
pub fn find_content_type(headers: &Vec<(String, String)>) -> (r: Option<&String>)
    ensures
        r is Some <==> spec_content_type(headers_view(headers@)) is Some,
        r matches Some(v) ==> spec_content_type(headers_view(headers@)) == Some(v@),
{
    let ghost hs = headers_view(headers@);
    let mut i: usize = 0;
    proof {
        assert(hs.skip(0) =~= hs);
    }
    while i < headers.len()
        invariant
            i <= headers@.len(),
            hs == headers_view(headers@),
            spec_content_type(hs) == spec_content_type(hs.skip(i as int)),
        decreases headers@.len() - i,
    {
        proof {
            assert(hs.skip(i as int)[0] == hs[i as int]);
            assert(hs.skip(i as int).drop_first() =~= hs.skip(i as int + 1));
        }
        if str_eq(headers[i].0.as_str(), "content-type") {
            return Some(&headers[i].1);
        }
        i += 1;
    }
    proof {
        assert(hs.skip(i as int) =~= Seq::<(Seq<char>, Seq<char>)>::empty());
    }
    None
}

/// Decide whether a response is cacheable as a static asset.
pub fn is_static_response(status: u16, path: &str, headers: &Vec<(String, String)>) -> (r: bool)
    ensures
        r == spec_is_static_response(status, path@, headers_view(headers@)),
{
    if !(200 <= status && status < 300) {
        return false;
    }
    let by_suffix = str_ends_with(path, ".js") || str_ends_with(path, ".css")
        || str_ends_with(path, ".png") || str_ends_with(path, ".svg")
        || str_ends_with(path, ".woff") || str_ends_with(path, ".woff2")
        || str_ends_with(path, ".ttf") || str_ends_with(path, ".ico")
        || str_ends_with(path, ".gif") || str_ends_with(path, ".jpg")
        || str_ends_with(path, ".jpeg") || str_ends_with(path, ".webp")
        || str_ends_with(path, ".json") || str_ends_with(path, ".wasm");
    if by_suffix {
        return true;
    }
    match find_content_type(headers) {
        Some(v) => str_contains(v.as_str(), "text/html"),
        None => false,
    }
}

} // verus!
