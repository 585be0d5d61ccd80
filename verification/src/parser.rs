//! Recovering module and source paths from bundled script locations:
//! webpack source names are stripped back to resource paths, absolute build
//! paths are turned into repo-relative ones, and the owning node module of
//! a file is extracted from its path.

use vstd::prelude::*;
use vstd::string::{StringExecFns, StrSliceExecFns};
use crate::strutil::{str_starts_with, str_rfind};
use crate::bytesutil::seq_matches_at;
use crate::path_util::{spec_components, spec_apply_all, spec_render, ComponentView, join};

verus! {

/// Names what the webpack-source pattern captures as its `path` group: the
/// resource path of a source formatted `[namespace/]name/resourcePath[?hash]`.
pub uninterp spec fn source_path_group(s: Seq<char>) -> Option<Seq<char>>;

/// Relies on `regex::Regex::new` and `Regex::captures`: the `path` capture
/// of the fixed webpack-source pattern, which depends on the haystack
/// alone.
#[verifier::external_body]
fn capture_source_path(s: &str) -> (r: Option<String>)
    ensures
        r matches Some(p) ==> source_path_group(s@) == Some(p@),
        r is None ==> source_path_group(s@) is None,
{
    match regex::Regex::new(r"^(@[^/]+/)?([^/]+)?/(?P<path>[^?]+)\??\w*$") {
        Ok(reg) => reg.captures(s).and_then(|c| c.name("path")).map(|m| m.as_str().to_string()),
        Err(_) => None,
    }
}

/// Recover the resource path from a webpack source name.  Sources that do
/// not start with `webpack://` pass through; webpack-internal modules keep
/// their `webpack/` path; otherwise the resource path is what the pattern
/// captures, or the whole source when it does not match.
pub fn strip_source_path_prefix(source: &str) -> (r: String)
    ensures
        ({
            let pfx = "webpack://"@;
            let rest = source@.skip(pfx.len() as int);
            &&& !seq_matches_at(source@, pfx, 0) ==> r@ == source@
            &&& seq_matches_at(source@, pfx, 0) && seq_matches_at(rest, "webpack/"@, 0) ==> r@
                == rest
            &&& seq_matches_at(source@, pfx, 0) && !seq_matches_at(rest, "webpack/"@, 0) ==> match
                source_path_group(rest) {
                Some(p) => r@ == p,
                None => r@ == source@,
            }
        }),
{
    let n = source.unicode_len();
    if !str_starts_with(source, "webpack://") {
        return source.to_owned();
    }
    let plen = "webpack://".unicode_len();
    let path = source.substring_char(plen, n);
    if str_starts_with(path, "webpack/") {
        return path.to_owned();
    }
    match capture_source_path(path) {
        Some(p) => p,
        None => source.to_owned(),
    }
}

/// The marker that separates a file path from the module tree below it.
pub open spec fn node_modules_marker() -> Seq<char> {
    "/node_modules/"@
}

/// The node module that owns `path`: the path segment (or, for scoped
/// modules starting `@`, the two segments) after the last `/node_modules/`
/// marker, the whole remainder when it holds too few separators, and empty
/// when the path has no marker at all.
pub fn get_node_module(path: &str) -> (r: String)
    ensures
        (forall|j: int| !seq_matches_at(path@, node_modules_marker(), j)) ==> r@ == Seq::<
            char,
        >::empty(),
        forall|pos: int|
            #![trigger seq_matches_at(path@, node_modules_marker(), pos)]
            (seq_matches_at(path@, node_modules_marker(), pos) && (forall|j: int|
                pos < j ==> !seq_matches_at(path@, node_modules_marker(), j))) ==> ({
                let tail = path@.skip(pos + node_modules_marker().len());
                &&& ((forall|q: int| 0 <= q < tail.len() ==> tail[q] != '/') ==> r@ == tail)
                &&& (forall|p0: int|
                    #![trigger tail.take(p0)]
                    (0 <= p0 < tail.len() && tail[p0] == '/' && (forall|q: int|
                        0 <= q < p0 ==> tail[q] != '/')) ==> if tail[0] == '@' {
                        &&& ((forall|q: int| p0 < q < tail.len() ==> tail[q] != '/') ==> r@
                            == tail)
                        &&& (forall|p1: int|
                            #![trigger tail.take(p1)]
                            (p0 < p1 < tail.len() && tail[p1] == '/' && (forall|q: int|
                                p0 < q < p1 ==> tail[q] != '/')) ==> r@ == tail.take(p1))
                    } else {
                        r@ == tail.take(p0)
                    })
            }),
{
    let n = path.unicode_len();
    let marker = "/node_modules/";
    let pos = match str_rfind(path, marker) {
        Some(p) => p,
        None => {
            proof {
                assert forall|j: int| !seq_matches_at(
                    path@,
                    node_modules_marker(),
                    j,
                ) by {}
            }
            return String::new();
        },
    };
    proof {
        assert(seq_matches_at(path@, node_modules_marker(), pos as int));
    }
    let mlen = marker.unicode_len();
    let last_module = path.substring_char(pos + mlen, n);
    let ghost tail = path@.skip(pos + node_modules_marker().len());
    proof {
        assert(last_module@ =~= tail);
    }
    let lm_len = last_module.unicode_len();
    let mut slashes: Vec<usize> = Vec::new();
    let mut i: usize = 0;
    while i < lm_len
        invariant
            i <= lm_len,
            lm_len == last_module@.len(),
            last_module@ == tail,
            forall|k: int|
                0 <= k < slashes@.len() ==> (#[trigger] slashes@[k]) < i && tail[slashes@[k] as int]
                    == '/',
            forall|a: int, b: int| 0 <= a < b < slashes@.len() ==> slashes@[a] < slashes@[b],
            forall|j: int|
                0 <= j < i && tail[j] == '/' ==> (exists|k: int|
                    0 <= k < slashes@.len() && #[trigger] slashes@[k] == j),
        decreases lm_len - i,
    {
        let ghost pre_slashes = slashes@;
        let is_slash = last_module.get_char(i) == '/';
        if is_slash {
            slashes.push(i);
        }
        proof {
            assert forall|j: int|
                0 <= j < i + 1 && tail[j] == '/' implies (exists|k: int|
                0 <= k < slashes@.len() && #[trigger] slashes@[k] == j) by {
                if j == i as int {
                    assert(slashes@[slashes@.len() - 1] == i);
                } else {
                    let k0 = choose|k: int|
                        0 <= k < pre_slashes.len() && #[trigger] pre_slashes[k] == j;
                    assert(slashes@[k0] == j);
                }
            }
        }
        i += 1;
    }
    let found_module: String = if slashes.len() == 0 {
        last_module.to_owned()
    } else {
        let scoped = lm_len > 0 && last_module.get_char(0) == '@';
        if scoped && slashes.len() < 2 {
            last_module.to_owned()
        } else if scoped {
            let cut = slashes[1];
            last_module.substring_char(0, cut).to_owned()
        } else {
            let cut = slashes[0];
            last_module.substring_char(0, cut).to_owned()
        }
    };
    proof {
        assert forall|pos2: int|
            (seq_matches_at(path@, node_modules_marker(), pos2) && (forall|j: int|
                pos2 < j ==> !seq_matches_at(path@, node_modules_marker(), j))) implies ({
            let tail2 = path@.skip(pos2 + node_modules_marker().len());
            &&& ((forall|q: int| 0 <= q < tail2.len() ==> tail2[q] != '/') ==> found_module@
                == tail2)
            &&& (forall|p0: int|
                #![trigger tail2.take(p0)]
                (0 <= p0 < tail2.len() && tail2[p0] == '/' && (forall|q: int|
                    0 <= q < p0 ==> tail2[q] != '/')) ==> if tail2[0] == '@' {
                    &&& ((forall|q: int| p0 < q < tail2.len() ==> tail2[q] != '/')
                        ==> found_module@ == tail2)
                    &&& (forall|p1: int|
                        #![trigger tail2.take(p1)]
                        (p0 < p1 < tail2.len() && tail2[p1] == '/' && (forall|q: int|
                            p0 < q < p1 ==> tail2[q] != '/')) ==> found_module@ == tail2.take(p1))
                } else {
                    found_module@ == tail2.take(p0)
                })
        }) by {
            assert(pos2 == pos as int);
            let tail2 = path@.skip(pos2 + node_modules_marker().len());
            assert(tail2 =~= tail);
            if forall|q: int| 0 <= q < tail.len() ==> tail[q] != '/' {
                assert(slashes@.len() == 0) by {
                    if slashes@.len() > 0 {
                        assert(tail[slashes@[0] as int] == '/');
                    }
                }
                assert(found_module@ == tail);
            }
            assert forall|p0: int|
                (0 <= p0 < tail2.len() && tail2[p0] == '/' && (forall|q: int|
                    0 <= q < p0 ==> tail2[q] != '/')) implies (if tail2[0] == '@' {
                &&& ((forall|q: int| p0 < q < tail2.len() ==> tail2[q] != '/') ==> found_module@
                    == tail2)
                &&& (forall|p1: int|
                    #![trigger tail2.take(p1)]
                    (p0 < p1 < tail2.len() && tail2[p1] == '/' && (forall|q: int|
                        p0 < q < p1 ==> tail2[q] != '/')) ==> found_module@ == tail2.take(p1))
            } else {
                found_module@ == tail2.take(p0)
            }) by {
                assert(slashes@.len() > 0);
                assert(slashes@[0] == p0) by {
                    assert(exists|k: int|
                        0 <= k < slashes@.len() && #[trigger] slashes@[k] == p0);
                    let k0 = choose|k: int|
                        0 <= k < slashes@.len() && #[trigger] slashes@[k] == p0;
                    if k0 > 0 {
                        assert(slashes@[0] < slashes@[k0]);
                        assert(tail[slashes@[0] as int] == '/');
                    }
                }
                if tail2[0] == '@' {
                    if forall|q: int| p0 < q < tail2.len() ==> tail2[q] != '/' {
                        assert(slashes@.len() < 2) by {
                            if slashes@.len() >= 2 {
                                assert(slashes@[0] < slashes@[1]);
                                assert(tail[slashes@[1] as int] == '/');
                            }
                        }
                        assert(found_module@ == tail);
                    }
                    assert forall|p1: int|
                        (p0 < p1 < tail2.len() && tail2[p1] == '/' && (forall|q: int|
                            p0 < q < p1 ==> tail2[q] != '/')) implies found_module@ == tail2.take(
                        p1,
                    ) by {
                        assert(slashes@.len() >= 2) by {
                            assert(exists|k: int|
                                0 <= k < slashes@.len() && #[trigger] slashes@[k] == p1);
                        }
                        assert(slashes@[1] == p1) by {
                            assert(exists|k: int|
                                0 <= k < slashes@.len() && #[trigger] slashes@[k] == p1);
                            let k1 = choose|k: int|
                                0 <= k < slashes@.len() && #[trigger] slashes@[k] == p1;
                            assert(k1 >= 1);
                            if k1 > 1 {
                                assert(slashes@[0] < slashes@[1] && slashes@[1] < slashes@[k1]);
                                assert(tail[slashes@[1] as int] == '/');
                            }
                        }
                        assert(found_module@ =~= tail2.take(p1));
                    }
                } else {
                    assert(found_module@ =~= tail2.take(p0));
                }
            }
        }
    }
    found_module
}

/// Turn an absolute or build-relative source path back into a project-root
/// relative one: an absolute path under the repo prefix loses it, a
/// relative one gains the build prefix; either way the result is joined
/// under `.`.  An absolute path shorter than the repo prefix passes
/// through.
pub fn to_relative_path(path: &str, abs_prefix: &str, relative_prefix: Option<&str>) -> (r: String)
    ensures
        ({
            let base = spec_apply_all(Seq::<ComponentView>::empty(), spec_components("."@));
            &&& (path@.len() > 0 && path@[0] == '/' && path@.len() < abs_prefix@.len()) ==> r@
                == path@
            &&& (path@.len() > 0 && path@[0] == '/' && path@.len() >= abs_prefix@.len()) ==> r@
                == spec_render(
                spec_apply_all(
                    base,
                    spec_components(
                        path@.skip(
                            if abs_prefix@.len() + 1 <= path@.len() {
                                abs_prefix@.len() + 1int
                            } else {
                                path@.len() as int
                            },
                        ),
                    ),
                ),
            )
            &&& !(path@.len() > 0 && path@[0] == '/') ==> r@ == spec_render(
                spec_apply_all(
                    spec_apply_all(
                        base,
                        spec_components(
                            match relative_prefix {
                                Some(p) => p@,
                                None => Seq::<char>::empty(),
                            },
                        ),
                    ),
                    spec_components(path@),
                ),
            )
        }),
{
    let n = path.unicode_len();
    let is_abs = n > 0 && path.get_char(0) == '/';
    let plen = abs_prefix.unicode_len();
    if is_abs && n < plen {
        return path.to_owned();
    }
    let mut paths: Vec<String> = Vec::new();
    paths.push(String::from_str("."));
    let mut start: usize = 0;
    if is_abs {
        start = if plen < n {
            plen + 1
        } else {
            n
        };
        paths.push(path.substring_char(start, n).to_owned());
    } else {
        let prefix: String = match relative_prefix {
            Some(p) => p.to_owned(),
            None => String::new(),
        };
        paths.push(prefix);
        paths.push(path.to_owned());
    }
    let ghost pvs = paths@;
    let r = join(paths);
    proof {
        reveal_strlit(".");
        assert(pvs[0]@ == "."@);
        assert(crate::path_util::spec_join_stack(pvs, 0) =~= Seq::<ComponentView>::empty());
        assert(crate::path_util::spec_join_stack(pvs, 1) == spec_apply_all(
            crate::path_util::spec_join_stack(pvs, 0),
            spec_components(pvs[0]@),
        ));
        if is_abs {
            assert(pvs.len() == 2);
            assert(pvs[1]@ =~= path@.skip(start as int));
            assert(crate::path_util::spec_join_stack(pvs, 2) == spec_apply_all(
                crate::path_util::spec_join_stack(pvs, 1),
                spec_components(pvs[1]@),
            ));
        } else {
            assert(pvs.len() == 3);
            assert(crate::path_util::spec_join_stack(pvs, 2) == spec_apply_all(
                crate::path_util::spec_join_stack(pvs, 1),
                spec_components(pvs[1]@),
            ));
            assert(crate::path_util::spec_join_stack(pvs, 3) == spec_apply_all(
                crate::path_util::spec_join_stack(pvs, 2),
                spec_components(pvs[2]@),
            ));
        }
    }
    r
}

} // verus!
