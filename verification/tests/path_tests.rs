use perfsee::path_util;
use perfsee::parser::{get_node_module, strip_source_path_prefix, to_relative_path};

fn expect_join(parts: &[&str], expected: &str) {
    let paths: Vec<String> = parts.iter().map(|s| s.to_string()).collect();
    assert_eq!(path_util::join(paths), expected, "join args: {:?}", parts);
}

#[test]
fn join() {
    expect_join(&[".", "x/b", "..", "/b/c.js"], "/b/c.js");
    expect_join(&["/.", "x/b", "..", "/b/c.js"], "/b/c.js");
    expect_join(&["/foo", "../../../bar"], "/bar");
    expect_join(&["foo", "../../../bar"], "../../bar");
    expect_join(&["foo/", "../../../bar"], "../../bar");
    expect_join(&["foo/x", "../../../bar"], "../bar");
    expect_join(&["foo/x", "./bar"], "foo/x/bar");
    expect_join(&["foo/x/", "./bar"], "foo/x/bar");
    expect_join(&["foo/x/", ".", "bar"], "foo/x/bar");
    expect_join(&["./"], "./");
    expect_join(&[".", "./"], "./");
    expect_join(&[".", ".", "."], "./");
    expect_join(&[".", "./", "."], "./");
    expect_join(&[".", "/./", "."], "/");
    expect_join(&[".", "/////./", "."], "/");
    expect_join(&["."], "./");
    expect_join(&["", "."], "./");
    expect_join(&["", "foo"], "foo");
    expect_join(&["foo", "/bar"], "/bar");
    expect_join(&["", "/foo"], "/foo");
    expect_join(&["", "", "/foo"], "/foo");
    expect_join(&["", "", "foo"], "foo");
    expect_join(&["foo", ""], "foo");
    expect_join(&["foo/", ""], "foo");
    expect_join(&["foo", "", "/bar"], "/bar");
    expect_join(&["./", "..", "/foo"], "/foo");
    expect_join(&["./", "..", "..", "/foo"], "/foo");
    expect_join(&[".", "..", "..", "/foo"], "/foo");
    expect_join(&["", "..", "..", "/foo"], "/foo");
    expect_join(&["/"], "/");
    expect_join(&["/", "."], "/");
    expect_join(&["/", ".."], "/");
    expect_join(&["/", "..", ".."], "/");
    expect_join(&[""], "");
    expect_join(&["", ""], "");
    expect_join(&["/foo"], "/foo");
    expect_join(&["", "foo"], "foo");
    expect_join(&["", "."], "./");
    expect_join(&["", "/"], "/");
    expect_join(&["", ""], "");
    expect_join(&["/", "foo"], "/foo");
    expect_join(&["/", "/foo"], "/foo");
    expect_join(&["/", "//foo"], "/foo");
    expect_join(&["/", "", "/foo"], "/foo");
    expect_join(&["", "/", "foo"], "/foo");
    expect_join(&["", "/", "/foo"], "/foo");
}

#[test]
fn get_node_module_correct() {
    assert_eq!(get_node_module("./some/path/index.js"), "");
    assert_eq!(get_node_module("./node_modules/name/esm/index.js"), "name");
    assert_eq!(
        get_node_module("./node_modules/@namespace/name/esm/index.js"),
        "@namespace/name"
    );
    assert_eq!(
        get_node_module("./node_modules/name/node_modules/name2/esm/index.js"),
        "name2"
    );
    assert_eq!(
        get_node_module("./node_modules/@namespace/name/node_modules/name2/esm/index.js"),
        "name2"
    );
    assert_eq!(
        get_node_module(
            "./node_modules/@namespace/name/node_modules/@namespace/name2/esm/index.js"
        ),
        "@namespace/name2"
    );
    assert_eq!(
        get_node_module("./node_modules/@semi/icons sync *"),
        "@semi/icons sync *"
    );
    assert_eq!(
        get_node_module("./node_modules/anymodule sync *"),
        "anymodule sync *"
    );
}

#[test]
fn match_source_map_source() {
    assert_eq!(
        strip_source_path_prefix("webpack://perfsee/./packages/platform/index.tsx?md5hash"),
        "./packages/platform/index.tsx"
    );
    assert_eq!(
        strip_source_path_prefix(
            "webpack://@namespace/perfsee/./packages/platform/index.tsx?md5hash"
        ),
        "./packages/platform/index.tsx"
    );
    assert_eq!(
        strip_source_path_prefix("webpack:///./packages/platform/index.tsx"),
        "./packages/platform/index.tsx"
    );
    assert_eq!(
        strip_source_path_prefix("webpack:////path/to/module.js"),
        "/path/to/module.js"
    );
    assert_eq!(
        strip_source_path_prefix("webpack://webpack/runtime"),
        "webpack/runtime"
    );
    assert_eq!(strip_source_path_prefix("webpack/runtime"), "webpack/runtime");
    assert_eq!(
        strip_source_path_prefix("/absolute/path/to/module.js"),
        "/absolute/path/to/module.js"
    );
    assert_eq!(
        strip_source_path_prefix("./relative/path/to/module.js"),
        "./relative/path/to/module.js"
    );
}

#[test]
fn recover_to_relative_path() {
    assert_eq!(
        to_relative_path("./a/b/c.js", "/build/perfsee", Some("packages/pkg")),
        "./packages/pkg/a/b/c.js"
    );
    assert_eq!(
        to_relative_path("a/b/c.js", "/build/perfsee", Some("packages/pkg")),
        "./packages/pkg/a/b/c.js"
    );
    assert_eq!(
        to_relative_path("a/b/c.js", "/build/perfsee", None),
        "./a/b/c.js"
    );
    assert_eq!(
        to_relative_path("/build/perfsee/a/b/c.js", "/build/perfsee", None),
        "./a/b/c.js"
    );
    assert_eq!(
        to_relative_path("/build/perfsee/a/b/c.js", "/build/perfsee", Some("a")),
        "./a/b/c.js"
    );
}
