use perfsee::analyzer::{Analyzer, Artifact, Context};
use perfsee::gatherers::{TimeUsingByScriptFile, TotalExecutionTime};
use perfsee::profile::{Frame, Profile};
use perfsee::rules::{LongFuncCall, LongLibCall};

fn frame_of(s: &str) -> Frame {
    let mut frame = Frame {
        key: String::new(),
        name: String::new(),
        file: String::new(),
        line: None,
        col: None,
        bundle_hash: None,
        sourced: false,
        origin_script_file: String::new(),
        node_module: None,
    };
    if s.is_empty() {
        frame.name = String::from("(anonymouse)");
    } else {
        let parts: Vec<&str> = s.split(':').collect();
        if let Some(&name) = parts.get(0) {
            if !name.is_empty() {
                frame.sourced = true;
            }
            frame.name = String::from(name);
        }
        if let Some(&module) = parts.get(1) {
            if !module.is_empty() {
                frame.node_module = Some(String::from(module));
            }
        }
    }
    frame.update_key();
    frame
}

fn sample_weight(stack: &str) -> (Vec<usize>, u32) {
    let mut parts: Vec<&str> = stack.split(' ').collect();
    assert!(parts.len() == 2);
    let weight: u32 = parts.pop().unwrap().parse().unwrap();
    let sample: Vec<usize> = parts
        .pop()
        .unwrap()
        .split(';')
        .map(|index| index.parse().unwrap())
        .collect();
    (sample, weight)
}

fn build_profile(frames: &[&str], samples: &[&str]) -> Profile {
    let mut p = Profile::new(String::new());
    for f in frames {
        p.frames.push(frame_of(f));
    }
    for s in samples {
        let (sample, weight) = sample_weight(s);
        p.samples.push(sample);
        p.weights.push(weight);
    }
    p
}

fn run_long_func_call(profile: &Profile) -> Vec<(String, String, u32, Option<bool>)> {
    let mut ctx = Context::new();
    let rule = LongFuncCall;
    rule.analyse_profile(&mut ctx, profile);
    ctx.diagnostics
        .into_iter()
        .map(|d| (d.code, d.frame.key, d.info.value, d.info.is_source))
        .collect()
}

fn run_long_lib_call(profile: &Profile) -> Vec<(String, String, u32, Option<bool>)> {
    let mut ctx = Context::new();
    let rule = LongLibCall;
    rule.analyse_profile(&mut ctx, profile);
    ctx.diagnostics
        .into_iter()
        .map(|d| (d.code, d.frame.key, d.info.value, d.info.is_source))
        .collect()
}

#[test]
fn long_func_call_found() {
    let profile = build_profile(
        &["", "a:", "b:", "c:", "d:"],
        &["0;1;2;3 50000", "0;1;2;4 50000"],
    );
    let diags = run_long_func_call(&profile);
    assert_eq!(diags.len(), 1);
    assert_eq!(diags[0].0, "long-func-call");
    assert_eq!(diags[0].1, "b::0:0");
    assert_eq!(diags[0].2, 100000);
    assert_eq!(diags[0].3, Some(true));

    let profile = build_profile(
        &["", "a:", "b:", "c:", "d:"],
        &["0;1;2;3 50000", "0;1;4 50000"],
    );
    let diags = run_long_func_call(&profile);
    assert_eq!(diags.len(), 2);
    assert_eq!(diags[0].0, "long-func-call");
    assert_eq!(diags[0].1, "b::0:0");
    assert_eq!(diags[0].2, 50000);
    assert_eq!(diags[0].3, Some(true));
    assert_eq!(diags[1].0, "long-func-call");
    assert_eq!(diags[1].1, "d::0:0");
    assert_eq!(diags[1].2, 50000);
    assert_eq!(diags[1].3, Some(true));

    let profile = build_profile(&["", "render:react-dom", "a:", "b:"], &["0;1;2;3 50000"]);
    let diags = run_long_func_call(&profile);
    assert_eq!(diags.len(), 1);
    assert_eq!(diags[0].0, "long-func-call");
    assert_eq!(diags[0].1, "b::0:0");
    assert_eq!(diags[0].2, 50000);
    assert_eq!(diags[0].3, Some(true));
}

#[test]
fn long_func_call_pass() {
    let profile = build_profile(&["", "render:react-dom", "a:", "b:"], &["0;1;2;3 10000"]);
    let diags = run_long_func_call(&profile);
    assert!(diags.is_empty(), "unexpected diagnostics: {:?}", diags);
}

#[test]
fn long_lib_call_invalid() {
    let profile = build_profile(&["a:a", "b:b", "c:b"], &["0;1;2 50000"]);
    let diags = run_long_lib_call(&profile);
    assert_eq!(diags.len(), 1);
    assert_eq!(diags[0].0, "long-lib-call");
    assert_eq!(diags[0].1, "b::0:0");
    assert_eq!(diags[0].2, 50000);
    assert_eq!(diags[0].3, None);

    let profile = build_profile(&["a:a", "b:b", "c:b"], &["0;1;2 50000", "0;1 3000"]);
    let diags = run_long_lib_call(&profile);
    assert_eq!(diags.len(), 1);
    assert_eq!(diags[0].0, "long-lib-call");
    assert_eq!(diags[0].1, "b::0:0");
    assert_eq!(diags[0].2, 53000);
    assert_eq!(diags[0].3, None);

    let profile = build_profile(&["a:a", "b:b", "c:b", "e:c"], &["0;1;2 50000", "3;1 100"]);
    let diags = run_long_lib_call(&profile);
    assert_eq!(diags.len(), 1);
    assert_eq!(diags[0].0, "long-lib-call");
    assert_eq!(diags[0].1, "b::0:0");
    assert_eq!(diags[0].2, 50000);
    assert_eq!(diags[0].3, None);
}

#[test]
fn long_lib_call_reports_in_frame_index_order() {
    // Two different library runs under one root: the report order follows
    // the weight table, which is kept ordered by frame index even when the
    // later-bumped frame has the smaller index.
    let profile = build_profile(
        &["a:liba", "b:libb", "c:libc"],
        &["0;2 35000", "0;1 40000"],
    );
    let diags = run_long_lib_call(&profile);
    assert_eq!(diags.len(), 2);
    assert_eq!(diags[0].1, "b::0:0");
    assert_eq!(diags[0].2, 40000);
    assert_eq!(diags[1].1, "c::0:0");
    assert_eq!(diags[1].2, 35000);
}

#[test]
fn long_lib_call_pass() {
    let profile = build_profile(&["a:a", "b:b", "c:c"], &["1;2 3000", "0 1", "1;2 3000"]);
    let diags = run_long_lib_call(&profile);
    assert!(diags.is_empty(), "unexpected diagnostics: {:?}", diags);
}

#[test]
fn gatherers_collect_artifacts() {
    let mut profile = build_profile(&["a:", "b:"], &["0 5", "0;1 7", "0;1 9"]);
    profile.frames[0].origin_script_file = String::from("app.js");
    profile.frames[1].origin_script_file = String::from("lib.js");

    let mut ctx = Context::new();
    let total = TotalExecutionTime;
    total.analyse_profile(&mut ctx, &profile);
    assert_eq!(ctx.artifacts.len(), 1);
    assert_eq!(ctx.artifacts[0].0, "total-execution-time");
    match &ctx.artifacts[0].1 {
        Artifact::Number(n) => assert_eq!(*n, 16),
        _ => panic!("expected a numeric artifact"),
    }

    let mut ctx = Context::new();
    let by_file = TimeUsingByScriptFile;
    by_file.analyse_profile(&mut ctx, &profile);
    assert_eq!(ctx.artifacts.len(), 1);
    assert_eq!(ctx.artifacts[0].0, "time-using-by-script-file");
    match &ctx.artifacts[0].1 {
        Artifact::Table(rows) => {
            assert_eq!(rows.len(), 2);
            assert_eq!(rows[0], (String::from("app.js"), 5));
            assert_eq!(rows[1], (String::from("lib.js"), 16));
        }
        _ => panic!("expected a table artifact"),
    }
}

#[test]
fn analyzer_runs_rules_and_gatherers() {
    let profile = build_profile(&["a:a", "b:b", "c:b"], &["0;1;2 50000"]);
    let analyzer = Analyzer::new();
    let (diagnostics, artifacts) = analyzer.analyse(&profile);
    assert_eq!(diagnostics.len(), 1);
    assert_eq!(diagnostics[0].code, "long-lib-call");
    assert_eq!(artifacts.len(), 2);
    assert_eq!(artifacts[0].0, "time-using-by-script-file");
    assert_eq!(artifacts[1].0, "total-execution-time");
}
