use perfsee::chrome_profile::{
    load_chrome_main_thread_profile, load_chrome_profile, Args, CallFrame, ChromeError,
    ChromeProfile, CpuProfile, CpuProfileNode, Data, Id, Phase, TraceEvent,
};
use perfsee::profile::{CallEvent, Frame, Profile, ProfileError, SpeedScopeProfile};

fn plain_frame(name: &str) -> Frame {
    let mut f = Frame {
        key: String::new(),
        name: name.to_string(),
        file: String::from("src/app.ts"),
        line: Some(12),
        col: Some(7),
        bundle_hash: None,
        sourced: true,
        origin_script_file: String::from("app.js"),
        node_module: None,
    };
    f.update_key();
    f
}

#[test]
fn latest_key_formats_positions() {
    let f = plain_frame("render");
    assert_eq!(f.key, "render:src/app.ts:12:7");
    assert_eq!(f.latest_key(), "render:src/app.ts:12:7");

    let mut g = plain_frame("big");
    g.line = Some(1234567890);
    g.col = None;
    g.update_key();
    assert_eq!(g.key, "big:src/app.ts:1234567890:0");
}

#[test]
fn for_each_sample_zips() {
    let mut p = Profile::new(String::from("main"));
    p.frames.push(plain_frame("a"));
    p.samples = vec![vec![0], vec![0, 0]];
    p.weights = vec![3, 4];
    let pairs = p.for_each_sample();
    assert_eq!(pairs.len(), 2);
    assert_eq!(pairs[0], (vec![0], 3));
    assert_eq!(pairs[1], (vec![0, 0], 4));
}

#[test]
fn for_each_call_merges_shared_prefixes() {
    let mut p = Profile::new(String::from("main"));
    p.frames.push(plain_frame("root"));
    p.frames.push(plain_frame("a"));
    p.frames.push(plain_frame("b"));
    p.samples = vec![vec![0, 1], vec![0, 2]];
    p.weights = vec![10, 20];
    let events = p.for_each_call();
    assert_eq!(
        events,
        vec![
            CallEvent::Enter(0),
            CallEvent::Enter(1),
            CallEvent::Close(1, 10, 10),
            CallEvent::Enter(2),
            CallEvent::Close(2, 20, 20),
            CallEvent::Close(0, 0, 30),
        ]
    );
}

fn profile_event(name: &str, id: Option<Id>, timestamp: u64, data: Option<Data>) -> TraceEvent {
    TraceEvent {
        name: name.to_string(),
        cat: String::from("disabled-by-default-v8.cpu_profiler"),
        phase: Phase::Sample,
        process_id: 7,
        thread_id: 42,
        timestamp,
        thread_timestamp: None,
        args: Args { name: None, data },
        dur: None,
        tdur: None,
        instant_scope: None,
        id,
        scope: None,
        id2: None,
        bp: None,
    }
}

fn thread_name_event(name: &str) -> TraceEvent {
    TraceEvent {
        name: String::from("thread_name"),
        cat: String::from("__metadata"),
        phase: Phase::Metadata,
        process_id: 7,
        thread_id: 42,
        timestamp: 0,
        thread_timestamp: None,
        args: Args {
            name: Some(name.to_string()),
            data: None,
        },
        dur: None,
        tdur: None,
        instant_scope: None,
        id: None,
        scope: None,
        id2: None,
        bp: None,
    }
}

fn node(id: u32, name: &str, parent: Option<u32>, children: Option<Vec<u32>>) -> CpuProfileNode {
    CpuProfileNode {
        call_frame: CallFrame {
            url: String::new(),
            function_name: name.to_string(),
            line_number: None,
            column_number: None,
        },
        id,
        parent,
        children,
    }
}

#[test]
fn chrome_trace_grouping_and_conversion() {
    let events = vec![
        thread_name_event("CrRendererMain"),
        profile_event(
            "Profile",
            None,
            1,
            Some(Data {
                start_time: Some(1000),
                end_time: None,
                cpu_profile: Some(CpuProfile {
                    nodes: Some(vec![node(1, "(root)", None, Some(vec![2]))]),
                    samples: vec![1],
                }),
                time_deltas: Some(vec![0]),
            }),
        ),
        profile_event(
            "ProfileChunk",
            None,
            2,
            Some(Data {
                start_time: None,
                end_time: None,
                cpu_profile: Some(CpuProfile {
                    nodes: Some(vec![node(2, "foo", Some(1), None)]),
                    samples: vec![2, 2],
                }),
                time_deltas: Some(vec![10, 20]),
            }),
        ),
    ];
    let profiles = load_chrome_profile(events).unwrap();
    assert_eq!(profiles.len(), 1);
    assert_eq!(profiles[0].thread_name, "CrRendererMain");
    assert_eq!(profiles[0].start_time, 1000);
    assert_eq!(profiles[0].nodes.len(), 2);
    assert_eq!(profiles[0].samples, vec![1, 2, 2]);
    assert_eq!(profiles[0].time_deltas, vec![0, 10, 20]);

    let profile = load_chrome_main_thread_profile(profiles).unwrap();
    assert_eq!(profile.name, "CrRendererMain");
    assert_eq!(profile.start_value, 1000);
    assert_eq!(profile.end_value, 1030);
    assert_eq!(profile.frames.len(), 2);
    assert_eq!(profile.frames[0].name, "(root)");
    assert_eq!(profile.frames[0].key, "(root)::0:0");
    assert_eq!(profile.frames[1].name, "foo");
    assert_eq!(profile.samples, vec![Vec::<usize>::new(), vec![1]]);
    assert_eq!(profile.weights, vec![10, 20]);
}

#[test]
fn chrome_trace_profiles_come_out_in_id_order() {
    // Two profiles whose ids arrive out of order: the grouped output is
    // ordered by id, and each id's chunks are stitched in timestamp order.
    let events = vec![
        thread_name_event("CrRendererMain"),
        profile_event(
            "Profile",
            Some(Id::Text(String::from("zz"))),
            1,
            Some(Data {
                start_time: Some(50),
                end_time: None,
                cpu_profile: Some(CpuProfile {
                    nodes: Some(vec![node(1, "(root)", None, None)]),
                    samples: vec![1],
                }),
                time_deltas: Some(vec![5]),
            }),
        ),
        profile_event(
            "Profile",
            Some(Id::Text(String::from("aa"))),
            2,
            Some(Data {
                start_time: Some(60),
                end_time: None,
                cpu_profile: Some(CpuProfile {
                    nodes: Some(vec![node(2, "(root)", None, None)]),
                    samples: vec![2],
                }),
                time_deltas: Some(vec![7]),
            }),
        ),
        profile_event(
            "ProfileChunk",
            Some(Id::Text(String::from("zz"))),
            3,
            Some(Data {
                start_time: None,
                end_time: Some(99),
                cpu_profile: Some(CpuProfile {
                    nodes: None,
                    samples: vec![1, 1],
                }),
                time_deltas: Some(vec![2, 3]),
            }),
        ),
    ];
    let profiles = load_chrome_profile(events).unwrap();
    assert_eq!(profiles.len(), 2);
    assert_eq!(profiles[0].start_time, 60);
    assert_eq!(profiles[0].samples, vec![2]);
    assert_eq!(profiles[1].start_time, 50);
    assert_eq!(profiles[1].end_time, 99);
    assert_eq!(profiles[1].samples, vec![1, 1, 1]);
    assert_eq!(profiles[1].time_deltas, vec![5, 2, 3]);
}

#[test]
fn chrome_trace_without_profiles_is_refused() {
    let events = vec![thread_name_event("CrRendererMain")];
    match load_chrome_profile(events) {
        Err(e) => assert_eq!(e, ChromeError::NoProfileData),
        Ok(_) => panic!("a trace without profiles must be refused"),
    }
}

#[test]
fn main_thread_profile_must_exist() {
    let other = ChromeProfile {
        thread_name: String::from("Compositor"),
        start_time: 0,
        end_time: 0,
        nodes: Vec::new(),
        samples: Vec::new(),
        time_deltas: Vec::new(),
    };
    match load_chrome_main_thread_profile(vec![other]) {
        Err(e) => assert_eq!(e, ProfileError::MissingMainThread),
        Ok(_) => panic!("a missing main thread must be refused"),
    }
}

#[test]
fn empty_chrome_profile_has_no_nodes() {
    let empty = ChromeProfile {
        thread_name: String::from("CrRendererMain"),
        start_time: 0,
        end_time: 0,
        nodes: Vec::new(),
        samples: Vec::new(),
        time_deltas: Vec::new(),
    };
    match empty.to_profile() {
        Err(e) => assert_eq!(e, ProfileError::NonNode),
        Ok(_) => panic!("an empty grouped profile must be refused"),
    }
    assert_eq!(
        ProfileError::NonNode.message(),
        "No call tree node found in timeline"
    );
}

fn speedscope(name: &str, frames: &[&str], samples: Vec<Vec<usize>>, weights: Vec<u32>) -> SpeedScopeProfile {
    SpeedScopeProfile {
        profile_type: String::from("sampled"),
        unit: String::from("microseconds"),
        name: name.to_string(),
        start_value: 0,
        end_value: 100,
        samples,
        weights,
        frames: frames.iter().map(|n| plain_frame(n)).collect(),
    }
}

#[test]
fn merge_shifts_sample_indices() {
    let a = speedscope("a", &["f0", "f1"], vec![vec![0, 1]], vec![5]);
    let b = speedscope("b", &["g0"], vec![vec![0]], vec![7]);
    let group = SpeedScopeProfile::merge(vec![a, b]);
    assert_eq!(group.exporter, "speedscope@0.6.0");
    assert_eq!(group.schema, "https://www.speedscope.app/file-format-schema.json");
    assert_eq!(group.name, "any");
    assert_eq!(group.shared.frames.len(), 3);
    assert_eq!(group.shared.frames[2].name, "g0");
    assert_eq!(group.profiles.len(), 2);
    assert!(group.profiles[0].frames.is_empty());
    assert_eq!(group.profiles[0].samples, vec![vec![0, 1]]);
    assert_eq!(group.profiles[1].samples, vec![vec![2]]);
    assert_eq!(group.profiles[1].weights, vec![7]);
}

#[test]
fn group_keeps_indices() {
    let a = speedscope("solo", &["f0"], vec![vec![0]], vec![9]);
    let group = a.group();
    assert_eq!(group.profiles.len(), 1);
    assert_eq!(group.profiles[0].samples, vec![vec![0]]);
    assert_eq!(group.shared.frames.len(), 1);
}

#[test]
fn profile_flattens_for_export() {
    let mut p = Profile::new(String::from("main"));
    p.start_value = 10;
    p.end_value = 90;
    p.frames.push(plain_frame("a"));
    p.samples = vec![vec![0]];
    p.weights = vec![80];
    let ss = SpeedScopeProfile::of_profile(p);
    assert_eq!(ss.profile_type, "sampled");
    assert_eq!(ss.unit, "microseconds");
    assert_eq!(ss.name, "main");
    assert_eq!(ss.samples, vec![vec![0]]);
    assert_eq!(ss.weights, vec![80]);
    assert_eq!(ss.frames.len(), 1);
}
