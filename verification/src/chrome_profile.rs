//! Chrome trace events and the sampled profiles built from them.
//!
//! A trace is a flat list of events.  The events named `Profile`,
//! `thread_name` and `ProfileChunk` carry CPU-profile chunks keyed by a
//! profile id; grouping stitches the chunks of each id together and
//! resolves each profile's thread name.  Conversion then replays a grouped
//! profile's samples and time deltas into a call-tree `Profile`.

use vstd::prelude::*;
use vstd::string::{StringExecFns, StrSliceExecFns};
use crate::profile::{Frame, Profile, ProfileError, ToFrame, frames_indexed, CallTreeNode};
use crate::numfmt::{u32_to_string, spec_decimal};
use crate::strutil::str_eq;

verus! {

/// One event of a Chrome trace.
pub struct TraceEvent {
    /// The name of the event.
    pub name: String,
    /// The event categories, comma separated.
    pub cat: String,
    /// The event type.
    pub phase: Phase,
    /// The process that emitted the event.
    pub process_id: i32,
    /// The thread that emitted the event.
    pub thread_id: i32,
    /// Tracing clock timestamp, in microseconds.
    pub timestamp: u64,
    /// Thread clock timestamp, in microseconds.
    pub thread_timestamp: Option<u64>,
    /// The event's arguments.
    pub args: Args,
    /// Tracing clock duration of complete events, in microseconds.
    pub dur: Option<u32>,
    /// Thread clock duration of complete events, in microseconds.
    pub tdur: Option<u32>,
    /// Scope of instant events.
    pub instant_scope: Option<InstantScope>,
    /// Grouping id of async events.
    pub id: Option<Id>,
    /// Extra scope that disambiguates `id`.
    pub scope: Option<String>,
    /// Process-local or global replacement for `id`.
    pub id2: Option<Id2>,
    /// Marks a flow event as binding to the next slice.
    pub bp: Option<String>,
}

/// Arguments attached to a trace event.
pub struct Args {
    pub name: Option<String>,
    pub data: Option<Data>,
}

/// The payload of `Profile` and `ProfileChunk` events.
pub struct Data {
    pub start_time: Option<u64>,
    pub end_time: Option<u64>,
    pub cpu_profile: Option<CpuProfile>,
    pub time_deltas: Option<Vec<i32>>,
}

/// One chunk of a sampled CPU profile.
pub struct CpuProfile {
    pub nodes: Option<Vec<CpuProfileNode>>,
    pub samples: Vec<u32>,
}

/// One node of the profiler's call tree.
pub struct CpuProfileNode {
    pub call_frame: CallFrame,
    pub id: u32,
    pub parent: Option<u32>,
    pub children: Option<Vec<u32>>,
}

/// The code position a profile node points at.
pub struct CallFrame {
    pub url: String,
    pub function_name: String,
    pub line_number: Option<i64>,
    pub column_number: Option<i64>,
}

/// Grouping id of an event: a number or a string.
pub enum Id {
    Integer(i64),
    Text(String),
}

/// Process-local or global grouping id.
pub struct Id2 {
    pub local: Option<String>,
    pub global: Option<String>,
}

/// The type of a trace event.
#[derive(Clone, Copy, PartialEq, Eq, Structural, Debug)]
pub enum Phase {
    Begin,
    End,
    Complete,
    Instant,
    DeprecatedInstant,
    Counter,
    NestableBegin,
    NestableEnd,
    NestableInstant,
    FlowStart,
    FlowStep,
    FlowEnd,
    Sample,
    ObjectCreated,
    ObjectSnapshot,
    ObjectDestroyed,
    Metadata,
    MemoryDumpGlobal,
    MemoryDumpProcess,
    Mark,
    ClockSync,
    AsyncStart,
    AsyncStepInto,
    AsyncStepPast,
    AsyncStop,
}

/// Scope of an instant event.
#[derive(Clone, Copy, PartialEq, Eq, Structural, Debug)]
pub enum InstantScope {
    Global,
    Process,
    Thread,
}

/// One grouped profile: a thread's stitched-together chunks.
pub struct ChromeProfile {
    pub thread_name: String,
    pub start_time: u64,
    pub end_time: u64,
    pub nodes: Vec<CpuProfileNode>,
    pub samples: Vec<u32>,
    pub time_deltas: Vec<i32>,
}

/// Why a trace could not be grouped.
#[derive(Clone, Copy, PartialEq, Eq, Structural, Debug)]
pub enum ChromeError {
    /// A profile event came without its `data` payload.
    MissingData,
    /// A `thread_name` event came without a name.
    MissingThreadName,
    /// The trace holds no profile data at all.
    NoProfileData,
}

impl ToFrame for CallFrame {
    fn key(&self) -> String {
        let mut s = String::new();
        let name = self.name();
        s.append(name.as_str());
        s.append(":");
        s.append(self.url.as_str());
        s.append(":");
        match self.line() {
            Some(line) => {
                let d = u32_to_string(line);
                s.append(d.as_str());
            },
            None => {
                s.append("0");
            },
        }
        s.append(":");
        match self.col() {
            Some(col) => {
                let d = u32_to_string(col);
                s.append(d.as_str());
            },
            None => {
                s.append("0");
            },
        }
        s
    }

    fn name(&self) -> String {
        if !self.function_name.as_str().is_empty() {
            self.function_name.clone()
        } else {
            String::from_str("(anonymous)")
        }
    }

    fn file(&self) -> String {
        self.url.clone()
    }

    fn line(&self) -> Option<u32> {
        match self.line_number {
            Some(line) => Some(one_based(line)),
            None => None,
        }
    }

    fn col(&self) -> Option<u32> {
        match self.column_number {
            Some(col) => Some(one_based(col)),
            None => None,
        }
    }
}

/// Turn a zero-based position into a one-based one, clamped into `u32`
/// range (at least 1).
pub fn one_based(p: i64) -> (r: u32)
    ensures
        r == if p + 1 < 1 {
            1u32
        } else if p + 1 > u32::MAX {
            u32::MAX
        } else {
            (p + 1) as u32
        },
{
    if p < 0 {
        1
    } else if p >= 0xffff_ffffi64 {
        u32::MAX
    } else {
        (p + 1) as u32
    }
}

/// Order the events by timestamp, stably: the first event of each equal
/// timestamp stays first.
fn sort_events_by_timestamp(events: Vec<TraceEvent>) -> (r: Vec<TraceEvent>)
    ensures
        r@.len() == events@.len(),
        forall|i: int, j: int|
            0 <= i < j < r@.len() ==> (#[trigger] r@[i]).timestamp <= (#[trigger] r@[j]).timestamp,
        r@.to_multiset() == events@.to_multiset(),
{
    broadcast use vstd::seq_lib::group_to_multiset_ensures;

    let ghost all = events@;
    let mut rest = events;
    let mut out: Vec<TraceEvent> = Vec::new();
    while rest.len() > 0
        invariant
            out@.len() + rest@.len() == all.len(),
            forall|i: int, j: int|
                0 <= i < j < out@.len() ==> (#[trigger] out@[i]).timestamp <= (
                #[trigger] out@[j]).timestamp,
            forall|a: int, b: int|
                0 <= a < out@.len() && 0 <= b < rest@.len() ==> (#[trigger] out@[a]).timestamp <= (
                #[trigger] rest@[b]).timestamp,
            out@.to_multiset().add(rest@.to_multiset()) == all.to_multiset(),
        decreases rest@.len(),
    {
        let mut mi: usize = 0;
        let mut k: usize = 1;
        while k < rest.len()
            invariant
                mi < rest@.len(),
                k <= rest@.len(),
                forall|t: int|
                    0 <= t < k ==> rest@[mi as int].timestamp <= (#[trigger] rest@[t]).timestamp,
            decreases rest@.len() - k,
        {
            if rest[k].timestamp < rest[mi].timestamp {
                mi = k;
            }
            k += 1;
        }
        let ghost pre_rest = rest@;
        let ghost pre_out = out@;
        let e = rest.remove(mi);
        out.push(e);
        proof {
            pre_rest.to_multiset_ensures();
            pre_out.to_multiset_ensures();
            assert(pre_rest.remove(mi as int).to_multiset() =~= pre_rest.to_multiset().remove(
                pre_rest[mi as int],
            ));
            assert(out@.to_multiset() =~= pre_out.to_multiset().insert(pre_rest[mi as int]));
            assert(pre_rest.to_multiset().count(pre_rest[mi as int]) > 0);
            assert(out@.to_multiset().add(rest@.to_multiset()) =~= pre_out.to_multiset().add(
                pre_rest.to_multiset(),
            ));
        }
    }
    out
}

/// `a` orders strictly before `b` in code-point order, the order the
/// id-keyed map of profiles is kept in.
fn str_lt(a: &str, b: &str) -> bool {
    let alen = a.unicode_len();
    let blen = b.unicode_len();
    let mut i: usize = 0;
    loop
        invariant
            i <= alen,
            i <= blen,
            alen == a@.len(),
            blen == b@.len(),
        decreases alen + blen - 2 * i,
    {
        if i == blen {
            return false;
        }
        if i == alen {
            return true;
        }
        let ca = a.get_char(i);
        let cb = b.get_char(i);
        if ca != cb {
            return (ca as u32) < (cb as u32);
        }
        i += 1;
    }
}

/// First value bound to `key`, if any.
fn assoc_get<'a>(v: &'a Vec<(String, String)>, key: &str) -> (r: Option<&'a String>) {
    let mut i: usize = 0;
    while i < v.len()
        invariant
            i <= v@.len(),
        decreases v@.len() - i,
    {
        if str_eq(v[i].0.as_str(), key) {
            return Some(&v[i].1);
        }
        i += 1;
    }
    None
}

/// Bind `key` to `value`, overwriting an earlier binding.
fn assoc_put(v: &mut Vec<(String, String)>, key: String, value: String) {
    let mut i: usize = 0;
    while i < v.len()
        invariant
            i <= v@.len(),
        decreases v@.len() - i,
    {
        if v[i].0.eq(&key) {
            v.set(i, (key, value));
            return;
        }
        i += 1;
    }
    v.push((key, value));
}

/// The `pid:tid` key of an event.
fn pid_tid_key(process_id: i32, thread_id: i32) -> String {
    let mut s = i32_to_string(process_id);
    s.append(":");
    let t = i32_to_string(thread_id);
    s.append(t.as_str());
    s
}

/// Render a signed number in decimal.
pub fn i32_to_string(n: i32) -> (r: String)
    ensures
        n >= 0 ==> r@ == spec_decimal(n as nat),
        n < 0 ==> r@ == seq!['-'] + spec_decimal((-(n as int)) as nat),
{
    if n >= 0 {
        u32_to_string(n as u32)
    } else {
        let m: u32 = (-(n as i64)) as u32;
        let mut s = String::from_str("-");
        let d = u32_to_string(m);
        s.append(d.as_str());
        proof {
            reveal_strlit("-");
            assert(s@ =~= seq!['-'] + spec_decimal((-(n as int)) as nat));
        }
        s
    }
}

/// The event carries CPU-profile data.
pub open spec fn is_profile_event(e: TraceEvent) -> bool {
    e.name@ == "Profile"@ || e.name@ == "ProfileChunk"@
}

/// An element of one of two multiset-equal sequences occurs in the other.
proof fn lemma_event_transfer(a: Seq<TraceEvent>, b: Seq<TraceEvent>, i: int)
    requires
        a.to_multiset() == b.to_multiset(),
        0 <= i < b.len(),
    ensures
        exists|j: int| 0 <= j < a.len() && a[j] == b[i],
{
    broadcast use vstd::seq_lib::group_to_multiset_ensures;

    a.to_multiset_ensures();
    b.to_multiset_ensures();
    assert(b.contains(b[i]));
    assert(b.to_multiset().count(b[i]) > 0);
    assert(a.contains(b[i]));
}

/// An element of one of two multiset-equal pair sequences occurs in the
/// other.
proof fn lemma_pair_transfer(a: Seq<(u32, i64)>, b: Seq<(u32, i64)>, i: int)
    requires
        a.to_multiset() == b.to_multiset(),
        0 <= i < b.len(),
    ensures
        exists|j: int| 0 <= j < a.len() && a[j] == b[i],
{
    broadcast use vstd::seq_lib::group_to_multiset_ensures;

    a.to_multiset_ensures();
    b.to_multiset_ensures();
    assert(b.contains(b[i]));
    assert(b.to_multiset().count(b[i]) > 0);
    assert(a.contains(b[i]));
}

/// Group a trace's profile events by profile id, stitch their chunks, and
/// resolve each profile's thread name; profiles come out ordered by id.  A
/// trace without any profile data is refused with `NoProfileData` exactly
/// when no `Profile` or `ProfileChunk` event occurs (a nameless
/// `thread_name` event may be refused first); a profile event without its
/// payload is refused too.
pub fn load_chrome_profile(events: Vec<TraceEvent>) -> (r: Result<Vec<ChromeProfile>, ChromeError>)
    ensures
        r matches Ok(ps) ==> ps@.len() >= 1,
        r == Result::<Vec<ChromeProfile>, ChromeError>::Err(ChromeError::NoProfileData) ==> (forall|
            i: int,
        | 0 <= i < events@.len() ==> !is_profile_event(#[trigger] events@[i])),
        (forall|i: int| 0 <= i < events@.len() ==> !is_profile_event(#[trigger] events@[i])) ==> (r
            == Result::<Vec<ChromeProfile>, ChromeError>::Err(ChromeError::NoProfileData) || r
            == Result::<Vec<ChromeProfile>, ChromeError>::Err(ChromeError::MissingThreadName)),
{
    let ghost input = events@;
    let sorted = sort_events_by_timestamp(events);
    let ghost sorted_orig = sorted@;
    let mut rest = sorted;
    let total = rest.len();
    let ghost k: int = 0;
    let mut profile_by_id: Vec<(String, ChromeProfile)> = Vec::new();
    let mut thread_name_by_pid_tid: Vec<(String, String)> = Vec::new();
    let mut pid_tid_by_id: Vec<(String, String)> = Vec::new();
    while rest.len() > 0
        invariant
            input == events@,
            sorted_orig.to_multiset() == input.to_multiset(),
            sorted_orig.len() == total,
            k + rest@.len() == sorted_orig.len(),
            0 <= k,
            rest@ == sorted_orig.skip(k),
            profile_by_id@.len() == 0 ==> (forall|j: int|
                0 <= j < k ==> !is_profile_event(#[trigger] sorted_orig[j])),
            profile_by_id@.len() > 0 ==> (exists|j: int|
                0 <= j < k && is_profile_event(#[trigger] sorted_orig[j])),
        decreases rest@.len(),
    {
        let ghost pre_rest = rest@;
        let event = rest.remove(0);
        proof {
            assert(event == sorted_orig[k]);
            assert(rest@ =~= sorted_orig.skip(k + 1));
        }
        let is_profile = str_eq(event.name.as_str(), "Profile");
        let is_chunk = str_eq(event.name.as_str(), "ProfileChunk");
        let is_thread_name = str_eq(event.name.as_str(), "thread_name");
        proof {
            assert((is_profile || is_chunk) == is_profile_event(sorted_orig[k]));
        }
        if !(is_profile || is_chunk || is_thread_name) {
            proof {
                k = k + 1;
            }
            continue;
        }
        let pid_tid = pid_tid_key(event.process_id, event.thread_id);
        let id: String = match &event.id {
            Some(Id::Text(s)) => s.clone(),
            _ => pid_tid.clone(),
        };
        if is_profile || is_chunk {
            let data = match event.args.data {
                Some(d) => d,
                None => {
                    proof {
                        lemma_event_transfer(input, sorted_orig, k);
                    }
                    return Err(ChromeError::MissingData);
                },
            };
            if is_profile {
                assoc_put(&mut pid_tid_by_id, id.clone(), pid_tid);
            }
            let mut idx: usize = 0;
            let mut found = false;
            while idx < profile_by_id.len()
                invariant_except_break
                    !found,
                invariant
                    idx <= profile_by_id@.len(),
                ensures
                    found ==> idx < profile_by_id@.len(),
                decreases profile_by_id@.len() - idx,
            {
                if profile_by_id[idx].0.eq(&id) {
                    found = true;
                    break;
                }
                idx += 1;
            }
            if !found {
                let empty = ChromeProfile {
                    thread_name: String::new(),
                    start_time: 0,
                    end_time: 0,
                    nodes: Vec::new(),
                    samples: Vec::new(),
                    time_deltas: Vec::new(),
                };
                // Keep the map ordered by id, the order profiles come out in.
                idx = 0;
                while idx < profile_by_id.len()
                    invariant
                        idx <= profile_by_id@.len(),
                    decreases profile_by_id@.len() - idx,
                {
                    if str_lt(id.as_str(), profile_by_id[idx].0.as_str()) {
                        break;
                    }
                    idx += 1;
                }
                profile_by_id.insert(idx, (id, empty));
            }
            let (key, mut cp) = profile_by_id.remove(idx);
            if let Some(raw) = data.cpu_profile {
                if let Some(mut nodes) = raw.nodes {
                    cp.nodes.append(&mut nodes);
                }
                let mut samples = raw.samples;
                cp.samples.append(&mut samples);
            }
            if let Some(mut time_deltas) = data.time_deltas {
                cp.time_deltas.append(&mut time_deltas);
            }
            if let Some(start_time) = data.start_time {
                cp.start_time = start_time;
            }
            if let Some(end_time) = data.end_time {
                cp.end_time = end_time;
            }
            profile_by_id.insert(idx, (key, cp));
            proof {
                assert(is_profile_event(sorted_orig[k]));
                k = k + 1;
            }
        } else {
            let tn = match event.args.name {
                Some(n) => n,
                None => {
                    return Err(ChromeError::MissingThreadName);
                },
            };
            assoc_put(&mut thread_name_by_pid_tid, id, tn);
            proof {
                k = k + 1;
            }
        }
    }
    proof {
        assert(k == sorted_orig.len());
    }
    if profile_by_id.len() == 0 {
        proof {
            assert forall|i: int|
                0 <= i < events@.len() implies !is_profile_event(#[trigger] events@[i]) by {
                lemma_event_transfer(sorted_orig, input, i);
                let j = choose|j: int| 0 <= j < sorted_orig.len() && sorted_orig[j] == input[i];
                assert(!is_profile_event(sorted_orig[j]));
            }
        }
        return Err(ChromeError::NoProfileData);
    }
    proof {
        let j = choose|j: int| 0 <= j < k && is_profile_event(#[trigger] sorted_orig[j]);
        lemma_event_transfer(input, sorted_orig, j);
        let j2 = choose|j2: int| 0 <= j2 < input.len() && input[j2] == sorted_orig[j];
        assert(is_profile_event(events@[j2]));
    }
    let mut profiles: Vec<ChromeProfile> = Vec::new();
    while profile_by_id.len() > 0
        invariant
            profiles@.len() + profile_by_id@.len() >= 1,
        decreases profile_by_id@.len(),
    {
        let (profile_id, mut chrome_profile) = profile_by_id.remove(0);
        let resolved: Option<String> = match assoc_get(&pid_tid_by_id, profile_id.as_str()) {
            Some(pid_tid) => match assoc_get(&thread_name_by_pid_tid, pid_tid.as_str()) {
                Some(tn) => Some(tn.clone()),
                None => None,
            },
            None => None,
        };
        match resolved {
            Some(tn) => {
                chrome_profile.thread_name = tn;
            },
            None => {
                chrome_profile.thread_name = String::from_str("(anonymous thread)");
            },
        }
        profiles.push(chrome_profile);
    }
    Ok(profiles)
}

/// An unbounded sum clamped into signed 64-bit range.
pub open spec fn spec_sat_i64(a: int) -> i64 {
    if a > i64::MAX {
        i64::MAX
    } else if a < i64::MIN {
        i64::MIN
    } else {
        a as i64
    }
}

/// The saturating running timestamp after the first `k` time deltas.
pub open spec fn spec_cumulative(deltas: Seq<i32>, k: int) -> i64
    decreases k,
{
    if k <= 0 {
        0
    } else {
        spec_sat_i64(spec_cumulative(deltas, k - 1) + deltas[k - 1] as int)
    }
}

/// The end timestamp recorded for a final running time: the start time when
/// the clock never advanced, else their sum clamped into range.
pub open spec fn spec_end_time(start: u64, e: i64) -> u64 {
    if e < 0 {
        start
    } else if start + e > u64::MAX {
        u64::MAX
    } else {
        (start + e) as u64
    }
}

/// Saturating signed 64-bit addition.
fn sat_add_i64(a: i64, b: i64) -> (r: i64)
    ensures
        r == spec_sat_i64(a + b),
{
    if b >= 0 {
        if a <= i64::MAX - b {
            a + b
        } else {
            i64::MAX
        }
    } else {
        if a >= i64::MIN - b {
            a + b
        } else {
            i64::MIN
        }
    }
}

/// The weight between two clock readings, clamped into `u32` range.
fn delta_weight(from: i64, to: i64) -> (r: u32)
    ensures
        0 <= to - from <= u32::MAX ==> r == to - from,
{
    let diff: i128 = (to as i128) - (from as i128);
    if diff <= 0 {
        0
    } else if diff >= 0xffff_ffffi128 {
        u32::MAX
    } else {
        diff as u32
    }
}

/// `(node id, running timestamp)` pairs ordered by timestamp, stably.
fn sort_samples_by_timestamp(samples: Vec<(u32, i64)>) -> (r: Vec<(u32, i64)>)
    ensures
        r@.len() == samples@.len(),
        forall|i: int, j: int|
            0 <= i < j < r@.len() ==> (#[trigger] r@[i]).1 <= (#[trigger] r@[j]).1,
        r@.to_multiset() == samples@.to_multiset(),
{
    broadcast use vstd::seq_lib::group_to_multiset_ensures;

    let ghost all = samples@;
    let mut rest = samples;
    let mut out: Vec<(u32, i64)> = Vec::new();
    while rest.len() > 0
        invariant
            out@.len() + rest@.len() == all.len(),
            forall|i: int, j: int|
                0 <= i < j < out@.len() ==> (#[trigger] out@[i]).1 <= (#[trigger] out@[j]).1,
            forall|a: int, b: int|
                0 <= a < out@.len() && 0 <= b < rest@.len() ==> (#[trigger] out@[a]).1 <= (
                #[trigger] rest@[b]).1,
            out@.to_multiset().add(rest@.to_multiset()) == all.to_multiset(),
        decreases rest@.len(),
    {
        let mut mi: usize = 0;
        let mut k: usize = 1;
        while k < rest.len()
            invariant
                mi < rest@.len(),
                k <= rest@.len(),
                forall|t: int| 0 <= t < k ==> rest@[mi as int].1 <= (#[trigger] rest@[t]).1,
            decreases rest@.len() - k,
        {
            if rest[k].1 < rest[mi].1 {
                mi = k;
            }
            k += 1;
        }
        let ghost pre_rest = rest@;
        let ghost pre_out = out@;
        let e = rest.remove(mi);
        out.push(e);
        proof {
            pre_rest.to_multiset_ensures();
            pre_out.to_multiset_ensures();
            assert(pre_rest.remove(mi as int).to_multiset() =~= pre_rest.to_multiset().remove(
                pre_rest[mi as int],
            ));
            assert(out@.to_multiset() =~= pre_out.to_multiset().insert(pre_rest[mi as int]));
            assert(pre_rest.to_multiset().count(pre_rest[mi as int]) > 0);
            assert(out@.to_multiset().add(rest@.to_multiset()) =~= pre_out.to_multiset().add(
                pre_rest.to_multiset(),
            ));
        }
    }
    out
}

/// The frames that park on top of any stack instead of extending it.
pub fn should_place_on_top_of_stack(function_name: &str) -> (r: bool)
    ensures
        r <==> (function_name@ == "(garbage collector)"@ || function_name@ == "(program)"@),
{
    str_eq(function_name, "(garbage collector)") || str_eq(function_name, "(program)")
}

/// First node bound to `id`, if any.
fn node_by_id_get<'a>(v: &'a Vec<(u32, CpuProfileNode)>, id: u32) -> (r: Option<&'a CpuProfileNode>) {
    let mut i: usize = 0;
    while i < v.len()
        invariant
            i <= v@.len(),
        decreases v@.len() - i,
    {
        if v[i].0 == id {
            return Some(&v[i].1);
        }
        i += 1;
    }
    None
}

/// First parent bound to `id`, if any.
fn parent_get(v: &Vec<(u32, u32)>, id: u32) -> (r: Option<u32>) {
    let mut i: usize = 0;
    while i < v.len()
        invariant
            i <= v@.len(),
        decreases v@.len() - i,
    {
        if v[i].0 == id {
            return Some(v[i].1);
        }
        i += 1;
    }
    None
}

/// Bind `id` to `parent`, overwriting an earlier binding.
fn parent_put(v: &mut Vec<(u32, u32)>, id: u32, parent: u32) {
    let mut i: usize = 0;
    while i < v.len()
        invariant
            i <= v@.len(),
        decreases v@.len() - i,
    {
        if v[i].0 == id {
            v.set(i, (id, parent));
            return;
        }
        i += 1;
    }
    v.push((id, parent));
}

impl ChromeProfile {
    /// Replay the grouped samples and time deltas into a call-tree profile.
    /// A grouped profile without nodes, samples or time deltas is refused;
    /// otherwise the profile carries this thread's name and start time,
    /// satisfies the profile invariant, pairs every sample with exactly one
    /// weight, interns each distinct frame key once with a correct key
    /// index, and comes back with an empty working stack.
    pub fn to_profile(self) -> (r: Result<Profile, ProfileError>)
        ensures
            (self.nodes@.len() == 0 || self.time_deltas@.len() == 0 || self.samples@.len() == 0)
                <==> r is Err,
            r matches Err(e) ==> e == ProfileError::NonNode,
            r matches Ok(p) ==> p.wf() && p@.name == self.thread_name@ && p@.start_value
                == self.start_time && p@.samples.len() == p@.weights.len() && frames_indexed(p@)
                && p@.stack == Seq::<CallTreeNode>::empty(),
            ({
                let m = if self.samples@.len() <= self.time_deltas@.len() {
                    self.samples@.len() as int
                } else {
                    self.time_deltas@.len() as int
                };
                (r is Ok && (forall|i: int|
                    0 <= i < m ==> self.samples@[i] != 0xffff_ffffu32)) ==> (exists|e: i64|
                    {
                        &&& (exists|j: int|
                            1 <= j <= m && e == spec_cumulative(self.time_deltas@, j))
                        &&& (forall|j: int|
                            1 <= j <= m ==> spec_cumulative(self.time_deltas@, j) <= e)
                        &&& r->Ok_0@.end_value == spec_end_time(self.start_time, e)
                    })
            }),
    {
        let ChromeProfile { thread_name, start_time, end_time: _, nodes, samples, time_deltas } =
            self;
        if nodes.len() == 0 || time_deltas.len() == 0 || samples.len() == 0 {
            return Err(ProfileError::NonNode);
        }
        let mut parent_by_id: Vec<(u32, u32)> = Vec::new();
        let mut node_by_id: Vec<(u32, CpuProfileNode)> = Vec::new();
        let mut nodes = nodes;
        while nodes.len() > 0
            decreases nodes@.len(),
        {
            let mut node = nodes.remove(0);
            if let Some(parent_id) = node.parent {
                node.parent = None;
                parent_put(&mut parent_by_id, node.id, parent_id);
            }
            let children = node.children;
            node.children = None;
            if let Some(children) = children {
                let mut ci: usize = 0;
                while ci < children.len()
                    invariant
                        ci <= children@.len(),
                    decreases children@.len() - ci,
                {
                    parent_put(&mut parent_by_id, children[ci], node.id);
                    ci += 1;
                }
            }
            if node_by_id_get(&node_by_id, node.id).is_none() {
                node_by_id.push((node.id, node));
            }
        }
        let mut profile = Profile::new(thread_name);
        let ghost m: int = if samples@.len() <= time_deltas@.len() {
            samples@.len() as int
        } else {
            time_deltas@.len() as int
        };
        let mut elapsed: i64 = 0;
        let mut samples_with_timestamp: Vec<(u32, i64)> = Vec::new();
        let mut si: usize = 0;
        while si < samples.len() && si < time_deltas.len()
            invariant
                si <= samples@.len(),
                si <= time_deltas@.len(),
                si < samples@.len() || si < time_deltas@.len() || si == m,
                si <= m,
                m == if samples@.len() <= time_deltas@.len() {
                    samples@.len() as int
                } else {
                    time_deltas@.len() as int
                },
                elapsed == spec_cumulative(time_deltas@, si as int),
                samples_with_timestamp@.len() == si,
                forall|k: int|
                    0 <= k < si ==> (#[trigger] samples_with_timestamp@[k]) == (
                    samples@[k],
                    spec_cumulative(time_deltas@, k + 1),
                ),
            decreases samples@.len() - si,
        {
            elapsed = sat_add_i64(elapsed, time_deltas[si] as i64);
            samples_with_timestamp.push((samples[si], elapsed));
            si += 1;
        }
        let ghost z = samples_with_timestamp@;
        proof {
            assert(z.len() == m);
        }
        let mut samples_with_timestamp = sort_samples_by_timestamp(samples_with_timestamp);
        let ghost sorted_v = samples_with_timestamp@;
        if samples_with_timestamp.len() > 0 {
            let last_ts = samples_with_timestamp[samples_with_timestamp.len() - 1].1;
            samples_with_timestamp.push((0xffff_ffffu32, last_ts));
        }
        let ghost hyp = forall|i: int| 0 <= i < m ==> samples@[i] != 0xffff_ffffu32;
        proof {
            assert(samples_with_timestamp@ =~= sorted_v.push(
                (0xffff_ffffu32, sorted_v.last().1),
            ));
            if hyp {
                assert forall|t: int|
                    0 <= t < sorted_v.len() implies (#[trigger] sorted_v[t]).0 != 0xffff_ffffu32 by {
                    lemma_pair_transfer(z, sorted_v, t);
                    let k = choose|k: int| 0 <= k < z.len() && z[k] == sorted_v[t];
                    assert(z[k] == (samples@[k], spec_cumulative(time_deltas@, k + 1)));
                }
            }
        }
        let ghost swt0 = samples_with_timestamp@;
        let mut stack: Vec<u32> = Vec::new();
        let mut elapsed: i64 = 0;
        let mut node_id: u32 = 0xffff_ffffu32;
        let mut wi: usize = 0;
        while wi < samples_with_timestamp.len()
            invariant
                wi <= samples_with_timestamp@.len(),
                samples_with_timestamp@ == swt0,
                swt0 == sorted_v.push((0xffff_ffffu32, sorted_v.last().1)),
                sorted_v.len() == m,
                m >= 1,
                hyp == (forall|i: int| 0 <= i < m ==> samples@[i] != 0xffff_ffffu32),
                hyp ==> (forall|t: int|
                    0 <= t < sorted_v.len() ==> (#[trigger] sorted_v[t]).0 != 0xffff_ffffu32),
                wi >= 1 ==> node_id == swt0[wi - 1].0,
                wi == 0 ==> node_id == 0xffff_ffffu32,
                hyp && wi == swt0.len() ==> elapsed == swt0[wi - 1].1,
                profile.wf(),
                frames_indexed(profile@),
                profile@.samples.len() == profile@.weights.len(),
                profile@.name == self.thread_name@,
            decreases samples_with_timestamp@.len() - wi,
        {
            let next_node_id = samples_with_timestamp[wi].0;
            let timestamp = samples_with_timestamp[wi].1;
            wi += 1;
            if node_id == 0xffff_ffffu32 || node_id == next_node_id {
                node_id = next_node_id;
                continue;
            }
            let weight = delta_weight(elapsed, timestamp);
            elapsed = timestamp;
            if node_by_id_get(&node_by_id, node_id).is_some() {
                let on_top = match node_by_id_get(&node_by_id, node_id) {
                    Some(node) => should_place_on_top_of_stack(node.call_frame.function_name.as_str()),
                    None => false,
                };
                let mut lca: Option<u32> = if on_top {
                    if stack.len() > 0 {
                        Some(stack[stack.len() - 1])
                    } else {
                        None
                    }
                } else {
                    Some(node_id)
                };
                let mut to_open: Vec<u32> = Vec::new();
                // A parent chain can only be longer than the parent map if
                // it loops; cut it there instead of following it forever.
                let mut steps: usize = 0;
                let max_steps: usize = if parent_by_id.len() < usize::MAX {
                    parent_by_id.len() + 1
                } else {
                    usize::MAX
                };
                while steps < max_steps
                    invariant
                        profile.wf(),
                        frames_indexed(profile@),
                        profile@.samples.len() == profile@.weights.len(),
                        profile@.name == self.thread_name@,
                        steps <= max_steps,
                    decreases max_steps - steps,
                {
                    steps += 1;
                    let incoming = match lca {
                        Some(v) => v,
                        None => {
                            break;
                        },
                    };
                    lca = None;
                    let mut pos: Option<usize> = None;
                    let mut pi: usize = stack.len();
                    while pi > 0
                        invariant
                            pi <= stack@.len(),
                            pos matches Some(v) ==> v < stack@.len(),
                        decreases pi,
                    {
                        pi -= 1;
                        if stack[pi] == incoming {
                            pos = Some(pi);
                            break;
                        }
                    }
                    match pos {
                        Some(index) => {
                            let limit: usize = index + 1;
                            while stack.len() > limit
                                invariant
                                    profile.wf(),
                                    frames_indexed(profile@),
                                    profile@.samples.len() == profile@.weights.len(),
                                    profile@.name == self.thread_name@,
                                decreases stack@.len(),
                            {
                                let to_close = match stack.pop() {
                                    Some(v) => v,
                                    None => {
                                        break;
                                    },
                                };
                                profile.close_frame(to_close);
                            }
                        },
                        None => {
                            to_open.push(incoming);
                            lca = parent_get(&parent_by_id, incoming);
                        },
                    }
                    if lca.is_none() {
                        break;
                    }
                }
                if to_open.len() == 0 {
                    let top_matches = stack.len() > 0 && stack[stack.len() - 1] == node_id;
                    if top_matches {
                        profile.append_frame(node_id, weight);
                    } else {
                        match node_by_id_get(&node_by_id, node_id) {
                            Some(node) => {
                                profile.open_frame(node_id, Frame::of(&node.call_frame), weight);
                                profile.close_frame(node_id);
                            },
                            None => {},
                        }
                    }
                } else {
                    let mut oi: usize = to_open.len();
                    while oi > 0
                        invariant
                            oi <= to_open@.len(),
                            profile.wf(),
                            frames_indexed(profile@),
                            profile@.samples.len() == profile@.weights.len(),
                            profile@.name == self.thread_name@,
                        decreases oi,
                    {
                        oi -= 1;
                        let open_id = to_open[oi];
                        match node_by_id_get(&node_by_id, open_id) {
                            Some(node) => {
                                stack.push(open_id);
                                let w: u32 = if open_id == node_id {
                                    weight
                                } else {
                                    0
                                };
                                profile.open_frame(open_id, Frame::of(&node.call_frame), w);
                            },
                            None => {},
                        }
                    }
                }
            }
            node_id = next_node_id;
        }
        let mut ci: usize = stack.len();
        while ci > 0
            invariant
                ci <= stack@.len(),
                profile.wf(),
                frames_indexed(profile@),
                profile@.samples.len() == profile@.weights.len(),
                profile@.name == self.thread_name@,
            decreases ci,
        {
            ci -= 1;
            profile.close_frame(stack[ci]);
        }
        let ghost pre_assign = profile@;
        profile.start_value = start_time;
        proof {
            assert(profile@.samples =~= pre_assign.samples);
            assert(profile@.frames =~= pre_assign.frames);
            assert(profile@.frame_index_by_key =~= pre_assign.frame_index_by_key);
            assert(profile@.stack == pre_assign.stack);
        }
        let end_val: u64 = if elapsed < 0 {
            start_time
        } else {
            let e64 = elapsed as u64;
            if e64 <= u64::MAX - start_time {
                e64 + start_time
            } else {
                u64::MAX
            }
        };
        profile.end(end_val);
        proof {
            assert(profile@.name == self.thread_name@);
            if hyp {
                let e = sorted_v.last().1;
                assert(elapsed == e);
                lemma_pair_transfer(z, sorted_v, sorted_v.len() - 1);
                let k = choose|k: int| 0 <= k < z.len() && z[k] == sorted_v.last();
                assert(z[k] == (samples@[k], spec_cumulative(time_deltas@, k + 1)));
                assert(e == spec_cumulative(time_deltas@, k + 1));
                assert(1 <= k + 1 <= m);
                assert forall|j: int|
                    1 <= j <= m implies spec_cumulative(time_deltas@, j) <= e by {
                    assert(z[j - 1] == (samples@[j - 1], spec_cumulative(time_deltas@, j)));
                    lemma_pair_transfer(sorted_v, z, j - 1);
                    let u = choose|u: int| 0 <= u < sorted_v.len() && sorted_v[u] == z[j - 1];
                    if u < sorted_v.len() - 1 {
                        assert(sorted_v[u].1 <= sorted_v[sorted_v.len() - 1].1);
                    }
                }
                assert(profile@.end_value == spec_end_time(start_time, e));
                assert(time_deltas@ == self.time_deltas@);
                assert(samples@ == self.samples@);
            }
        }
        Ok(profile)
    }
}

/// Position of the first grouped profile that belongs to the renderer
/// main thread, if any.
pub open spec fn spec_first_renderer(ps: Seq<ChromeProfile>) -> Option<int>
    decreases ps.len(),
{
    if ps.len() == 0 {
        None
    } else if ps[0].thread_name@ == "CrRendererMain"@ {
        Some(0int)
    } else {
        match spec_first_renderer(ps.drop_first()) {
            Some(i) => Some(i + 1),
            None => None,
        }
    }
}

/// When the first `k` profiles are not the renderer main thread, the first
/// match of the whole list is the first match of the rest, shifted.
proof fn lemma_first_renderer_skip(ps: Seq<ChromeProfile>, k: int)
    requires
        0 <= k <= ps.len(),
        forall|j: int| 0 <= j < k ==> (#[trigger] ps[j]).thread_name@ != "CrRendererMain"@,
    ensures
        spec_first_renderer(ps) == match spec_first_renderer(ps.skip(k)) {
            Some(i) => Some(i + k),
            None => None,
        },
    decreases k,
{
    if k == 0 {
        assert(ps.skip(0) =~= ps);
    } else {
        assert(ps[0].thread_name@ != "CrRendererMain"@);
        assert(ps.drop_first().skip(k - 1) =~= ps.skip(k));
        assert forall|j: int| 0 <= j < k - 1 implies (#[trigger] ps.drop_first()[j]).thread_name@
            != "CrRendererMain"@ by {
            assert(ps.drop_first()[j] == ps[j + 1]);
        }
        lemma_first_renderer_skip(ps.drop_first(), k - 1);
    }
}

/// The *first* grouped profile of the renderer main thread, converted to a
/// call-tree profile; refused with `MissingMainThread` exactly when no
/// grouped profile belongs to that thread, and with `NonNode` exactly when
/// the first matching one holds no nodes, samples or time deltas.  On
/// success the conversion's guarantees pass through unchanged.
pub fn load_chrome_main_thread_profile(profiles: Vec<ChromeProfile>) -> (r: Result<
    Profile,
    ProfileError,
>)
    ensures
        spec_first_renderer(profiles@) is None <==> r == Result::<Profile, ProfileError>::Err(
            ProfileError::MissingMainThread,
        ),
        spec_first_renderer(profiles@) matches Some(i) ==> ({
            let p = profiles@[i];
            &&& ((p.nodes@.len() == 0 || p.time_deltas@.len() == 0 || p.samples@.len() == 0)
                <==> r is Err)
            &&& (r matches Err(e) ==> e == ProfileError::NonNode)
            &&& (r matches Ok(q) ==> q.wf() && q@.name == "CrRendererMain"@ && q@.start_value
                == p.start_time && q@.samples.len() == q@.weights.len() && frames_indexed(q@)
                && q@.stack == Seq::<CallTreeNode>::empty())
        }),
{
    let ghost orig = profiles@;
    let mut rest = profiles;
    let total = rest.len();
    let mut k: usize = 0;
    while rest.len() > 0
        invariant
            orig == profiles@,
            orig.len() == total,
            orig.len() == k + rest@.len(),
            rest@ == orig.skip(k as int),
            forall|j: int| 0 <= j < k ==> (#[trigger] orig[j]).thread_name@ != "CrRendererMain"@,
        decreases rest@.len(),
    {
        let p = rest.remove(0);
        proof {
            assert(p == orig[k as int]);
            assert(rest@ =~= orig.skip(k as int + 1));
        }
        if str_eq(p.thread_name.as_str(), "CrRendererMain") {
            proof {
                lemma_first_renderer_skip(orig, k as int);
                assert(spec_first_renderer(orig.skip(k as int)) == Some(0int));
                assert(spec_first_renderer(orig) == Some(k as int));
            }
            return p.to_profile();
        }
        k += 1;
    }
    proof {
        assert(orig.skip(k as int) =~= Seq::<ChromeProfile>::empty());
        lemma_first_renderer_skip(orig, k as int);
    }
    Err(ProfileError::MissingMainThread)
}

} // verus!
