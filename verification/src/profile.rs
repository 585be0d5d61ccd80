//! Sampled call-tree profiles: stack frames, the profile built from Chrome
//! trace events, and the call/sample walks that the analysis rules consume.

use vstd::prelude::*;
use vstd::string::{StringExecFns, StrSliceExecFns};
use crate::numfmt::{spec_decimal, u32_to_string};
use crate::strutil::str_eq;

verus! {

/// Saturating 32-bit addition: weight accumulation sticks at the type bound
/// instead of wrapping.
pub open spec fn spec_sat_add(a: u32, b: u32) -> u32 {
    if a + b > u32::MAX {
        u32::MAX
    } else {
        (a + b) as u32
    }
}

/// Exec counterpart of `spec_sat_add`.
pub fn sat_add(a: u32, b: u32) -> (r: u32)
    ensures
        r == spec_sat_add(a, b),
{
    if a <= u32::MAX - b {
        a + b
    } else {
        u32::MAX
    }
}

/// Mathematical image of an optional string field.
pub open spec fn opt_str_view(o: Option<String>) -> Option<Seq<char>> {
    match o {
        Some(s) => Some(s@),
        None => None,
    }
}

/// Mathematical image of one stack frame.
pub ghost struct FrameView {
    pub key: Seq<char>,
    pub name: Seq<char>,
    pub file: Seq<char>,
    pub line: Option<u32>,
    pub col: Option<u32>,
    pub bundle_hash: Option<Seq<char>>,
    pub sourced: bool,
    pub origin_script_file: Seq<char>,
    pub node_module: Option<Seq<char>>,
}

/// One stack frame of a profile: the display key, function name, source
/// file and position, plus what source-map recovery filled in (whether the
/// frame was sourced, the script file it came from and the node module it
/// belongs to, if any).
pub struct Frame {
    pub key: String,
    pub name: String,
    pub file: String,
    pub line: Option<u32>,
    pub col: Option<u32>,
    pub bundle_hash: Option<String>,
    pub sourced: bool,
    pub origin_script_file: String,
    pub node_module: Option<String>,
}

impl View for Frame {
    type V = FrameView;

    open spec fn view(&self) -> FrameView {
        FrameView {
            key: self.key@,
            name: self.name@,
            file: self.file@,
            line: self.line,
            col: self.col,
            bundle_hash: opt_str_view(self.bundle_hash),
            sourced: self.sourced,
            origin_script_file: self.origin_script_file@,
            node_module: opt_str_view(self.node_module),
        }
    }
}

/// Copy of an optional string.
pub fn copy_opt_string(o: &Option<String>) -> (r: Option<String>)
    ensures
        opt_str_view(r) == opt_str_view(*o),
{
    match o {
        Some(s) => Some(s.clone()),
        None => None,
    }
}

impl Clone for Frame {
    fn clone(&self) -> (res: Self)
        ensures
            res@ == self@,
    {
        Frame {
            key: self.key.clone(),
            name: self.name.clone(),
            file: self.file.clone(),
            line: self.line,
            col: self.col,
            bundle_hash: copy_opt_string(&self.bundle_hash),
            sourced: self.sourced,
            origin_script_file: self.origin_script_file.clone(),
            node_module: copy_opt_string(&self.node_module),
        }
    }
}

impl Default for Frame {
    /// The empty frame: every string empty, no position, not sourced.
    fn default() -> (r: Self)
        ensures
            r@.key == Seq::<char>::empty(),
            r@.name == Seq::<char>::empty(),
            r@.file == Seq::<char>::empty(),
            r@.line is None,
            r@.col is None,
            r@.bundle_hash is None,
            r@.sourced == false,
            r@.origin_script_file == Seq::<char>::empty(),
            r@.node_module is None,
    {
        Frame {
            key: String::new(),
            name: String::new(),
            file: String::new(),
            line: None,
            col: None,
            bundle_hash: None,
            sourced: false,
            origin_script_file: String::new(),
            node_module: None,
        }
    }
}

/// The digits of an optional position: the number itself, or `0` when it is
/// absent.
pub open spec fn spec_opt_num(v: Option<u32>) -> Seq<char> {
    match v {
        Some(n) => spec_decimal(n as nat),
        None => seq!['0'],
    }
}

/// The display key of a frame: `name:file:line:col`, with `0` for missing
/// positions.
pub open spec fn spec_latest_key(f: FrameView) -> Seq<char> {
    f.name + seq![':'] + f.file + seq![':'] + spec_opt_num(f.line) + seq![':'] + spec_opt_num(
        f.col,
    )
}

/// The digits of an optional position, as a string.
fn opt_num_string(v: &Option<u32>) -> (r: String)
    ensures
        r@ == spec_opt_num(*v),
{
    match v {
        Some(n) => u32_to_string(*n),
        None => {
            let r = String::from_str("0");
            proof {
                reveal_strlit("0");
                assert(r@ =~= seq!['0']);
            }
            r
        },
    }
}

impl Frame {
    /// The key that the frame's current fields yield.
    pub fn latest_key(&self) -> (r: String)
        ensures
            r@ == spec_latest_key(self@),
    {
        let mut s = String::new();
        s.append(self.name.as_str());
        s.append(":");
        s.append(self.file.as_str());
        s.append(":");
        let line = opt_num_string(&self.line);
        s.append(line.as_str());
        s.append(":");
        let col = opt_num_string(&self.col);
        s.append(col.as_str());
        proof {
            reveal_strlit(":");
            assert(s@ =~= spec_latest_key(self@));
        }
        s
    }

    /// Refresh the stored key from the current fields.
    pub fn update_key(&mut self)
        ensures
            final(self)@ == (FrameView { key: spec_latest_key(old(self)@), ..old(self)@ }),
    {
        self.key = self.latest_key();
    }
}

/// What a frame-like record exposes so that a `Frame` can be built from it.
pub trait ToFrame {
    fn key(&self) -> String;

    fn name(&self) -> String;

    fn file(&self) -> String;

    fn line(&self) -> Option<u32>;

    fn col(&self) -> Option<u32>;
}

impl Frame {
    /// Build a frame from any frame-like record; the remaining fields take
    /// their defaults, and the origin script file starts as the record's
    /// file.
    pub fn of<T: ToFrame>(t: &T) -> (r: Frame)
        ensures
            r@.bundle_hash is None,
            r@.sourced == false,
            r@.node_module is None,
    {
        Frame {
            key: t.key(),
            name: t.name(),
            file: t.file(),
            line: t.line(),
            col: t.col(),
            bundle_hash: None,
            sourced: false,
            origin_script_file: t.file(),
            node_module: None,
        }
    }
}

/// One node of the call tree being rebuilt from samples.
#[derive(Clone, Copy, PartialEq, Eq, Structural, Debug)]
pub struct CallTreeNode {
    pub node_id: u32,
    pub frame_index: usize,
    pub self_weight: u32,
    pub total_weight: u32,
}

/// Mathematical image of a profile.
pub ghost struct ProfileView {
    pub name: Seq<char>,
    pub start_value: u64,
    pub end_value: u64,
    pub frame_index_by_key: Seq<(Seq<char>, usize)>,
    pub stack: Seq<CallTreeNode>,
    pub frames: Seq<FrameView>,
    pub samples: Seq<Seq<usize>>,
    pub weights: Seq<u32>,
}

/// A sampled profile: the interned frames, one sample per snapshot (a stack
/// of frame indices, innermost last) and the weight of each sample in
/// microseconds.  `frame_index_by_key` and `stack` are working state used
/// while a profile is being built from trace events.
pub struct Profile {
    pub name: String,
    pub start_value: u64,
    pub end_value: u64,
    pub frame_index_by_key: Vec<(String, usize)>,
    pub stack: Vec<CallTreeNode>,
    pub frames: Vec<Frame>,
    pub samples: Vec<Vec<usize>>,
    pub weights: Vec<u32>,
}

impl View for Profile {
    type V = ProfileView;

    open spec fn view(&self) -> ProfileView {
        ProfileView {
            name: self.name@,
            start_value: self.start_value,
            end_value: self.end_value,
            frame_index_by_key: Seq::new(
                self.frame_index_by_key@.len(),
                |i: int| (self.frame_index_by_key@[i].0@, self.frame_index_by_key@[i].1),
            ),
            stack: self.stack@,
            frames: Seq::new(self.frames@.len(), |i: int| self.frames@[i]@),
            samples: Seq::new(self.samples@.len(), |i: int| self.samples@[i]@),
            weights: self.weights@,
        }
    }
}

/// Every sample index points at an interned frame.
pub open spec fn samples_wf(p: ProfileView) -> bool {
    forall|i: int, j: int|
        0 <= i < p.samples.len() && 0 <= j < p.samples[i].len() ==> p.samples[i][j]
            < p.frames.len()
}

/// Every working-stack node points at an interned frame.
pub open spec fn stack_wf(p: ProfileView) -> bool {
    forall|i: int| 0 <= i < p.stack.len() ==> (#[trigger] p.stack[i]).frame_index < p.frames.len()
}

/// The intern table lists exactly the interned frames: entry `i` binds the
/// key of frame `i` to index `i`, and frame keys are pairwise distinct.
pub open spec fn frames_indexed(p: ProfileView) -> bool {
    &&& p.frame_index_by_key == Seq::new(p.frames.len(), |i: int| (p.frames[i].key, i as usize))
    &&& forall|i: int, j: int| 0 <= i < j < p.frames.len() ==> p.frames[i].key != p.frames[j].key
}

/// Every interned key points at an interned frame.
pub open spec fn index_wf(p: ProfileView) -> bool {
    forall|i: int|
        0 <= i < p.frame_index_by_key.len() ==> (#[trigger] p.frame_index_by_key[i]).1
            < p.frames.len()
}

impl Profile {
    /// The profile's internal consistency: all stored indices point at
    /// interned frames.
    pub open spec fn wf(&self) -> bool {
        samples_wf(self@) && stack_wf(self@) && index_wf(self@)
    }

    /// An empty, named profile.
    pub fn new(name: String) -> (r: Self)
        ensures
            r@.name == name@,
            r@.start_value == 0,
            r@.end_value == 0,
            r@.frame_index_by_key == Seq::<(Seq<char>, usize)>::empty(),
            r@.stack == Seq::<CallTreeNode>::empty(),
            r@.frames == Seq::<FrameView>::empty(),
            r@.samples == Seq::<Seq<usize>>::empty(),
            r@.weights == Seq::<u32>::empty(),
            r.wf(),
            frames_indexed(r@),
    {
        let r = Profile {
            name,
            start_value: 0,
            end_value: 0,
            frame_index_by_key: Vec::new(),
            stack: Vec::new(),
            frames: Vec::new(),
            samples: Vec::new(),
            weights: Vec::new(),
        };
        proof {
            assert(r@.frame_index_by_key =~= Seq::<(Seq<char>, usize)>::empty());
            assert(r@.frames =~= Seq::<FrameView>::empty());
            assert(r@.samples =~= Seq::<Seq<usize>>::empty());
            assert(r@.frame_index_by_key =~= Seq::new(
                r@.frames.len(),
                |i: int| (r@.frames[i].key, i as usize),
            ));
        }
        r
    }

    /// The samples paired up with their weights, in order; a surplus of
    /// samples or weights beyond the shorter list is dropped, as zipping
    /// does.
    pub fn for_each_sample(&self) -> (r: Vec<(Vec<usize>, u32)>)
        ensures
            r@.len() == if self@.samples.len() <= self@.weights.len() {
                self@.samples.len()
            } else {
                self@.weights.len()
            },
            forall|i: int|
                0 <= i < r@.len() ==> (#[trigger] r@[i]).0@ == self@.samples[i] && r@[i].1
                    == self@.weights[i],
    {
        let mut r: Vec<(Vec<usize>, u32)> = Vec::new();
        let mut i: usize = 0;
        while i < self.samples.len() && i < self.weights.len()
            invariant
                i <= self.samples@.len(),
                i <= self.weights@.len(),
                i < self.samples@.len() || i < self.weights@.len() || (i == self.samples@.len()
                    && self@.samples.len() <= self@.weights.len()) || (i == self.weights@.len()
                    && self@.weights.len() <= self@.samples.len()),
                r@.len() == i,
                forall|j: int|
                    0 <= j < i ==> (#[trigger] r@[j]).0@ == self@.samples[j] && r@[j].1
                        == self@.weights[j],
            decreases self.samples@.len() - i,
        {
            let sample = vstd::slice::slice_to_vec(self.samples[i].as_slice());
            r.push((sample, self.weights[i]));
            i += 1;
        }
        r
    }
}

/// One step of walking the call tree that the samples describe: a frame is
/// entered, or left with its (self weight, total weight) pair.
#[derive(Clone, Copy, PartialEq, Eq, Structural, Debug)]
pub enum CallEvent {
    Enter(usize),
    Close(usize, u32, u32),
}

/// The event's frame index points at an interned frame.
pub open spec fn event_in_range(e: CallEvent, n: nat) -> bool {
    match e {
        CallEvent::Enter(i) => i < n,
        CallEvent::Close(i, _, _) => i < n,
    }
}

/// How many frames the events enter.
pub open spec fn count_enters(es: Seq<CallEvent>) -> nat
    decreases es.len(),
{
    if es.len() == 0 {
        0
    } else {
        count_enters(es.drop_last()) + (if es.last() is Enter {
            1nat
        } else {
            0nat
        })
    }
}

/// How many frames the events close.
pub open spec fn count_closes(es: Seq<CallEvent>) -> nat
    decreases es.len(),
{
    if es.len() == 0 {
        0
    } else {
        count_closes(es.drop_last()) + (if es.last() is Close {
            1nat
        } else {
            0nat
        })
    }
}

/// A close event never reports more self weight than total weight.
pub open spec fn close_weights_ok(e: CallEvent) -> bool {
    match e {
        CallEvent::Close(_, sw, tw) => sw <= tw,
        CallEvent::Enter(_) => true,
    }
}

/// How many leading stack nodes the sample keeps open: the longest common
/// prefix of the sample and the stack's frame indices.
pub open spec fn spec_lca(s: Seq<usize>, st: Seq<CallTreeNode>) -> int
    decreases st.len(),
{
    if s.len() == 0 || st.len() == 0 {
        0
    } else if s[0] == st[0].frame_index {
        1 + spec_lca(s.drop_first(), st.drop_first())
    } else {
        0
    }
}

/// The close events leaving the stack top-down until `k` nodes remain.
pub open spec fn spec_closes(st: Seq<CallTreeNode>, k: int) -> Seq<CallEvent>
    decreases st.len(),
{
    if st.len() <= k || st.len() == 0 {
        Seq::empty()
    } else {
        seq![
            CallEvent::Close(st.last().frame_index, st.last().self_weight, st.last().total_weight),
        ] + spec_closes(st.drop_last(), k)
    }
}

/// The nodes a sample opens above position `k`: each carries its frame
/// index and the sample's weight, the innermost one also as self weight.
pub open spec fn spec_opened(s: Seq<usize>, k: int, w: u32) -> Seq<CallTreeNode> {
    Seq::new(
        (if k <= s.len() {
            s.len() - k
        } else {
            0
        }) as nat,
        |j: int| CallTreeNode {
            node_id: 0,
            frame_index: s[k + j],
            self_weight: if k + j == s.len() - 1 {
                w
            } else {
                0u32
            },
            total_weight: w,
        },
    )
}

/// The enter events of the frames a sample opens above position `k`.
pub open spec fn spec_enters(s: Seq<usize>, k: int) -> Seq<CallEvent> {
    Seq::new(
        (if k <= s.len() {
            s.len() - k
        } else {
            0
        }) as nat,
        |j: int| CallEvent::Enter(s[k + j]),
    )
}

/// One sample of the call walk: weight the kept prefix, close what the
/// sample left, open what it added.
pub open spec fn spec_call_step(
    es: Seq<CallEvent>,
    st: Seq<CallTreeNode>,
    s: Seq<usize>,
    w: u32,
) -> (Seq<CallEvent>, Seq<CallTreeNode>) {
    let k = spec_lca(s, st);
    (
        es + spec_closes(st, k) + spec_enters(s, k),
        Profile::spec_weighted(st.take(k), w) + spec_opened(s, k, w),
    )
}

/// The events and stack of the call walk after its first `upto` samples.
pub open spec fn spec_call_state(
    samples: Seq<Seq<usize>>,
    weights: Seq<u32>,
    upto: int,
) -> (Seq<CallEvent>, Seq<CallTreeNode>)
    decreases upto,
{
    if upto <= 0 {
        (Seq::empty(), Seq::empty())
    } else {
        let prev = spec_call_state(samples, weights, upto - 1);
        spec_call_step(prev.0, prev.1, samples[upto - 1], weights[upto - 1])
    }
}

/// Every event of the whole call walk: the walk over all zipped samples,
/// then the closes draining what stayed open.
pub open spec fn spec_call_events(samples: Seq<Seq<usize>>, weights: Seq<u32>) -> Seq<CallEvent> {
    let m = if samples.len() <= weights.len() {
        samples.len() as int
    } else {
        weights.len() as int
    };
    let fin = spec_call_state(samples, weights, m);
    fin.0 + spec_closes(fin.1, 0)
}

/// `spec_lca` is the scan that stops at the first mismatch or bound.
proof fn lemma_lca_characterize(s: Seq<usize>, st: Seq<CallTreeNode>, l: int)
    requires
        0 <= l <= s.len(),
        l <= st.len(),
        forall|i: int| 0 <= i < l ==> s[i] == st[i].frame_index,
        l == s.len() || l == st.len() || s[l] != st[l].frame_index,
    ensures
        spec_lca(s, st) == l,
    decreases l,
{
    if l == 0 {
    } else {
        assert(s[0] == st[0].frame_index);
        assert forall|i: int| 0 <= i < l - 1 implies s.drop_first()[i] == st.drop_first()[
            i
        ].frame_index by {
            assert(s.drop_first()[i] == s[i + 1]);
        }
        if l < s.len() && l < st.len() {
            assert(s.drop_first()[l - 1] == s[l]);
            assert(st.drop_first()[l - 1] == st[l]);
        }
        lemma_lca_characterize(s.drop_first(), st.drop_first(), l - 1);
    }
}

/// Closing one more node extends the close list at its end.
proof fn lemma_closes_unroll(st: Seq<CallTreeNode>, j: int)
    requires
        0 <= j < st.len(),
    ensures
        spec_closes(st, j) == spec_closes(st, j + 1).push(
            CallEvent::Close(st[j].frame_index, st[j].self_weight, st[j].total_weight),
        ),
    decreases st.len(),
{
    if j == st.len() - 1 {
        assert(spec_closes(st.drop_last(), j) =~= Seq::<CallEvent>::empty());
        assert(spec_closes(st, j + 1) =~= Seq::<CallEvent>::empty());
        assert(spec_closes(st, j) =~= spec_closes(st, j + 1).push(
            CallEvent::Close(st[j].frame_index, st[j].self_weight, st[j].total_weight),
        ));
    } else {
        lemma_closes_unroll(st.drop_last(), j);
        assert(st.drop_last()[j] == st[j]);
        assert(spec_closes(st, j) =~= spec_closes(st, j + 1).push(
            CallEvent::Close(st[j].frame_index, st[j].self_weight, st[j].total_weight),
        ));
    }
}

impl Profile {
    /// Walk the samples as a call tree, in order: entering a frame yields
    /// `Enter`, leaving one yields `Close` with its accumulated self and
    /// total weights.  Shared stack prefixes between consecutive samples
    /// stay open and accumulate weight; weights saturate at the type bound.
    /// Every entered frame is closed again, and no close reports more self
    /// weight than total weight.
    pub fn for_each_call(&self) -> (r: Vec<CallEvent>)
        requires
            samples_wf(self@),
        ensures
            r@ == spec_call_events(self@.samples, self@.weights),
            forall|i: int|
                0 <= i < r@.len() ==> event_in_range(#[trigger] r@[i], self@.frames.len()),
            count_enters(r@) == count_closes(r@),
            forall|i: int| 0 <= i < r@.len() ==> close_weights_ok(#[trigger] r@[i]),
    {
        let ghost nf = self@.frames.len();
        let ghost m: int = if self@.samples.len() <= self@.weights.len() {
            self@.samples.len() as int
        } else {
            self@.weights.len() as int
        };
        let mut events: Vec<CallEvent> = Vec::new();
        let mut stack: Vec<CallTreeNode> = Vec::new();
        let mut si: usize = 0;
        proof {
            assert(events@ =~= Seq::<CallEvent>::empty());
            assert(stack@ =~= Seq::<CallTreeNode>::empty());
        }
        while si < self.samples.len() && si < self.weights.len()
            invariant
                samples_wf(self@),
                nf == self@.frames.len(),
                m == if self@.samples.len() <= self@.weights.len() {
                    self@.samples.len() as int
                } else {
                    self@.weights.len() as int
                },
                si <= m,
                si < self.samples@.len() || si < self.weights@.len() || si == m,
                (events@, stack@) == spec_call_state(self@.samples, self@.weights, si as int),
                si <= self.samples@.len(),
                forall|t: int| 0 <= t < stack@.len() ==> (#[trigger] stack@[t]).frame_index < nf,
                forall|t: int| 0 <= t < stack@.len() ==> (#[trigger] stack@[t]).self_weight <= stack@[t].total_weight,
                forall|t: int| 0 <= t < events@.len() ==> event_in_range(#[trigger] events@[t], nf),
                forall|t: int| 0 <= t < events@.len() ==> close_weights_ok(#[trigger] events@[t]),
                count_enters(events@) == count_closes(events@) + stack@.len(),
            decreases self.samples@.len() - si,
        {
            let sample = &self.samples[si];
            let weight = self.weights[si];
            let ghost es0 = events@;
            let ghost st0 = stack@;
            proof {
                assert(sample@ == self@.samples[si as int]);
                assert(st0.take(0) =~= Seq::<CallTreeNode>::empty());
                assert(st0.skip(0) =~= st0);
                assert(stack@ =~= Self::spec_weighted(st0.take(0), weight) + st0.skip(0));
            }
            let mut lca: usize = 0;
            while lca < sample.len() && lca < stack.len()
                invariant
                    samples_wf(self@),
                    nf == self@.frames.len(),
                    si < self.samples@.len(),
                    si < self.weights@.len(),
                    sample@ == self@.samples[si as int],
                    weight == self@.weights[si as int],
                    (es0, st0) == spec_call_state(self@.samples, self@.weights, si as int),
                    events@ == es0,
                    lca <= st0.len(),
                    stack@ == Self::spec_weighted(st0.take(lca as int), weight) + st0.skip(
                        lca as int,
                    ),
                    stack@.len() == st0.len(),
                    forall|i: int| 0 <= i < lca ==> sample@[i] == st0[i].frame_index,
                    lca <= stack@.len(),
                    lca <= sample@.len(),
                    forall|t: int| 0 <= t < stack@.len() ==> (#[trigger] stack@[t]).frame_index
                        < nf,
                    forall|t: int| 0 <= t < stack@.len() ==> (#[trigger] stack@[t]).self_weight
                        <= stack@[t].total_weight,
                    forall|t: int| 0 <= t < events@.len() ==> event_in_range(
                        #[trigger] events@[t],
                        nf,
                    ),
                    forall|t: int| 0 <= t < events@.len() ==> close_weights_ok(
                        #[trigger] events@[t],
                    ),
                    count_enters(events@) == count_closes(events@) + stack@.len(),
                ensures
                    events@ == es0,
                    lca <= st0.len(),
                    lca <= sample@.len(),
                    stack@ == Self::spec_weighted(st0.take(lca as int), weight) + st0.skip(
                        lca as int,
                    ),
                    stack@.len() == st0.len(),
                    forall|i: int| 0 <= i < lca ==> sample@[i] == st0[i].frame_index,
                    lca == sample@.len() || lca == st0.len() || sample@[lca as int] != st0[
                        lca as int
                    ].frame_index,
                    forall|t: int| 0 <= t < stack@.len() ==> (#[trigger] stack@[t]).frame_index
                        < nf,
                    forall|t: int| 0 <= t < stack@.len() ==> (#[trigger] stack@[t]).self_weight
                        <= stack@[t].total_weight,
                    count_enters(events@) == count_closes(events@) + stack@.len(),
                decreases stack@.len() - lca,
            {
                proof {
                    assert(stack@[lca as int] == st0.skip(lca as int)[0]);
                    assert(stack@[lca as int] == st0[lca as int]);
                }
                if sample[lca] == stack[lca].frame_index {
                    let node = stack[lca];
                    stack.set(
                        lca,
                        CallTreeNode { total_weight: sat_add(node.total_weight, weight), ..node },
                    );
                    proof {
                        assert(stack@ =~= Self::spec_weighted(st0.take(lca as int + 1), weight)
                            + st0.skip(lca as int + 1));
                    }
                    lca += 1;
                } else {
                    break;
                }
            }
            proof {
                lemma_lca_characterize(sample@, st0, lca as int);
                assert(spec_closes(st0, st0.len() as int) =~= Seq::<CallEvent>::empty());
                assert(events@ =~= es0 + spec_closes(st0, stack@.len() as int));
                assert(stack@ =~= Self::spec_weighted(st0.take(lca as int), weight)
                    + st0.subrange(lca as int, stack@.len() as int));
            }
            while stack.len() > lca
                invariant
                    samples_wf(self@),
                    nf == self@.frames.len(),
                    si < self.samples@.len(),
                    si < self.weights@.len(),
                    sample@ == self@.samples[si as int],
                    weight == self@.weights[si as int],
                    (es0, st0) == spec_call_state(self@.samples, self@.weights, si as int),
                    lca as int == spec_lca(sample@, st0),
                    lca <= st0.len(),
                    lca <= stack@.len(),
                    stack@.len() <= st0.len(),
                    stack@ == Self::spec_weighted(st0.take(lca as int), weight) + st0.subrange(
                        lca as int,
                        stack@.len() as int,
                    ),
                    events@ == es0 + spec_closes(st0, stack@.len() as int),
                    lca <= sample@.len(),
                    forall|t: int| 0 <= t < stack@.len() ==> (#[trigger] stack@[t]).frame_index
                        < nf,
                    forall|t: int| 0 <= t < stack@.len() ==> (#[trigger] stack@[t]).self_weight
                        <= stack@[t].total_weight,
                    forall|t: int| 0 <= t < events@.len() ==> event_in_range(
                        #[trigger] events@[t],
                        nf,
                    ),
                    forall|t: int| 0 <= t < events@.len() ==> close_weights_ok(
                        #[trigger] events@[t],
                    ),
                    count_enters(events@) == count_closes(events@) + stack@.len(),
                ensures
                    stack@.len() == lca,
                    stack@ == Self::spec_weighted(st0.take(lca as int), weight) + st0.subrange(
                        lca as int,
                        stack@.len() as int,
                    ),
                    events@ == es0 + spec_closes(st0, stack@.len() as int),
                    forall|t: int| 0 <= t < stack@.len() ==> (#[trigger] stack@[t]).frame_index
                        < nf,
                    forall|t: int| 0 <= t < stack@.len() ==> (#[trigger] stack@[t]).self_weight
                        <= stack@[t].total_weight,
                    forall|t: int| 0 <= t < events@.len() ==> event_in_range(
                        #[trigger] events@[t],
                        nf,
                    ),
                    forall|t: int| 0 <= t < events@.len() ==> close_weights_ok(
                        #[trigger] events@[t],
                    ),
                    count_enters(events@) == count_closes(events@) + stack@.len(),
                decreases stack@.len(),
            {
                let ghost pre_len = stack@.len() as int;
                proof {
                    assert(stack@.last() == st0[pre_len - 1]);
                }
                match stack.pop() {
                    Some(top) => {
                        let ghost pre_events = events@;
                        events.push(
                            CallEvent::Close(top.frame_index, top.self_weight, top.total_weight),
                        );
                        proof {
                            assert(events@.drop_last() =~= pre_events);
                            lemma_closes_unroll(st0, pre_len - 1);
                            assert(events@ =~= es0 + spec_closes(st0, pre_len - 1));
                            assert(stack@ =~= Self::spec_weighted(st0.take(lca as int), weight)
                                + st0.subrange(lca as int, stack@.len() as int));
                        }
                    },
                    None => {
                        break;
                    },
                }
            }
            proof {
                assert(stack@.len() == lca);
                assert(stack@ =~= Self::spec_weighted(st0.take(lca as int), weight));
                assert(spec_opened(sample@, lca as int, weight).take(0) =~= Seq::<
                    CallTreeNode,
                >::empty());
                assert(spec_enters(sample@, lca as int).take(0) =~= Seq::<CallEvent>::empty());
                assert(events@ =~= es0 + spec_closes(st0, lca as int) + spec_enters(
                    sample@,
                    lca as int,
                ).take(0));
                assert(stack@ =~= Self::spec_weighted(st0.take(lca as int), weight) + spec_opened(
                    sample@,
                    lca as int,
                    weight,
                ).take(0));
            }
            let mut to_open: usize = lca;
            while to_open < sample.len()
                invariant
                    samples_wf(self@),
                    nf == self@.frames.len(),
                    si < self.samples@.len(),
                    si < self.weights@.len(),
                    sample@ == self@.samples[si as int],
                    weight == self@.weights[si as int],
                    (es0, st0) == spec_call_state(self@.samples, self@.weights, si as int),
                    lca as int == spec_lca(sample@, st0),
                    lca <= st0.len(),
                    lca <= to_open,
                    stack@ == Self::spec_weighted(st0.take(lca as int), weight) + spec_opened(
                        sample@,
                        lca as int,
                        weight,
                    ).take(to_open - lca),
                    events@ == es0 + spec_closes(st0, lca as int) + spec_enters(
                        sample@,
                        lca as int,
                    ).take(to_open - lca),
                    to_open <= sample@.len(),
                    forall|t: int| 0 <= t < stack@.len() ==> (#[trigger] stack@[t]).frame_index
                        < nf,
                    forall|t: int| 0 <= t < stack@.len() ==> (#[trigger] stack@[t]).self_weight
                        <= stack@[t].total_weight,
                    forall|t: int| 0 <= t < events@.len() ==> event_in_range(
                        #[trigger] events@[t],
                        nf,
                    ),
                    forall|t: int| 0 <= t < events@.len() ==> close_weights_ok(
                        #[trigger] events@[t],
                    ),
                    count_enters(events@) == count_closes(events@) + stack@.len(),
                decreases sample@.len() - to_open,
            {
                let frame_index = sample[to_open];
                proof {
                    assert(self@.samples[si as int][to_open as int] < nf);
                }
                let self_w: u32 = if to_open + 1 == sample.len() {
                    weight
                } else {
                    0
                };
                stack.push(
                    CallTreeNode { node_id: 0, frame_index, self_weight: self_w, total_weight: weight },
                );
                let ghost pre_events = events@;
                events.push(CallEvent::Enter(frame_index));
                proof {
                    assert(events@.drop_last() =~= pre_events);
                    assert(spec_opened(sample@, lca as int, weight)[to_open - lca]
                        == CallTreeNode {
                        node_id: 0,
                        frame_index,
                        self_weight: self_w,
                        total_weight: weight,
                    });
                    assert(spec_enters(sample@, lca as int)[to_open - lca] == CallEvent::Enter(
                        frame_index,
                    ));
                    assert(stack@ =~= Self::spec_weighted(st0.take(lca as int), weight)
                        + spec_opened(sample@, lca as int, weight).take(to_open - lca + 1));
                    assert(events@ =~= es0 + spec_closes(st0, lca as int) + spec_enters(
                        sample@,
                        lca as int,
                    ).take(to_open - lca + 1));
                }
                to_open += 1;
            }
            proof {
                assert(spec_opened(sample@, lca as int, weight).take(to_open - lca)
                    =~= spec_opened(sample@, lca as int, weight));
                assert(spec_enters(sample@, lca as int).take(to_open - lca) =~= spec_enters(
                    sample@,
                    lca as int,
                ));
                assert((events@, stack@) == spec_call_step(es0, st0, sample@, weight));
                assert((events@, stack@) == spec_call_state(
                    self@.samples,
                    self@.weights,
                    si as int + 1,
                ));
            }
            si += 1;
        }
        let ghost fin_es = events@;
        let ghost fin_st = stack@;
        proof {
            assert(si == m);
            assert((fin_es, fin_st) == spec_call_state(self@.samples, self@.weights, m));
            assert(fin_st.subrange(0, fin_st.len() as int) =~= fin_st);
            assert(spec_closes(fin_st, fin_st.len() as int) =~= Seq::<CallEvent>::empty());
            assert(events@ =~= fin_es + spec_closes(fin_st, stack@.len() as int));
        }
        while stack.len() > 0
            invariant
                nf == self@.frames.len(),
                m == if self@.samples.len() <= self@.weights.len() {
                    self@.samples.len() as int
                } else {
                    self@.weights.len() as int
                },
                (fin_es, fin_st) == spec_call_state(self@.samples, self@.weights, m),
                stack@.len() <= fin_st.len(),
                stack@ == fin_st.subrange(0, stack@.len() as int),
                events@ == fin_es + spec_closes(fin_st, stack@.len() as int),
                forall|t: int| 0 <= t < stack@.len() ==> (#[trigger] stack@[t]).frame_index < nf,
                forall|t: int| 0 <= t < stack@.len() ==> (#[trigger] stack@[t]).self_weight
                    <= stack@[t].total_weight,
                forall|t: int| 0 <= t < events@.len() ==> event_in_range(#[trigger] events@[t], nf),
                forall|t: int| 0 <= t < events@.len() ==> close_weights_ok(#[trigger] events@[t]),
                count_enters(events@) == count_closes(events@) + stack@.len(),
            ensures
                stack@.len() == 0,
                events@ == fin_es + spec_closes(fin_st, 0),
                count_enters(events@) == count_closes(events@),
                forall|t: int| 0 <= t < events@.len() ==> event_in_range(#[trigger] events@[t], nf),
                forall|t: int| 0 <= t < events@.len() ==> close_weights_ok(#[trigger] events@[t]),
            decreases stack@.len(),
        {
            let ghost pre_len = stack@.len() as int;
            proof {
                assert(stack@.last() == fin_st[pre_len - 1]);
            }
            match stack.pop() {
                Some(top) => {
                    let ghost pre_events = events@;
                    events.push(
                        CallEvent::Close(top.frame_index, top.self_weight, top.total_weight),
                    );
                    proof {
                        assert(events@.drop_last() =~= pre_events);
                        lemma_closes_unroll(fin_st, pre_len - 1);
                        assert(events@ =~= fin_es + spec_closes(fin_st, pre_len - 1));
                        assert(stack@ =~= fin_st.subrange(0, stack@.len() as int));
                    }
                },
                None => {
                    break;
                },
            }
        }
        proof {
            assert(events@ == spec_call_events(self@.samples, self@.weights));
        }
        events
    }

    /// Add `weight` to the total weight of every node on the working stack.
    pub fn add_weight_to_stack(&mut self, weight: u32)
        ensures
            final(self)@.stack.len() == old(self)@.stack.len(),
            forall|i: int|
                0 <= i < old(self)@.stack.len() ==> final(self)@.stack[i] == (CallTreeNode {
                    total_weight: spec_sat_add(old(self)@.stack[i].total_weight, weight),
                    ..old(self)@.stack[i]
                }),
            final(self)@.name == old(self)@.name,
            final(self)@.start_value == old(self)@.start_value,
            final(self)@.end_value == old(self)@.end_value,
            final(self)@.frame_index_by_key == old(self)@.frame_index_by_key,
            final(self)@.frames == old(self)@.frames,
            final(self)@.samples == old(self)@.samples,
            final(self)@.weights == old(self)@.weights,
    {
        let mut i: usize = 0;
        while i < self.stack.len()
            invariant
                i <= self.stack@.len(),
                self@.stack.len() == old(self)@.stack.len(),
                forall|j: int|
                    0 <= j < i ==> self@.stack[j] == (CallTreeNode {
                        total_weight: spec_sat_add(old(self)@.stack[j].total_weight, weight),
                        ..old(self)@.stack[j]
                    }),
                forall|j: int| i <= j < self@.stack.len() ==> self@.stack[j] == old(self)@.stack[j],
                self@.name == old(self)@.name,
                self@.start_value == old(self)@.start_value,
                self@.end_value == old(self)@.end_value,
                self@.frame_index_by_key == old(self)@.frame_index_by_key,
                self@.frames == old(self)@.frames,
                self@.samples == old(self)@.samples,
                self@.weights == old(self)@.weights,
            decreases self.stack@.len() - i,
        {
            let node = self.stack[i];
            self.stack.set(
                i,
                CallTreeNode { total_weight: sat_add(node.total_weight, weight), ..node },
            );
            i += 1;
        }
    }

    /// The sample the current stack describes: its frame indices, without
    /// the root node.
    pub open spec fn spec_stack_sample(st: Seq<CallTreeNode>) -> Seq<usize> {
        if st.len() == 0 {
            Seq::empty()
        } else {
            st.skip(1).map_values(|n: CallTreeNode| n.frame_index)
        }
    }

    /// Record the current stack (without the root node) as one sample with
    /// the given weight.
    pub fn snapshot(&mut self, weight: u32)
        requires
            old(self).wf(),
        ensures
            final(self).wf(),
            final(self)@.samples == old(self)@.samples.push(
                Self::spec_stack_sample(old(self)@.stack),
            ),
            final(self)@.weights == old(self)@.weights.push(weight),
            final(self)@.name == old(self)@.name,
            final(self)@.start_value == old(self)@.start_value,
            final(self)@.end_value == old(self)@.end_value,
            final(self)@.frame_index_by_key == old(self)@.frame_index_by_key,
            final(self)@.frames == old(self)@.frames,
            final(self)@.stack == old(self)@.stack,
    {
        let mut sample: Vec<usize> = Vec::new();
        let mut i: usize = 1;
        while i < self.stack.len()
            invariant
                old(self).wf(),
                self@ == old(self)@,
                1 <= i,
                self.stack@.len() > 0 ==> i <= self.stack@.len(),
                self.stack@.len() == 0 ==> i == 1,
                sample@.len() == if self.stack@.len() == 0 {
                    0int
                } else {
                    i - 1
                },
                forall|j: int|
                    0 <= j < sample@.len() ==> sample@[j] == self@.stack[j + 1].frame_index,
            decreases self.stack@.len() - i,
        {
            let node = self.stack[i];
            sample.push(node.frame_index);
            i += 1;
        }
        proof {
            assert(sample@ =~= Self::spec_stack_sample(self@.stack));
        }
        self.samples.push(sample);
        self.weights.push(weight);
        proof {
            assert(final(self)@.samples =~= old(self)@.samples.push(
                Self::spec_stack_sample(old(self)@.stack),
            ));
            assert(final(self)@.frames =~= old(self)@.frames);
            assert(final(self)@.frame_index_by_key =~= old(self)@.frame_index_by_key);
        }
    }

    /// First index bound to `key` in the intern table; first binding wins.
    pub open spec fn spec_key_index(fik: Seq<(Seq<char>, usize)>, key: Seq<char>) -> Option<usize>
        decreases fik.len(),
    {
        if fik.len() == 0 {
            None
        } else if fik[0].0 == key {
            Some(fik[0].1)
        } else {
            Self::spec_key_index(fik.drop_first(), key)
        }
    }

    /// The working stack after `weight` was added to every node's total.
    pub open spec fn spec_weighted(st: Seq<CallTreeNode>, weight: u32) -> Seq<CallTreeNode> {
        st.map_values(
            |n: CallTreeNode| CallTreeNode {
                total_weight: spec_sat_add(n.total_weight, weight),
                ..n
            },
        )
    }

    /// Enter a frame while rebuilding the call tree: `weight` is added to
    /// every node already on the stack, the frame is interned at most once
    /// per key, its node (carrying `weight` as self and total weight) is
    /// pushed, and exactly when the weight is positive the new stack is
    /// snapshot as one sample.
    pub fn open_frame(&mut self, node_id: u32, frame: Frame, weight: u32)
        requires
            old(self).wf(),
        ensures
            final(self).wf(),
            ({
                let pre = old(self)@;
                let wst = Self::spec_weighted(pre.stack, weight);
                let interned = Self::spec_key_index(pre.frame_index_by_key, frame@.key);
                let fi: usize = match interned {
                    Some(v) => v,
                    None => pre.frames.len() as usize,
                };
                let node = CallTreeNode {
                    node_id,
                    frame_index: fi,
                    self_weight: weight,
                    total_weight: weight,
                };
                &&& final(self)@.stack == wst.push(node)
                &&& (interned is Some ==> final(self)@.frames == pre.frames && final(self)@.frame_index_by_key == pre.frame_index_by_key)
                &&& (interned is None ==> final(self)@.frames == pre.frames.push(frame@) && final(self)@.frame_index_by_key == pre.frame_index_by_key.push(
                    (frame@.key, pre.frames.len() as usize),
                ))
                &&& (weight > 0 ==> final(self)@.samples == pre.samples.push(
                    Self::spec_stack_sample(wst.push(node)),
                ) && final(self)@.weights == pre.weights.push(weight))
                &&& (weight == 0 ==> final(self)@.samples == pre.samples && final(self)@.weights
                    == pre.weights)
                &&& final(self)@.name == pre.name
                &&& final(self)@.start_value == pre.start_value
                &&& final(self)@.end_value == pre.end_value
            }),
            frames_indexed(old(self)@) ==> frames_indexed(final(self)@),
    {
        let ghost pre = old(self)@;
        self.add_weight_to_stack(weight);
        proof {
            assert(self@.frames =~= pre.frames);
            assert(self@.samples =~= pre.samples);
            assert(self@.frame_index_by_key =~= pre.frame_index_by_key);
            assert(self@.stack =~= Self::spec_weighted(pre.stack, weight));
        }
        let ghost old_view = self@;
        let mut found: Option<usize> = None;
        let mut i: usize = 0;
        proof {
            assert(pre.frame_index_by_key.skip(0) =~= pre.frame_index_by_key);
        }
        while i < self.frame_index_by_key.len()
            invariant_except_break
                found is None,
            invariant
                self.wf(),
                self@ == old_view,
                old_view.frame_index_by_key == pre.frame_index_by_key,
                i <= self.frame_index_by_key@.len(),
                Self::spec_key_index(pre.frame_index_by_key, frame@.key) == Self::spec_key_index(
                    pre.frame_index_by_key.skip(i as int),
                    frame@.key,
                ),
                forall|j: int| 0 <= j < i ==> pre.frame_index_by_key[j].0 != frame@.key,
            ensures
                self.wf(),
                self@ == old_view,
                found matches Some(v) ==> Self::spec_key_index(pre.frame_index_by_key, frame@.key)
                    == Some(v) && v < self@.frames.len(),
                found is None ==> Self::spec_key_index(pre.frame_index_by_key, frame@.key) is None
                    && (forall|j: int|
                    0 <= j < pre.frame_index_by_key.len() ==> pre.frame_index_by_key[j].0
                        != frame@.key),
            decreases self.frame_index_by_key@.len() - i,
        {
            proof {
                assert(pre.frame_index_by_key.skip(i as int)[0] == pre.frame_index_by_key[
                    i as int
                ]);
                assert(pre.frame_index_by_key.skip(i as int).drop_first()
                    =~= pre.frame_index_by_key.skip(i as int + 1));
            }
            if self.frame_index_by_key[i].0.eq(&frame.key) {
                proof {
                    assert(Self::spec_key_index(
                        pre.frame_index_by_key.skip(i as int),
                        frame@.key,
                    ) == Some(pre.frame_index_by_key[i as int].1));
                    assert(self@.frame_index_by_key[i as int].1 < self@.frames.len());
                }
                found = Some(self.frame_index_by_key[i].1);
                break;
            }
            i += 1;
        }
        proof {
            if found is None {
                assert(pre.frame_index_by_key.skip(
                    pre.frame_index_by_key.len() as int,
                ) =~= Seq::<(Seq<char>, usize)>::empty());
            }
        }
        let ghost interned = Self::spec_key_index(pre.frame_index_by_key, frame@.key);
        let ghost fv = frame@;
        let frame_index: usize = match found {
            Some(index) => index,
            None => {
                let index = self.frames.len();
                let key = frame.key.clone();
                let ghost kv = key@;
                self.frame_index_by_key.push((key, index));
                self.frames.push(frame);
                proof {
                    assert(kv == fv.key);
                    assert(self@.frames =~= pre.frames.push(fv));
                    assert(self@.frame_index_by_key =~= pre.frame_index_by_key.push(
                        (fv.key, index as usize),
                    ));
                    assert(self@.samples =~= pre.samples);
                    assert(self@.stack == old_view.stack);
                    assert forall|a: int, b: int|
                        0 <= a < self@.samples.len() && 0 <= b < self@.samples[a].len()
                            implies self@.samples[a][b] < self@.frames.len() by {
                        assert(self@.samples[a] == pre.samples[a]);
                        assert(pre.samples[a][b] < pre.frames.len());
                    }
                    assert(samples_wf(self@));
                    assert(self.wf());
                    assert(index == pre.frames.len());
                }
                index
            },
        };
        proof {
            if frames_indexed(pre) {
                match interned {
                    Some(_) => {
                        assert(frames_indexed(self@));
                    },
                    None => {
                        assert(self@.frame_index_by_key =~= Seq::new(
                            self@.frames.len(),
                            |k: int| (self@.frames[k].key, k as usize),
                        ));
                        assert forall|a: int, b: int|
                            0 <= a < b < self@.frames.len() implies self@.frames[a].key
                                != self@.frames[b].key by {
                            if b == pre.frames.len() {
                                assert(pre.frame_index_by_key[a]
                                    == (pre.frames[a].key, a as usize));
                                assert(pre.frame_index_by_key[a].0 != fv.key);
                            } else {
                                assert(self@.frames[a] == pre.frames[a]);
                                assert(self@.frames[b] == pre.frames[b]);
                            }
                        }
                        assert(frames_indexed(self@));
                    },
                }
            }
        }
        let ghost frames_after = self@.frames;
        let ghost fik_after = self@.frame_index_by_key;
        let ghost samples_after = self@.samples;
        let ghost wst = Self::spec_weighted(pre.stack, weight);
        let ghost node = CallTreeNode { node_id, frame_index, self_weight: weight, total_weight: weight };
        self.stack.push(
            CallTreeNode { node_id, frame_index, self_weight: weight, total_weight: weight },
        );
        proof {
            assert(self@.stack =~= wst.push(node));
            assert(self@.frames =~= frames_after);
            assert(self@.frame_index_by_key =~= fik_after);
            assert(self@.samples =~= samples_after);
            assert(self.wf());
        }
        if weight > 0 {
            self.snapshot(weight);
        } else {
            proof {
                assert(self@.samples == pre.samples);
                assert(self@.weights == pre.weights);
            }
        }
        proof {
            assert(frame_index == (match interned {
                Some(v) => v,
                None => pre.frames.len() as usize,
            }));
        }
    }

    /// A sample arrived: `weight` is added to every stack node's total,
    /// and exactly when the node on top of the stack is the given one, the
    /// weighted stack is snapshot as one sample.
    pub fn append_frame(&mut self, node_id: u32, weight: u32)
        requires
            old(self).wf(),
        ensures
            final(self).wf(),
            ({
                let pre = old(self)@;
                let wst = Self::spec_weighted(pre.stack, weight);
                let tops = pre.stack.len() > 0 && pre.stack.last().node_id == node_id;
                &&& final(self)@.stack == wst
                &&& (tops ==> final(self)@.samples == pre.samples.push(
                    Self::spec_stack_sample(wst),
                ) && final(self)@.weights == pre.weights.push(weight))
                &&& (!tops ==> final(self)@.samples == pre.samples && final(self)@.weights
                    == pre.weights)
                &&& final(self)@.frames == pre.frames
                &&& final(self)@.frame_index_by_key == pre.frame_index_by_key
                &&& final(self)@.name == pre.name
                &&& final(self)@.start_value == pre.start_value
                &&& final(self)@.end_value == pre.end_value
            }),
    {
        let ghost pre = old(self)@;
        self.add_weight_to_stack(weight);
        proof {
            assert(self@.frames =~= pre.frames);
            assert(self@.samples =~= pre.samples);
            assert(self@.frame_index_by_key =~= pre.frame_index_by_key);
            assert(self@.stack =~= Self::spec_weighted(pre.stack, weight));
        }
        let matches_top = match self.stack.last() {
            Some(top) => top.node_id == node_id,
            None => false,
        };
        proof {
            if pre.stack.len() > 0 {
                assert(self@.stack.last() == Self::spec_weighted(pre.stack, weight).last());
                assert(self@.stack.last().node_id == pre.stack.last().node_id);
            }
        }
        if matches_top {
            self.snapshot(weight);
        }
    }

    /// Leave the frame on top of the stack: the top node is popped exactly
    /// when the stack is nonempty and its top carries the given node id;
    /// otherwise nothing changes.
    pub fn close_frame(&mut self, node_id: u32)
        requires
            old(self).wf(),
        ensures
            final(self).wf(),
            final(self)@.name == old(self)@.name,
            final(self)@.start_value == old(self)@.start_value,
            final(self)@.end_value == old(self)@.end_value,
            final(self)@.frames == old(self)@.frames,
            final(self)@.samples == old(self)@.samples,
            final(self)@.weights == old(self)@.weights,
            final(self)@.frame_index_by_key == old(self)@.frame_index_by_key,
            (old(self)@.stack.len() > 0 && old(self)@.stack.last().node_id == node_id)
                ==> final(self)@.stack == old(self)@.stack.drop_last(),
            !(old(self)@.stack.len() > 0 && old(self)@.stack.last().node_id == node_id)
                ==> final(self)@.stack == old(self)@.stack,
    {
        let should_pop = match self.stack.last() {
            Some(top) => top.node_id == node_id,
            None => false,
        };
        if should_pop {
            let _ = self.stack.pop();
        }
        proof {
            assert(self@.frames =~= old(self)@.frames);
            assert(self@.samples =~= old(self)@.samples);
            assert(self@.frame_index_by_key =~= old(self)@.frame_index_by_key);
            assert forall|i: int|
                0 <= i < self@.stack.len() implies (#[trigger] self@.stack[i]).frame_index
                    < self@.frames.len() by {
                assert(self@.stack[i] == old(self)@.stack[i]);
            }
        }
    }

    /// Finish building: drop the working stack and record when the profile
    /// ended.
    pub fn end(&mut self, end_value: u64)
        requires
            old(self).wf(),
        ensures
            final(self).wf(),
            final(self)@.stack == Seq::<CallTreeNode>::empty(),
            final(self)@.end_value == end_value,
            final(self)@.name == old(self)@.name,
            final(self)@.start_value == old(self)@.start_value,
            final(self)@.frames == old(self)@.frames,
            final(self)@.samples == old(self)@.samples,
            final(self)@.weights == old(self)@.weights,
            final(self)@.frame_index_by_key == old(self)@.frame_index_by_key,
    {
        self.stack.clear();
        self.end_value = end_value;
        proof {
            assert(self@.stack =~= Seq::<CallTreeNode>::empty());
            assert(self@.frames =~= old(self)@.frames);
            assert(self@.samples =~= old(self)@.samples);
            assert(self@.frame_index_by_key =~= old(self)@.frame_index_by_key);
        }
    }
}

/// Why a trace could not become a profile.
#[derive(Clone, Copy, PartialEq, Eq, Structural, Debug)]
pub enum ProfileError {
    /// No main-thread profile data was found.
    MissingMainThread,
    /// No call tree node was found in the timeline.
    NonNode,
    /// The samples and time data are invalid.
    InvalidSamples,
}

impl ProfileError {
    /// The message reported for this error.
    pub fn message(&self) -> (r: String)
        ensures
            *self is MissingMainThread ==> r@ == "Could not found main thread profile data"@,
            *self is NonNode ==> r@ == "No call tree node found in timeline"@,
            *self is InvalidSamples ==> r@ == "Meet invalid samples and time data"@,
    {
        match self {
            ProfileError::MissingMainThread => String::from_str(
                "Could not found main thread profile data",
            ),
            ProfileError::NonNode => String::from_str("No call tree node found in timeline"),
            ProfileError::InvalidSamples => String::from_str("Meet invalid samples and time data"),
        }
    }
}

/// Mathematical image of a flat exported profile.
pub ghost struct SpeedScopeProfileView {
    pub profile_type: Seq<char>,
    pub unit: Seq<char>,
    pub name: Seq<char>,
    pub start_value: u64,
    pub end_value: u64,
    pub samples: Seq<Seq<usize>>,
    pub weights: Seq<u32>,
    pub frames: Seq<FrameView>,
}

/// A profile flattened for export: the frames, the samples as frame-index
/// stacks and their weights, with its sampling type and unit.
pub struct SpeedScopeProfile {
    pub profile_type: String,
    pub unit: String,
    pub name: String,
    pub start_value: u64,
    pub end_value: u64,
    pub samples: Vec<Vec<usize>>,
    pub weights: Vec<u32>,
    pub frames: Vec<Frame>,
}

impl View for SpeedScopeProfile {
    type V = SpeedScopeProfileView;

    open spec fn view(&self) -> SpeedScopeProfileView {
        SpeedScopeProfileView {
            profile_type: self.profile_type@,
            unit: self.unit@,
            name: self.name@,
            start_value: self.start_value,
            end_value: self.end_value,
            samples: Seq::new(self.samples@.len(), |i: int| self.samples@[i]@),
            weights: self.weights@,
            frames: Seq::new(self.frames@.len(), |i: int| self.frames@[i]@),
        }
    }
}

/// Every sample index of an exported profile points at one of its frames.
pub open spec fn ss_samples_wf(p: SpeedScopeProfileView) -> bool {
    forall|i: int, j: int|
        0 <= i < p.samples.len() && 0 <= j < p.samples[i].len() ==> p.samples[i][j]
            < p.frames.len()
}

/// The frame list shared by the profiles of a group.
pub struct SharedInfo {
    pub frames: Vec<Frame>,
}

/// A group of exported profiles over one shared frame list.
pub struct SpeedScopeProfileGroup {
    pub exporter: String,
    pub schema: String,
    pub name: String,
    pub profiles: Vec<SpeedScopeProfile>,
    pub shared: SharedInfo,
}

/// All frames of a profile list, in order.
pub open spec fn concat_frames(ps: Seq<SpeedScopeProfileView>) -> Seq<FrameView>
    decreases ps.len(),
{
    if ps.len() == 0 {
        Seq::empty()
    } else {
        ps[0].frames + concat_frames(ps.drop_first())
    }
}

/// How many frames the profiles before position `p` contribute.
pub open spec fn frames_before(ps: Seq<SpeedScopeProfileView>, p: int) -> nat
    decreases p,
{
    if p <= 0 {
        0
    } else {
        frames_before(ps, p - 1) + ps[p - 1].frames.len()
    }
}

/// Concatenated frames peel off the back one profile at a time.
proof fn lemma_concat_frames_snoc(ps: Seq<SpeedScopeProfileView>, p: SpeedScopeProfileView)
    ensures
        concat_frames(ps.push(p)) == concat_frames(ps) + p.frames,
    decreases ps.len(),
{
    if ps.len() == 0 {
        let t = ps.push(p);
        assert(t[0] == p);
        assert(t.drop_first() =~= Seq::<SpeedScopeProfileView>::empty());
        assert(concat_frames(Seq::<SpeedScopeProfileView>::empty()) == Seq::<FrameView>::empty());
        assert(concat_frames(t) == t[0].frames + concat_frames(t.drop_first()));
        assert(concat_frames(t) =~= concat_frames(ps) + p.frames);
    } else {
        let t = ps.push(p);
        assert(t[0] == ps[0]);
        assert(t.drop_first() =~= ps.drop_first().push(p));
        lemma_concat_frames_snoc(ps.drop_first(), p);
        assert(concat_frames(t) == t[0].frames + concat_frames(t.drop_first()));
        assert(concat_frames(t.drop_first()) == concat_frames(ps.drop_first()) + p.frames);
        assert(concat_frames(ps) == ps[0].frames + concat_frames(ps.drop_first()));
        assert(concat_frames(t) =~= concat_frames(ps) + p.frames);
    }
}

impl SpeedScopeProfile {
    /// Group several profiles over one shared frame list: the frames of
    /// every profile move into the shared list, in order, and each
    /// profile's sample indices shift up by the number of frames that came
    /// before it.  Everything else about each profile is kept.
    pub fn merge(profiles: Vec<SpeedScopeProfile>) -> (r: SpeedScopeProfileGroup)
        requires
            forall|k: int| 0 <= k < profiles@.len() ==> ss_samples_wf(#[trigger] profiles@[k]@),
        ensures
            r.exporter@ == "speedscope@0.6.0"@,
            r.schema@ == "https://www.speedscope.app/file-format-schema.json"@,
            r.name@ == "any"@,
            ({
                let allv = Seq::new(profiles@.len(), |k: int| profiles@[k]@);
                &&& Seq::new(r.shared.frames@.len(), |k: int| r.shared.frames@[k]@)
                    == concat_frames(allv)
                &&& r.profiles@.len() == profiles@.len()
                &&& forall|k: int|
                    0 <= k < allv.len() ==> {
                        let outp = (#[trigger] r.profiles@[k])@;
                        &&& outp.frames.len() == 0
                        &&& outp.profile_type == allv[k].profile_type
                        &&& outp.unit == allv[k].unit
                        &&& outp.name == allv[k].name
                        &&& outp.start_value == allv[k].start_value
                        &&& outp.end_value == allv[k].end_value
                        &&& outp.weights == allv[k].weights
                        &&& outp.samples.len() == allv[k].samples.len()
                        &&& forall|a: int|
                            0 <= a < allv[k].samples.len() ==> (#[trigger] outp.samples[a]).len()
                                == allv[k].samples[a].len()
                        &&& forall|a: int, b: int|
                            0 <= a < allv[k].samples.len() && 0 <= b < allv[k].samples[a].len()
                                ==> (#[trigger] outp.samples[a][b]) == allv[k].samples[a][b]
                                + frames_before(allv, k)
                    }
            }),
    {
        let ghost allv = Seq::new(profiles@.len(), |k: int| profiles@[k]@);
        let total_in = profiles.len();
        let mut profiles = profiles;
        let mut frames: Vec<Frame> = Vec::new();
        let mut grouped: Vec<SpeedScopeProfile> = Vec::new();
        let mut i: usize = 0;
        proof {
            assert(allv.take(0) =~= Seq::<SpeedScopeProfileView>::empty());
            assert(Seq::new(frames@.len(), |k: int| frames@[k]@) =~= concat_frames(allv.take(0)));
        }
        while profiles.len() > 0
            invariant
                allv.len() == total_in,
                i + profiles@.len() == allv.len(),
                forall|k: int| 0 <= k < allv.len() ==> ss_samples_wf(#[trigger] allv[k]),
                forall|k: int| 0 <= k < profiles@.len() ==> (#[trigger] profiles@[k])@ == allv[k
                    + i],
                Seq::new(frames@.len(), |k: int| frames@[k]@) == concat_frames(allv.take(i as int)),
                frames@.len() == frames_before(allv, i as int),
                grouped@.len() == i,
                forall|k: int|
                    0 <= k < i ==> {
                        let outp = (#[trigger] grouped@[k])@;
                        &&& outp.frames.len() == 0
                        &&& outp.profile_type == allv[k].profile_type
                        &&& outp.unit == allv[k].unit
                        &&& outp.name == allv[k].name
                        &&& outp.start_value == allv[k].start_value
                        &&& outp.end_value == allv[k].end_value
                        &&& outp.weights == allv[k].weights
                        &&& outp.samples.len() == allv[k].samples.len()
                        &&& forall|a: int|
                            0 <= a < allv[k].samples.len() ==> (#[trigger] outp.samples[a]).len()
                                == allv[k].samples[a].len()
                        &&& forall|a: int, b: int|
                            0 <= a < allv[k].samples.len() && 0 <= b < allv[k].samples[a].len()
                                ==> (#[trigger] outp.samples[a][b]) == allv[k].samples[a][b]
                                + frames_before(allv, k)
                    },
            decreases profiles@.len(),
        {
            let ghost pre_profiles = profiles@;
            let mut p = profiles.remove(0);
            proof {
                assert(p@ == allv[i as int]);
            }
            let ghost pv = p@;
            let start_frame_index = frames.len();
            let mut moved = Vec::new();
            core::mem::swap(&mut moved, &mut p.frames);
            frames.append(&mut moved);
            proof {
                assert(allv.take(i as int + 1) =~= allv.take(i as int).push(allv[i as int]));
                lemma_concat_frames_snoc(allv.take(i as int), allv[i as int]);
                assert(Seq::new(frames@.len(), |k: int| frames@[k]@) =~= concat_frames(
                    allv.take(i as int + 1),
                ));
            }
            let total_frames = frames.len();
            proof {
                assert(total_frames == start_frame_index + pv.frames.len());
            }
            let mut new_samples: Vec<Vec<usize>> = Vec::new();
            let mut old_samples = Vec::new();
            core::mem::swap(&mut old_samples, &mut p.samples);
            let ns_total = old_samples.len();
            let ghost osv = Seq::new(old_samples@.len(), |a: int| old_samples@[a]@);
            proof {
                assert(osv =~= pv.samples);
                assert(ss_samples_wf(pv));
            }
            let mut a: usize = 0;
            while old_samples.len() > 0
                invariant
                    osv == pv.samples,
                    ss_samples_wf(pv),
                    osv.len() == ns_total,
                    start_frame_index + pv.frames.len() == total_frames,
                    a + old_samples@.len() == osv.len(),
                    forall|k: int| 0 <= k < old_samples@.len() ==> (#[trigger] old_samples@[k])@
                        == osv[k + a],
                    new_samples@.len() == a,
                    forall|k: int|
                        0 <= k < a ==> (#[trigger] new_samples@[k])@.len() == osv[k].len(),
                    forall|k: int, b: int|
                        0 <= k < a && 0 <= b < osv[k].len() ==> #[trigger] (new_samples@[k]@[b])
                            == osv[k][b] + start_frame_index,
                decreases old_samples@.len(),
            {
                let s = old_samples.remove(0);
                proof {
                    assert(s@ == osv[a as int]);
                }
                let mut s2: Vec<usize> = Vec::new();
                let mut b: usize = 0;
                while b < s.len()
                    invariant
                        osv == pv.samples,
                        ss_samples_wf(pv),
                        b <= s@.len(),
                        s@ == osv[a as int],
                        a < osv.len(),
                        start_frame_index + pv.frames.len() == total_frames,
                        s2@.len() == b,
                        forall|k: int|
                            0 <= k < b ==> (#[trigger] s2@[k]) == osv[a as int][k]
                                + start_frame_index,
                    decreases s@.len() - b,
                {
                    proof {
                        assert(pv.samples[a as int][b as int] < pv.frames.len());
                    }
                    s2.push(s[b] + start_frame_index);
                    b += 1;
                }
                new_samples.push(s2);
                a += 1;
            }
            let mut ns = new_samples;
            core::mem::swap(&mut ns, &mut p.samples);
            grouped.push(p);
            proof {
                assert(grouped@[i as int]@.samples =~= Seq::new(
                    grouped@[i as int].samples@.len(),
                    |k: int| grouped@[i as int].samples@[k]@,
                ));
            }
            i += 1;
        }
        proof {
            assert(allv.take(i as int) =~= allv);
        }
        SpeedScopeProfileGroup {
            exporter: String::from_str("speedscope@0.6.0"),
            schema: String::from_str("https://www.speedscope.app/file-format-schema.json"),
            name: String::from_str("any"),
            profiles: grouped,
            shared: SharedInfo { frames },
        }
    }

    /// Group this profile alone; its sample indices keep their values.
    pub fn group(self) -> (r: SpeedScopeProfileGroup)
        requires
            ss_samples_wf(self@),
        ensures
            r.exporter@ == "speedscope@0.6.0"@,
            r.schema@ == "https://www.speedscope.app/file-format-schema.json"@,
            r.name@ == "any"@,
            r.profiles@.len() == 1,
            Seq::new(r.shared.frames@.len(), |k: int| r.shared.frames@[k]@) == self@.frames,
            r.profiles@[0]@.samples.len() == self@.samples.len(),
            forall|a: int, b: int|
                0 <= a < self@.samples.len() && 0 <= b < self@.samples[a].len() ==> (
                #[trigger] r.profiles@[0]@.samples[a][b]) == self@.samples[a][b],
            r.profiles@[0]@.weights == self@.weights,
            r.profiles@[0]@.name == self@.name,
    {
        let ghost sv = self@;
        let mut v: Vec<SpeedScopeProfile> = Vec::new();
        v.push(self);
        proof {
            assert(v@.len() == 1);
            assert(v@[0]@ == sv);
        }
        let r = SpeedScopeProfile::merge(v);
        proof {
            let allv = Seq::new(1nat, |k: int| sv);
            assert(Seq::new(v@.len(), |k: int| v@[k]@) =~= allv);
            assert(allv[0] == sv);
            assert(allv.drop_first() =~= Seq::<SpeedScopeProfileView>::empty());
            assert(concat_frames(Seq::<SpeedScopeProfileView>::empty()) =~= Seq::<
                FrameView,
            >::empty());
            assert(concat_frames(allv) =~= sv.frames);
            assert(frames_before(allv, 0) == 0);
            assert forall|a: int, b: int|
                0 <= a < sv.samples.len() && 0 <= b < sv.samples[a].len() implies (
            #[trigger] r.profiles@[0]@.samples[a][b]) == sv.samples[a][b] by {
                assert(r.profiles@[0]@.samples[a][b] == sv.samples[a][b] + frames_before(allv, 0));
            }
        }
        r
    }

    /// Flatten a call-tree profile for export: the samples, weights and
    /// frames move over; the type is `sampled` and the unit microseconds.
    pub fn of_profile(profile: Profile) -> (r: SpeedScopeProfile)
        ensures
            r@.profile_type == "sampled"@,
            r@.unit == "microseconds"@,
            r@.name == profile@.name,
            r@.start_value == profile@.start_value,
            r@.end_value == profile@.end_value,
            r@.samples == profile@.samples,
            r@.weights == profile@.weights,
            r@.frames == profile@.frames,
    {
        let r = SpeedScopeProfile {
            profile_type: String::from_str("sampled"),
            unit: String::from_str("microseconds"),
            name: profile.name,
            start_value: profile.start_value,
            end_value: profile.end_value,
            samples: profile.samples,
            weights: profile.weights,
            frames: profile.frames,
        };
        proof {
            assert(r@.samples =~= profile@.samples);
            assert(r@.frames =~= profile@.frames);
        }
        r
    }
}

} // verus!
