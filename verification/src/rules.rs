//! Analysis rules over a profile's call tree.
//!
//! `LongFuncCall` reports project-own function calls sitting at the bottom
//! of the stack whose total time exceeds the frame budget of 33ms (in
//! microseconds), the usual root cause of long tasks.  `LongLibCall`
//! reports third-party library calls whose accumulated time under one stack
//! root reaches 33ms, traced down to the lowest library frame.

use vstd::prelude::*;
use vstd::string::StringExecFns;
use crate::analyzer::{Context, DiagnosticInfo};
use crate::profile::{
    Profile, CallEvent, FrameView, event_in_range, samples_wf, sat_add, spec_call_events,
};
use crate::strutil::str_eq;

verus! {

/// The frames the function rule tracks: sourced, project-own code.
pub open spec fn spec_counted_frame(f: FrameView) -> bool {
    f.sourced && f.node_module is None
}

/// The function rule's walk over the first `upto` call events: the depth of
/// tracked frames currently open, and the (frame index, total weight) pairs
/// reported so far — every tracked frame that closes directly above the
/// tracked root with a total weight over the budget.
pub open spec fn spec_long_func_state(
    es: Seq<CallEvent>,
    frames: Seq<FrameView>,
    upto: int,
) -> (int, Seq<(usize, u32)>)
    decreases upto,
{
    if upto <= 0 {
        (0int, Seq::empty())
    } else {
        let prev = spec_long_func_state(es, frames, upto - 1);
        match es[upto - 1] {
            CallEvent::Enter(fi) => if spec_counted_frame(frames[fi as int]) {
                (prev.0 + 1, prev.1)
            } else {
                prev
            },
            CallEvent::Close(fi, _sw, tw) => if spec_counted_frame(frames[fi as int]) {
                let depth = if prev.0 > 0 {
                    prev.0 - 1
                } else {
                    prev.0
                };
                if depth == 1 && tw > 33000 {
                    (depth, prev.1.push((fi, tw)))
                } else {
                    (depth, prev.1)
                }
            } else {
                prev
            },
        }
    }
}

/// The (frame index, weight) pairs the function rule reports for a profile.
pub open spec fn spec_long_func_reports(p: crate::profile::ProfileView) -> Seq<(usize, u32)> {
    let es = spec_call_events(p.samples, p.weights);
    spec_long_func_state(es, p.frames, es.len() as int).1
}

/// Function calls on the bottom of the stack lasting 33ms and more.
pub struct LongFuncCall;

impl LongFuncCall {
    /// The rule's diagnostic code.
    pub fn code(&self) -> (r: String)
        ensures
            r@ == "long-func-call"@,
    {
        String::from_str("long-func-call")
    }

    /// The rule's documentation text.
    pub fn desc(&self) -> (r: String) {
        String::from_str(
            r#"Function calls on bottom of stack those last 33ms(requirement for 30 FPS) and more.
These kind of function call are always the root cause of long tasks no matter
how short theirselves weights(evaluation time) are.

> Third party libs' call should be filtered out,
> because we want to find out the root causes in the project's own code.


#### Examples:
```text
// fnA counts
------- fnC -------
------- fnB -------   -------- fnD --------------
------------ fnA (total time > 33ms) ------------

// fnB counts
// react-dom.render ignored
------- fnC -------
--------- fnB (total time > 33ms) --------------------
------------ react-dom.render ------------------------

// fnB counts
// edge case here:
// `fetch.then` or `xhr.onStateReadyChanged` or some interceptor functions are totally innocent
------- fnC -------
--------- fnB (total time > 33ms) --------------------
------------- fetch.then -----------------------------
```
"#,
        )
    }

    /// Walk the call tree; whenever a sourced, non-library frame closes
    /// directly above the stack root with a total weight above 33ms, report
    /// it.  The appended diagnostics are exactly the rule's reports, in
    /// order: each carries this rule's code, the reported frame with its
    /// bundle hash, the frame's total weight and the source mark.  Nothing
    /// else in the context changes.
    pub fn analyse_profile(&self, ctx: &mut Context, profile: &Profile)
        requires
            samples_wf(profile@),
        ensures
            final(ctx).artifacts@ == old(ctx).artifacts@,
            forall|i: int|
                0 <= i < old(ctx).diagnostics@.len() ==> final(ctx).diagnostics@[i] == old(ctx).diagnostics@[i],
            ({
                let out = spec_long_func_reports(profile@);
                &&& final(ctx).diagnostics@.len() == old(ctx).diagnostics@.len() + out.len()
                &&& forall|k: int|
                    0 <= k < out.len() ==> ({
                        let d = (#[trigger] final(ctx).diagnostics@[old(ctx).diagnostics@.len()
                            + k])@;
                        &&& d.code == "long-func-call"@
                        &&& (#[trigger] out[k]).0 < profile@.frames.len()
                        &&& d.frame == profile@.frames[out[k].0 as int]
                        &&& d.bundle_hash == profile@.frames[out[k].0 as int].bundle_hash
                        &&& d.info.value == out[k].1
                        &&& d.info.value > 33000
                        &&& d.info.is_source == Some(true)
                    })
            }),
    {
        let events = profile.for_each_call();
        let ghost es = spec_call_events(profile@.samples, profile@.weights);
        let ghost n0 = old(ctx).diagnostics@.len() as int;
        let mut depth: usize = 0;
        let mut i: usize = 0;
        while i < events.len()
            invariant
                i <= events@.len(),
                depth <= i,
                events@ == es,
                es == spec_call_events(profile@.samples, profile@.weights),
                n0 == old(ctx).diagnostics@.len(),
                forall|t: int|
                    0 <= t < events@.len() ==> event_in_range(
                        #[trigger] events@[t],
                        profile@.frames.len(),
                    ),
                ctx.artifacts@ == old(ctx).artifacts@,
                forall|t: int|
                    0 <= t < n0 ==> ctx.diagnostics@[t] == old(ctx).diagnostics@[t],
                depth == spec_long_func_state(es, profile@.frames, i as int).0,
                ({
                    let out = spec_long_func_state(es, profile@.frames, i as int).1;
                    &&& ctx.diagnostics@.len() == n0 + out.len()
                    &&& forall|k: int|
                        0 <= k < out.len() ==> ({
                            let d = (#[trigger] ctx.diagnostics@[n0 + k])@;
                            &&& d.code == "long-func-call"@
                            &&& (#[trigger] out[k]).0 < profile@.frames.len()
                            &&& d.frame == profile@.frames[out[k].0 as int]
                            &&& d.bundle_hash == profile@.frames[out[k].0 as int].bundle_hash
                            &&& d.info.value == out[k].1
                            &&& d.info.value > 33000
                            &&& d.info.is_source == Some(true)
                        })
                }),
            decreases events@.len() - i,
        {
            match events[i] {
                CallEvent::Enter(fi) => {
                    let frame = &profile.frames[fi];
                    proof {
                        assert(frame@ == profile@.frames[fi as int]);
                    }
                    if frame.sourced && frame.node_module.is_none() {
                        depth += 1;
                    }
                },
                CallEvent::Close(fi, _self_weight, total_weight) => {
                    let frame = &profile.frames[fi];
                    proof {
                        assert(frame@ == profile@.frames[fi as int]);
                    }
                    if frame.sourced && frame.node_module.is_none() {
                        if depth > 0 {
                            depth -= 1;
                        }
                        if depth == 1 && total_weight > 33000 {
                            ctx.add_diagnostic(
                                "long-func-call",
                                frame,
                                DiagnosticInfo { value: total_weight, is_source: Some(true) },
                            );
                        }
                    }
                },
            }
            i += 1;
        }
        proof {
            assert(spec_long_func_state(es, profile@.frames, i as int).1 == spec_long_func_reports(
                profile@,
            ));
        }
    }
}

/// Every entry's frame index points at an interned frame.
pub open spec fn lib_weights_wf(s: Seq<(usize, u32)>, n: nat) -> bool {
    forall|i: int| 0 <= i < s.len() ==> (#[trigger] s[i]).0 < n
}

/// Add `w` onto the entry of `key` in a table ordered by frame index,
/// saturating; a key without an entry gets one at its ordered position.
pub open spec fn spec_lw_bump(t: Seq<(usize, u32)>, key: usize, w: u32) -> Seq<(usize, u32)>
    decreases t.len(),
{
    if t.len() == 0 {
        seq![(key, w)]
    } else if t[0].0 == key {
        seq![(key, crate::profile::spec_sat_add(t[0].1, w))] + t.drop_first()
    } else if t[0].0 > key {
        seq![(key, w)] + t
    } else {
        seq![t[0]] + spec_lw_bump(t.drop_first(), key, w)
    }
}

/// When the key's entry sits at position `i`, bumping is an in-place update.
proof fn lemma_lw_bump_match(t: Seq<(usize, u32)>, key: usize, w: u32, i: int)
    requires
        0 <= i < t.len(),
        t[i].0 == key,
        forall|j: int| 0 <= j < i ==> (#[trigger] t[j]).0 < key,
    ensures
        spec_lw_bump(t, key, w) == t.update(i, (key, crate::profile::spec_sat_add(t[i].1, w))),
    decreases i,
{
    if i == 0 {
        assert(spec_lw_bump(t, key, w) =~= t.update(
            0,
            (key, crate::profile::spec_sat_add(t[0].1, w)),
        ));
    } else {
        lemma_lw_bump_match(t.drop_first(), key, w, i - 1);
        assert(spec_lw_bump(t, key, w) =~= t.update(
            i,
            (key, crate::profile::spec_sat_add(t[i].1, w)),
        ));
    }
}

/// When the first larger key sits at position `i`, bumping inserts there.
proof fn lemma_lw_bump_insert(t: Seq<(usize, u32)>, key: usize, w: u32, i: int)
    requires
        0 <= i < t.len(),
        t[i].0 > key,
        forall|j: int| 0 <= j < i ==> (#[trigger] t[j]).0 < key,
    ensures
        spec_lw_bump(t, key, w) == t.insert(i, (key, w)),
    decreases i,
{
    if i == 0 {
        assert(spec_lw_bump(t, key, w) =~= t.insert(0, (key, w)));
    } else {
        lemma_lw_bump_insert(t.drop_first(), key, w, i - 1);
        assert(spec_lw_bump(t, key, w) =~= t.insert(i, (key, w)));
    }
}

/// When every key is smaller, bumping appends.
proof fn lemma_lw_bump_append(t: Seq<(usize, u32)>, key: usize, w: u32)
    requires
        forall|j: int| 0 <= j < t.len() ==> (#[trigger] t[j]).0 < key,
    ensures
        spec_lw_bump(t, key, w) == t.push((key, w)),
    decreases t.len(),
{
    if t.len() == 0 {
        assert(spec_lw_bump(t, key, w) =~= t.push((key, w)));
    } else {
        lemma_lw_bump_append(t.drop_first(), key, w);
        assert(spec_lw_bump(t, key, w) =~= t.push((key, w)));
    }
}

/// Add `w` to the weight recorded for `key`, keeping the table ordered by
/// frame index.
fn bump_lib_weight(lw: &mut Vec<(usize, u32)>, key: usize, w: u32, Ghost(n): Ghost<nat>)
    requires
        key < n,
        lib_weights_wf(old(lw)@, n),
    ensures
        lib_weights_wf(final(lw)@, n),
        final(lw)@ == spec_lw_bump(old(lw)@, key, w),
{
    let ghost orig = old(lw)@;
    let mut i: usize = 0;
    while i < lw.len()
        invariant
            i <= lw@.len(),
            key < n,
            orig == old(lw)@,
            lw@ == orig,
            lib_weights_wf(lw@, n),
            forall|j: int| 0 <= j < i ==> (#[trigger] orig[j]).0 < key,
        decreases lw@.len() - i,
    {
        if lw[i].0 == key {
            let cur = lw[i];
            lw.set(i, (key, sat_add(cur.1, w)));
            proof {
                lemma_lw_bump_match(orig, key, w, i as int);
            }
            return;
        }
        if lw[i].0 > key {
            lw.insert(i, (key, w));
            proof {
                lemma_lw_bump_insert(orig, key, w, i as int);
            }
            return;
        }
        i += 1;
    }
    lw.push((key, w));
    proof {
        lemma_lw_bump_append(orig, key, w);
    }
}

/// The table entries at or above the 33ms budget, in table order.
pub open spec fn spec_flush(t: Seq<(usize, u32)>) -> Seq<(usize, u32)>
    decreases t.len(),
{
    if t.len() == 0 {
        Seq::empty()
    } else {
        (if t[0].1 >= 33000 {
            seq![t[0]]
        } else {
            Seq::<(usize, u32)>::empty()
        }) + spec_flush(t.drop_first())
    }
}

/// `spec_flush` distributes over concatenation.
proof fn lemma_flush_concat(a: Seq<(usize, u32)>, b: Seq<(usize, u32)>)
    ensures
        spec_flush(a + b) == spec_flush(a) + spec_flush(b),
    decreases a.len(),
{
    if a.len() == 0 {
        assert(a + b =~= b);
        assert(spec_flush(a) + spec_flush(b) =~= spec_flush(b));
    } else {
        let t = a + b;
        assert(t[0] == a[0]);
        assert(t.drop_first() =~= a.drop_first() + b);
        lemma_flush_concat(a.drop_first(), b);
        assert(spec_flush(a) + spec_flush(b) =~= spec_flush(a + b));
    }
}

/// The reported diagnostics extend the old ones by exactly the given
/// (frame index, weight) pairs, each under the library rule's code.
pub open spec fn lib_diags_extended(
    pre: Seq<crate::analyzer::Diagnostic>,
    post: Seq<crate::analyzer::Diagnostic>,
    out: Seq<(usize, u32)>,
    frames: Seq<FrameView>,
) -> bool {
    &&& post.len() == pre.len() + out.len()
    &&& (forall|i: int| 0 <= i < pre.len() ==> post[i] == pre[i])
    &&& (forall|k: int|
        0 <= k < out.len() ==> ({
            let d = (#[trigger] post[pre.len() + k])@;
            &&& d.code == "long-lib-call"@
            &&& (#[trigger] out[k]).0 < frames.len()
            &&& d.frame == frames[out[k].0 as int]
            &&& d.bundle_hash == frames[out[k].0 as int].bundle_hash
            &&& d.info.value == out[k].1
            &&& d.info.value >= 33000
            &&& d.info.is_source is None
        }))
}

/// Report every table entry at or above the 33ms budget, in table order.
fn flush_lib_weights(ctx: &mut Context, profile: &Profile, lw: &Vec<(usize, u32)>)
    requires
        lib_weights_wf(lw@, profile@.frames.len()),
    ensures
        final(ctx).artifacts@ == old(ctx).artifacts@,
        lib_diags_extended(
            old(ctx).diagnostics@,
            final(ctx).diagnostics@,
            spec_flush(lw@),
            profile@.frames,
        ),
{
    let mut i: usize = 0;
    proof {
        assert(lw@.take(0) =~= Seq::<(usize, u32)>::empty());
    }
    while i < lw.len()
        invariant
            i <= lw@.len(),
            lib_weights_wf(lw@, profile@.frames.len()),
            ctx.artifacts@ == old(ctx).artifacts@,
            lib_diags_extended(
                old(ctx).diagnostics@,
                ctx.diagnostics@,
                spec_flush(lw@.take(i as int)),
                profile@.frames,
            ),
        decreases lw@.len() - i,
    {
        proof {
            assert(lw@.take(i as int + 1) =~= lw@.take(i as int) + seq![lw@[i as int]]);
            lemma_flush_concat(lw@.take(i as int), seq![lw@[i as int]]);
            assert(seq![lw@[i as int]].drop_first() =~= Seq::<(usize, u32)>::empty());
            assert(spec_flush(Seq::<(usize, u32)>::empty()) =~= Seq::<(usize, u32)>::empty());
        }
        let entry = lw[i];
        if entry.1 >= 33000 {
            proof {
                assert(spec_flush(seq![lw@[i as int]]) =~= seq![lw@[i as int]]);
                assert(spec_flush(lw@.take(i as int + 1)) =~= spec_flush(lw@.take(i as int)).push(
                    lw@[i as int],
                ));
            }
            let frame = &profile.frames[entry.0];
            proof {
                assert(frame@ == profile@.frames[entry.0 as int]);
            }
            ctx.add_diagnostic(
                "long-lib-call",
                frame,
                DiagnosticInfo { value: entry.1, is_source: None },
            );
        } else {
            proof {
                assert(spec_flush(seq![lw@[i as int]]) =~= Seq::<(usize, u32)>::empty());
            }
        }
        i += 1;
    }
    proof {
        assert(lw@.take(lw@.len() as int) =~= lw@);
    }
}

/// Chaining two diagnostic extensions extends by the concatenated reports.
proof fn lemma_lib_diags_chain(
    pre: Seq<crate::analyzer::Diagnostic>,
    mid: Seq<crate::analyzer::Diagnostic>,
    post: Seq<crate::analyzer::Diagnostic>,
    out1: Seq<(usize, u32)>,
    out2: Seq<(usize, u32)>,
    frames: Seq<FrameView>,
)
    requires
        lib_diags_extended(pre, mid, out1, frames),
        lib_diags_extended(mid, post, out2, frames),
    ensures
        lib_diags_extended(pre, post, out1 + out2, frames),
{
    assert forall|k: int|
        0 <= k < (out1 + out2).len() implies ({
        let d = (#[trigger] post[pre.len() + k])@;
        &&& d.code == "long-lib-call"@
        &&& (#[trigger] (out1 + out2)[k]).0 < frames.len()
        &&& d.frame == frames[(out1 + out2)[k].0 as int]
        &&& d.bundle_hash == frames[(out1 + out2)[k].0 as int].bundle_hash
        &&& d.info.value == (out1 + out2)[k].1
        &&& d.info.value >= 33000
        &&& d.info.is_source is None
    }) by {
        if k < out1.len() {
            assert(post[pre.len() + k] == mid[pre.len() + k]);
            assert((out1 + out2)[k] == out1[k]);
        } else {
            assert((out1 + out2)[k] == out2[k - out1.len()]);
            assert(post[pre.len() + k] == post[mid.len() + (k - out1.len())]);
        }
    }
}

/// The deepest library frame of a sample's lowest same-library run, walking
/// the stack from the leaf down past the run and stopping at the first
/// frame of a different library; `None` when the walk finds no such
/// boundary.
pub open spec fn spec_lib_target(
    s: Seq<usize>,
    frames: Seq<FrameView>,
    j: int,
    last: Option<usize>,
) -> Option<usize>
    decreases j + 1,
{
    if j < 0 {
        None
    } else {
        let fi = s[j];
        match frames[fi as int].node_module {
            None => spec_lib_target(s, frames, j - 1, last),
            Some(md) => match last {
                None => spec_lib_target(s, frames, j - 1, Some(fi)),
                Some(lfi) => if frames[lfi as int].node_module == Some(md) {
                    spec_lib_target(s, frames, j - 1, Some(fi))
                } else {
                    Some(lfi)
                },
            },
        }
    }
}

/// The library rule's walk over the first `upto` sample/weight pairs: the
/// current stack root and its accumulated weight, the per-frame library
/// weight table of the current root, and the (frame index, weight) pairs
/// reported so far.
pub open spec fn spec_lib_state(
    samples: Seq<Seq<usize>>,
    weights: Seq<u32>,
    frames: Seq<FrameView>,
    upto: int,
) -> (usize, u32, Seq<(usize, u32)>, Seq<(usize, u32)>)
    decreases upto,
{
    if upto <= 0 {
        (usize::MAX, 0u32, Seq::empty(), Seq::empty())
    } else {
        let prev = spec_lib_state(samples, weights, frames, upto - 1);
        let s = samples[upto - 1];
        let w = weights[upto - 1];
        if s.len() == 0 {
            prev
        } else {
            let cur = s[0];
            let grouped: (usize, u32, Seq<(usize, u32)>, Seq<(usize, u32)>) = if prev.0 == cur {
                (prev.0, crate::profile::spec_sat_add(prev.1, w), prev.2, prev.3)
            } else {
                (
                    cur,
                    w,
                    Seq::empty(),
                    if prev.1 >= 33000 {
                        prev.3 + spec_flush(prev.2)
                    } else {
                        prev.3
                    },
                )
            };
            let lw = match spec_lib_target(s, frames, s.len() - 1, None) {
                Some(lfi) => spec_lw_bump(grouped.2, lfi, w),
                None => grouped.2,
            };
            (grouped.0, grouped.1, lw, grouped.3)
        }
    }
}

/// The (frame index, weight) pairs the library rule reports for a profile:
/// the reports of every finished root group, then the final group's table
/// flushed when its root accumulated the budget.
pub open spec fn spec_long_lib_reports(p: crate::profile::ProfileView) -> Seq<(usize, u32)> {
    let m = if p.samples.len() <= p.weights.len() {
        p.samples.len() as int
    } else {
        p.weights.len() as int
    };
    let fin = spec_lib_state(p.samples, p.weights, p.frames, m);
    fin.3 + (if fin.2.len() > 0 && fin.1 >= 33000 {
        spec_flush(fin.2)
    } else {
        Seq::<(usize, u32)>::empty()
    })
}

/// Same-library call chains that take 33ms or more in total under one
/// stack root.
pub struct LongLibCall;

impl LongLibCall {
    /// The rule's diagnostic code.
    pub fn code(&self) -> (r: String)
        ensures
            r@ == "long-lib-call"@,
    {
        String::from_str("long-lib-call")
    }

    /// The rule's documentation text.
    pub fn desc(&self) -> (r: String) {
        String::from_str(
            r#"Same library function calls that totally take more then 33ms.

> Function calls under the root call where total time is less then 33ms are ignored.
> They are innocent for causing user interaction blocking.

To achieve better accuracy, we would trace down to the lowest third party lib call and record it.
For instance, we should only record `react.a` calling because there may be no way to know how `react.b` or `react.c` is called internally:

```text
react.a => react.b => react.c
```

#### Examples: 

```text
// ignored
------- f -------  ------- f -------
------- stack root (total time < 33ms) -------

// react.a counts:
--- react.b (total time > 33ms) ----
---------------- react.a -----------------------
--------------------- antd.a -------------------
------- stack root (total time >= 33ms) --------
```
"#,
        )
    }

    /// Walk the samples grouped by stack root; for each group whose root
    /// accumulated at least 33ms, report every lowest library frame whose
    /// accumulated weight reaches 33ms.  The appended diagnostics are
    /// exactly the rule's reports, in order: each carries this rule's code,
    /// the reported frame with its bundle hash and the accumulated weight.
    /// Nothing else in the context changes.
    pub fn analyse_profile(&self, ctx: &mut Context, profile: &Profile)
        requires
            samples_wf(profile@),
        ensures
            final(ctx).artifacts@ == old(ctx).artifacts@,
            lib_diags_extended(
                old(ctx).diagnostics@,
                final(ctx).diagnostics@,
                spec_long_lib_reports(profile@),
                profile@.frames,
            ),
    {
        let ghost nf = profile@.frames.len();
        let pairs = profile.for_each_sample();
        let ghost m: int = if profile@.samples.len() <= profile@.weights.len() {
            profile@.samples.len() as int
        } else {
            profile@.weights.len() as int
        };
        let mut root_frame: usize = usize::MAX;
        let mut root_total: u32 = 0;
        let mut lib_weight: Vec<(usize, u32)> = Vec::new();
        let mut i: usize = 0;
        proof {
            assert(lib_diags_extended(
                old(ctx).diagnostics@,
                ctx.diagnostics@,
                Seq::<(usize, u32)>::empty(),
                profile@.frames,
            ));
        }
        while i < pairs.len()
            invariant
                i <= pairs@.len(),
                nf == profile@.frames.len(),
                samples_wf(profile@),
                m == if profile@.samples.len() <= profile@.weights.len() {
                    profile@.samples.len() as int
                } else {
                    profile@.weights.len() as int
                },
                pairs@.len() == m,
                forall|t: int|
                    0 <= t < pairs@.len() ==> (#[trigger] pairs@[t]).0@ == profile@.samples[t]
                        && pairs@[t].1 == profile@.weights[t],
                pairs@.len() <= profile@.samples.len(),
                lib_weights_wf(lib_weight@, nf),
                ctx.artifacts@ == old(ctx).artifacts@,
                root_frame == spec_lib_state(
                    profile@.samples,
                    profile@.weights,
                    profile@.frames,
                    i as int,
                ).0,
                root_total == spec_lib_state(
                    profile@.samples,
                    profile@.weights,
                    profile@.frames,
                    i as int,
                ).1,
                lib_weight@ == spec_lib_state(
                    profile@.samples,
                    profile@.weights,
                    profile@.frames,
                    i as int,
                ).2,
                lib_diags_extended(
                    old(ctx).diagnostics@,
                    ctx.diagnostics@,
                    spec_lib_state(profile@.samples, profile@.weights, profile@.frames, i as int).3,
                    profile@.frames,
                ),
            decreases pairs@.len() - i,
        {
            let ghost st_prev = spec_lib_state(
                profile@.samples,
                profile@.weights,
                profile@.frames,
                i as int,
            );
            let sample = &pairs[i].0;
            let weight = pairs[i].1;
            if sample.len() == 0 {
                proof {
                    assert(spec_lib_state(
                        profile@.samples,
                        profile@.weights,
                        profile@.frames,
                        i as int + 1,
                    ) == st_prev);
                }
                i += 1;
                continue;
            }
            proof {
                assert(sample@ == profile@.samples[i as int]);
            }
            let cur_root = sample[0];
            let ghost out_grouped: Seq<(usize, u32)>;
            if root_frame == cur_root {
                root_total = sat_add(root_total, weight);
                proof {
                    out_grouped = st_prev.3;
                }
            } else {
                let done = lib_weight;
                lib_weight = Vec::new();
                if root_total >= 33000 {
                    let ghost mid = ctx.diagnostics@;
                    flush_lib_weights(ctx, profile, &done);
                    proof {
                        lemma_lib_diags_chain(
                            old(ctx).diagnostics@,
                            mid,
                            ctx.diagnostics@,
                            st_prev.3,
                            spec_flush(done@),
                            profile@.frames,
                        );
                        out_grouped = st_prev.3 + spec_flush(st_prev.2);
                    }
                } else {
                    proof {
                        out_grouped = st_prev.3;
                    }
                }
                root_frame = cur_root;
                root_total = weight;
                proof {
                    assert(lib_weight@ =~= Seq::<(usize, u32)>::empty());
                }
            }
            let ghost lw_grouped = lib_weight@;
            let ghost target = spec_lib_target(
                sample@,
                profile@.frames,
                sample@.len() - 1,
                None,
            );
            let mut last_frame_index: Option<usize> = None;
            let mut last_module: Option<String> = None;
            let mut bumped = false;
            let mut j: usize = sample.len();
            while j > 0
                invariant_except_break
                    !bumped,
                    spec_lib_target(sample@, profile@.frames, j as int - 1, last_frame_index)
                        == target,
                    lib_weight@ == lw_grouped,
                invariant
                    j <= sample@.len(),
                    nf == profile@.frames.len(),
                    samples_wf(profile@),
                    i < profile@.samples.len(),
                    sample@ == profile@.samples[i as int],
                    lib_weights_wf(lw_grouped, nf),
                    lib_weights_wf(lib_weight@, nf),
                    last_frame_index is Some <==> last_module is Some,
                    last_frame_index matches Some(v) ==> v < nf && profile@.frames[v as int].node_module
                        == crate::profile::opt_str_view(last_module),
                ensures
                    lib_weights_wf(lib_weight@, nf),
                    bumped ==> target is Some && lib_weight@ == (match target {
                        Some(v) => spec_lw_bump(lw_grouped, v, weight),
                        None => lw_grouped,
                    }),
                    !bumped ==> target is None && lib_weight@ == lw_grouped,
                decreases j,
            {
                j -= 1;
                let fi = sample[j];
                proof {
                    assert(profile@.samples[i as int][j as int] < nf);
                }
                let frame = &profile.frames[fi];
                proof {
                    assert(frame@ == profile@.frames[fi as int]);
                }
                let frame_module: &Option<String> = &frame.node_module;
                match frame_module {
                    None => {},
                    Some(md) => {
                        let same = match &last_module {
                            None => None,
                            Some(lm) => Some(str_eq(lm.as_str(), md.as_str())),
                        };
                        match same {
                            None => {
                                last_module = Some(md.clone());
                                last_frame_index = Some(fi);
                            },
                            Some(true) => {
                                proof {
                                    assert(profile@.frames[fi as int].node_module
                                        == crate::profile::opt_str_view(last_module));
                                }
                                last_frame_index = Some(fi);
                            },
                            Some(false) => {
                                proof {
                                    assert(spec_lib_target(
                                        sample@,
                                        profile@.frames,
                                        j as int,
                                        last_frame_index,
                                    ) == target);
                                    assert(profile@.frames[fi as int].node_module is Some);
                                }
                                if let Some(lfi) = last_frame_index {
                                    proof {
                                        assert(target == Some(lfi));
                                    }
                                    bump_lib_weight(&mut lib_weight, lfi, weight, Ghost(nf));
                                    bumped = true;
                                }
                                break;
                            },
                        }
                    },
                }
            }
            proof {
                if !bumped {
                    assert(lib_weight@ == lw_grouped);
                }
                let st_next = spec_lib_state(
                    profile@.samples,
                    profile@.weights,
                    profile@.frames,
                    i as int + 1,
                );
                assert(st_next.0 == root_frame);
                assert(st_next.1 == root_total);
                assert(st_next.2 == lib_weight@);
                assert(st_next.3 == out_grouped);
            }
            i += 1;
        }
        if lib_weight.len() > 0 && root_total >= 33000 {
            let ghost mid = ctx.diagnostics@;
            let ghost fin = spec_lib_state(profile@.samples, profile@.weights, profile@.frames, m);
            flush_lib_weights(ctx, profile, &lib_weight);
            proof {
                lemma_lib_diags_chain(
                    old(ctx).diagnostics@,
                    mid,
                    ctx.diagnostics@,
                    fin.3,
                    spec_flush(fin.2),
                    profile@.frames,
                );
                assert(spec_long_lib_reports(profile@) == fin.3 + spec_flush(fin.2));
            }
        } else {
            proof {
                let fin = spec_lib_state(
                    profile@.samples,
                    profile@.weights,
                    profile@.frames,
                    m,
                );
                assert(spec_long_lib_reports(profile@) =~= fin.3);
            }
        }
    }
}

} // verus!
