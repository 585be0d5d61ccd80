//! Gatherers: measurements taken over a whole profile, recorded as
//! artifacts rather than diagnostics.

use vstd::prelude::*;
use crate::analyzer::{Context, Artifact};
use crate::profile::{Profile, FrameView, samples_wf, sat_add, spec_sat_add};
use vstd::string::StringExecFns;

verus! {

/// Mathematical image of a per-file time table.
pub open spec fn table_view(rows: Seq<(String, u32)>) -> Seq<(Seq<char>, u32)> {
    Seq::new(rows.len(), |i: int| (rows[i].0@, rows[i].1))
}

/// Add `w` onto the row of `file`, saturating; a file without a row gets a
/// new one at the end.
pub open spec fn spec_bump_table(
    t: Seq<(Seq<char>, u32)>,
    file: Seq<char>,
    w: u32,
) -> Seq<(Seq<char>, u32)>
    decreases t.len(),
{
    if t.len() == 0 {
        seq![(file, w)]
    } else if t[0].0 == file {
        seq![(t[0].0, spec_sat_add(t[0].1, w))] + t.drop_first()
    } else {
        seq![t[0]] + spec_bump_table(t.drop_first(), file, w)
    }
}

/// The per-file table after the first `upto` sample/weight pairs: each
/// counted sample's weight lands on the row of its innermost frame's script
/// file; empty samples and frames without a script file are skipped.
pub open spec fn spec_script_table(
    samples: Seq<Seq<usize>>,
    weights: Seq<u32>,
    frames: Seq<FrameView>,
    upto: int,
) -> Seq<(Seq<char>, u32)>
    decreases upto,
{
    if upto <= 0 {
        Seq::empty()
    } else {
        let prev = spec_script_table(samples, weights, frames, upto - 1);
        let s = samples[upto - 1];
        if s.len() == 0 {
            prev
        } else {
            let file = frames[s.last() as int].origin_script_file;
            if file.len() == 0 {
                prev
            } else {
                spec_bump_table(prev, file, weights[upto - 1])
            }
        }
    }
}

/// When the first match for `file` sits at position `i`, bumping is an
/// in-place update.
proof fn lemma_bump_prefix(t: Seq<(Seq<char>, u32)>, file: Seq<char>, w: u32, i: int)
    requires
        0 <= i < t.len(),
        t[i].0 == file,
        forall|j: int| 0 <= j < i ==> t[j].0 != file,
    ensures
        spec_bump_table(t, file, w) == t.update(i, (t[i].0, spec_sat_add(t[i].1, w))),
    decreases i,
{
    if i == 0 {
        assert(spec_bump_table(t, file, w) =~= t.update(0, (t[0].0, spec_sat_add(t[0].1, w))));
    } else {
        lemma_bump_prefix(t.drop_first(), file, w, i - 1);
        assert(spec_bump_table(t, file, w) =~= t.update(i, (t[i].0, spec_sat_add(t[i].1, w))));
    }
}

/// Bumping a file that has no row appends one.
proof fn lemma_bump_absent(t: Seq<(Seq<char>, u32)>, file: Seq<char>, w: u32)
    requires
        forall|j: int| 0 <= j < t.len() ==> t[j].0 != file,
    ensures
        spec_bump_table(t, file, w) == t + seq![(file, w)],
    decreases t.len(),
{
    if t.len() == 0 {
        assert(spec_bump_table(t, file, w) =~= t + seq![(file, w)]);
    } else {
        lemma_bump_absent(t.drop_first(), file, w);
        assert(spec_bump_table(t, file, w) =~= t + seq![(file, w)]);
    }
}

/// Add `w` onto the row of `file`, creating the row when it is new.
fn bump_script_time(table: &mut Vec<(String, u32)>, file: &String, w: u32)
    ensures
        table_view(final(table)@) == spec_bump_table(table_view(old(table)@), file@, w),
{
    let ghost orig = table_view(old(table)@);
    let mut j: usize = 0;
    while j < table.len()
        invariant
            j <= table@.len(),
            orig == table_view(old(table)@),
            table_view(table@) == orig,
            forall|k: int| 0 <= k < j ==> orig[k].0 != file@,
        decreases table@.len() - j,
    {
        if table[j].0.eq(file) {
            proof {
                assert(orig[j as int].0 == file@);
            }
            let cur = table[j].1;
            let name = table[j].0.clone();
            table.set(j, (name, sat_add(cur, w)));
            proof {
                lemma_bump_prefix(orig, file@, w, j as int);
                assert(table_view(table@) =~= orig.update(
                    j as int,
                    (orig[j as int].0, spec_sat_add(orig[j as int].1, w)),
                ));
            }
            return;
        }
        j += 1;
    }
    table.push((file.clone(), w));
    proof {
        lemma_bump_absent(orig, file@, w);
        assert(table_view(table@) =~= orig + seq![(file@, w)]);
    }
}

/// Time spent per originating script file, attributed to the innermost
/// frame of each sample.
pub struct TimeUsingByScriptFile;

impl TimeUsingByScriptFile {
    /// The gatherer's artifact code.
    pub fn code(&self) -> (r: String)
        ensures
            r@ == "time-using-by-script-file"@,
    {
        String::from_str("time-using-by-script-file")
    }

    /// Sum each sample's weight onto the script file of its innermost
    /// frame; samples that are empty or whose frame has no script file are
    /// skipped.  Exactly one artifact is added under this gatherer's code:
    /// the per-file table of all counted samples.  The diagnostics stay
    /// untouched.
    pub fn analyse_profile(&self, ctx: &mut Context, profile: &Profile)
        requires
            samples_wf(profile@),
        ensures
            final(ctx).diagnostics@ == old(ctx).diagnostics@,
            final(ctx).artifacts@.len() == old(ctx).artifacts@.len() + 1,
            forall|i: int|
                0 <= i < old(ctx).artifacts@.len() ==> final(ctx).artifacts@[i] == old(ctx).artifacts@[i],
            final(ctx).artifacts@.last().0@ == "time-using-by-script-file"@,
            final(ctx).artifacts@.last().1 matches Artifact::Table(rows) && table_view(rows@)
                == spec_script_table(
                profile@.samples,
                profile@.weights,
                profile@.frames,
                if profile@.samples.len() <= profile@.weights.len() {
                    profile@.samples.len() as int
                } else {
                    profile@.weights.len() as int
                },
            ),
    {
        let pairs = profile.for_each_sample();
        let mut script_time_using: Vec<(String, u32)> = Vec::new();
        let mut i: usize = 0;
        proof {
            assert(table_view(script_time_using@) =~= Seq::<(Seq<char>, u32)>::empty());
        }
        while i < pairs.len()
            invariant
                i <= pairs@.len(),
                samples_wf(profile@),
                forall|t: int|
                    0 <= t < pairs@.len() ==> (#[trigger] pairs@[t]).0@ == profile@.samples[t]
                        && pairs@[t].1 == profile@.weights[t],
                pairs@.len() <= profile@.samples.len(),
                table_view(script_time_using@) == spec_script_table(
                    profile@.samples,
                    profile@.weights,
                    profile@.frames,
                    i as int,
                ),
            decreases pairs@.len() - i,
        {
            let sample = &pairs[i].0;
            let weight = pairs[i].1;
            if sample.len() == 0 {
                i += 1;
                continue;
            }
            proof {
                assert(sample@ == profile@.samples[i as int]);
                assert(profile@.samples[i as int][sample@.len() - 1] < profile@.frames.len());
            }
            let fi = sample[sample.len() - 1];
            let frame = &profile.frames[fi];
            proof {
                assert(frame@ == profile@.frames[fi as int]);
                assert(fi == profile@.samples[i as int].last());
            }
            if frame.origin_script_file.as_str().is_empty() {
                i += 1;
                continue;
            }
            bump_script_time(&mut script_time_using, &frame.origin_script_file, weight);
            i += 1;
        }
        ctx.add_artifact("time-using-by-script-file", Artifact::Table(script_time_using));
    }
}

/// The summed weight of every sample that has more than one frame on its
/// stack, up to position `upto` of the zipped sample/weight list.
pub open spec fn spec_total_execution(
    samples: Seq<Seq<usize>>,
    weights: Seq<u32>,
    upto: int,
) -> u32
    decreases upto,
{
    if upto <= 0 {
        0u32
    } else {
        let prev = spec_total_execution(samples, weights, upto - 1);
        if samples[upto - 1].len() <= 1 {
            prev
        } else {
            spec_sat_add(prev, weights[upto - 1])
        }
    }
}

/// Total script execution time: the summed weight of every sample deeper
/// than one frame.
pub struct TotalExecutionTime;

impl TotalExecutionTime {
    /// The gatherer's artifact code.
    pub fn code(&self) -> (r: String)
        ensures
            r@ == "total-execution-time"@,
    {
        String::from_str("total-execution-time")
    }

    /// Add one numeric artifact under this gatherer's code: the saturating
    /// sum of the weights of all samples with more than one frame.  The
    /// diagnostics stay untouched.
    pub fn analyse_profile(&self, ctx: &mut Context, profile: &Profile)
        ensures
            final(ctx).diagnostics@ == old(ctx).diagnostics@,
            final(ctx).artifacts@.len() == old(ctx).artifacts@.len() + 1,
            forall|i: int|
                0 <= i < old(ctx).artifacts@.len() ==> final(ctx).artifacts@[i] == old(ctx).artifacts@[i],
            final(ctx).artifacts@.last().0@ == "total-execution-time"@,
            final(ctx).artifacts@.last().1 == Artifact::Number(
                spec_total_execution(
                    profile@.samples,
                    profile@.weights,
                    if profile@.samples.len() <= profile@.weights.len() {
                        profile@.samples.len() as int
                    } else {
                        profile@.weights.len() as int
                    },
                ),
            ),
    {
        let pairs = profile.for_each_sample();
        let mut total: u32 = 0;
        let mut i: usize = 0;
        while i < pairs.len()
            invariant
                i <= pairs@.len(),
                forall|t: int|
                    0 <= t < pairs@.len() ==> (#[trigger] pairs@[t]).0@ == profile@.samples[t]
                        && pairs@[t].1 == profile@.weights[t],
                pairs@.len() == if profile@.samples.len() <= profile@.weights.len() {
                    profile@.samples.len()
                } else {
                    profile@.weights.len()
                },
                total == spec_total_execution(profile@.samples, profile@.weights, i as int),
            decreases pairs@.len() - i,
        {
            let sample = &pairs[i].0;
            let weight = pairs[i].1;
            if sample.len() > 1 {
                total = sat_add(total, weight);
            }
            i += 1;
        }
        ctx.add_artifact("total-execution-time", Artifact::Number(total));
    }
}

} // verus!
