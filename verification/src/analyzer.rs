//! Diagnostics and artifacts collected while the analysis rules and
//! gatherers run over a profile.

use vstd::prelude::*;
use vstd::string::StringExecFns;
use crate::profile::{Frame, FrameView, Profile, opt_str_view, copy_opt_string, samples_wf};
use crate::rules::{LongFuncCall, LongLibCall};
use crate::gatherers::{
    TimeUsingByScriptFile, TotalExecutionTime, table_view, spec_script_table,
    spec_total_execution,
};

verus! {

/// The measured payload of one diagnostic.  Values are in microseconds;
/// `is_source` is set by rules that only report project-own code.
#[derive(Clone, Copy, PartialEq, Eq, Structural, Debug)]
pub struct DiagnosticInfo {
    pub value: u32,
    pub is_source: Option<bool>,
}

/// Mathematical image of one diagnostic.
pub ghost struct DiagnosticView {
    pub code: Seq<char>,
    pub frame: FrameView,
    pub bundle_hash: Option<Seq<char>>,
    pub info: DiagnosticInfo,
}

/// One finding of a rule: the rule code, the frame it points at, the
/// frame's bundle hash and the measured payload.
pub struct Diagnostic {
    pub code: String,
    pub frame: Frame,
    pub bundle_hash: Option<String>,
    pub info: DiagnosticInfo,
}

impl View for Diagnostic {
    type V = DiagnosticView;

    open spec fn view(&self) -> DiagnosticView {
        DiagnosticView {
            code: self.code@,
            frame: self.frame@,
            bundle_hash: opt_str_view(self.bundle_hash),
            info: self.info,
        }
    }
}

/// One value a gatherer produced: a per-key table or a single number.
pub enum Artifact {
    Table(Vec<(String, u32)>),
    Number(u32),
}

/// What an analysis run accumulates: the rules' diagnostics and the
/// gatherers' artifacts, each artifact under its gatherer code.
pub struct Context {
    pub diagnostics: Vec<Diagnostic>,
    pub artifacts: Vec<(String, Artifact)>,
}

impl Context {
    /// An empty context.
    pub fn new() -> (r: Self)
        ensures
            r.diagnostics@ == Seq::<Diagnostic>::empty(),
            r.artifacts@ == Seq::<(String, Artifact)>::empty(),
    {
        Context { diagnostics: Vec::new(), artifacts: Vec::new() }
    }

    /// Append one diagnostic for a frame; the bundle hash is taken from the
    /// frame.
    pub fn add_diagnostic(&mut self, code: &str, frame: &Frame, info: DiagnosticInfo)
        ensures
            final(self).diagnostics@.len() == old(self).diagnostics@.len() + 1,
            forall|i: int|
                0 <= i < old(self).diagnostics@.len() ==> final(self).diagnostics@[i] == old(self).diagnostics@[i],
            final(self).diagnostics@.last()@.code == code@,
            final(self).diagnostics@.last()@.frame == frame@,
            final(self).diagnostics@.last()@.bundle_hash == opt_str_view(frame.bundle_hash),
            final(self).diagnostics@.last()@.info == info,
            final(self).artifacts@ == old(self).artifacts@,
    {
        let d = Diagnostic {
            code: String::from_str(code),
            frame: frame.clone(),
            bundle_hash: copy_opt_string(&frame.bundle_hash),
            info,
        };
        self.diagnostics.push(d);
    }

    /// Record one gatherer's artifact under its code.
    pub fn add_artifact(&mut self, name: &str, artifact: Artifact)
        ensures
            final(self).artifacts@.len() == old(self).artifacts@.len() + 1,
            forall|i: int|
                0 <= i < old(self).artifacts@.len() ==> final(self).artifacts@[i] == old(self).artifacts@[i],
            final(self).artifacts@.last().0@ == name@,
            final(self).artifacts@.last().1 == artifact,
            final(self).diagnostics@ == old(self).diagnostics@,
    {
        self.artifacts.push((String::from_str(name), artifact));
    }
}

/// Runs every rule, then every gatherer, over one profile and hands the
/// collected findings out.
pub struct Analyzer {
    pub ctx: Context,
}

impl Analyzer {
    /// A fresh analyzer with an empty context.
    pub fn new() -> (r: Self)
        ensures
            r.ctx.diagnostics@ == Seq::<Diagnostic>::empty(),
            r.ctx.artifacts@ == Seq::<(String, Artifact)>::empty(),
    {
        Analyzer { ctx: Context::new() }
    }

    /// Run the rules and the gatherers over the profile and hand back all
    /// diagnostics and artifacts: the context's earlier findings are kept
    /// in front, every appended diagnostic carries one of the two rule
    /// codes, and the two gatherers append exactly one artifact each — the
    /// per-script-file time table and the total execution time.
    pub fn analyse(self, profile: &Profile) -> (r: (Vec<Diagnostic>, Vec<(String, Artifact)>))
        requires
            samples_wf(profile@),
        ensures
            r.0@.len() >= self.ctx.diagnostics@.len(),
            forall|i: int|
                0 <= i < self.ctx.diagnostics@.len() ==> r.0@[i] == self.ctx.diagnostics@[i],
            forall|i: int|
                self.ctx.diagnostics@.len() <= i < r.0@.len() ==> ((#[trigger] r.0@[i])@.code
                    == "long-func-call"@ || r.0@[i]@.code == "long-lib-call"@),
            r.1@.len() == self.ctx.artifacts@.len() + 2,
            forall|i: int|
                0 <= i < self.ctx.artifacts@.len() ==> r.1@[i] == self.ctx.artifacts@[i],
            r.1@[r.1@.len() - 2].0@ == "time-using-by-script-file"@,
            r.1@[r.1@.len() - 2].1 matches Artifact::Table(rows) && table_view(rows@)
                == spec_script_table(
                profile@.samples,
                profile@.weights,
                profile@.frames,
                if profile@.samples.len() <= profile@.weights.len() {
                    profile@.samples.len() as int
                } else {
                    profile@.weights.len() as int
                },
            ),
            r.1@[r.1@.len() - 1].0@ == "total-execution-time"@,
            r.1@[r.1@.len() - 1].1 == Artifact::Number(
                spec_total_execution(
                    profile@.samples,
                    profile@.weights,
                    if profile@.samples.len() <= profile@.weights.len() {
                        profile@.samples.len() as int
                    } else {
                        profile@.weights.len() as int
                    },
                ),
            ),
    {
        let Analyzer { mut ctx } = self;
        let ghost n0 = ctx.diagnostics@.len() as int;
        let long_func_call = LongFuncCall;
        long_func_call.analyse_profile(&mut ctx, profile);
        let ghost mid = ctx.diagnostics@;
        let long_lib_call = LongLibCall;
        long_lib_call.analyse_profile(&mut ctx, profile);
        proof {
            assert forall|i: int|
                n0 <= i < ctx.diagnostics@.len() implies ((#[trigger] ctx.diagnostics@[i])@.code
                == "long-func-call"@ || ctx.diagnostics@[i]@.code == "long-lib-call"@) by {
                if i < mid.len() {
                    assert(ctx.diagnostics@[i] == mid[i]);
                    let k = i - n0;
                    let out1 = crate::rules::spec_long_func_reports(profile@);
                    assert(out1[k] == out1[k]);
                    assert(mid[n0 + k]@.code == "long-func-call"@);
                } else {
                    let k = i - mid.len();
                    let out2 = crate::rules::spec_long_lib_reports(profile@);
                    assert(out2[k] == out2[k]);
                    assert(ctx.diagnostics@[mid.len() as int + k]@.code == "long-lib-call"@);
                }
            }
        }
        let time_using = TimeUsingByScriptFile;
        time_using.analyse_profile(&mut ctx, profile);
        let total_time = TotalExecutionTime;
        total_time.analyse_profile(&mut ctx, profile);
        let Context { diagnostics, artifacts } = ctx;
        (diagnostics, artifacts)
    }
}

} // verus!
