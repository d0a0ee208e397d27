//! The pipeline orchestrator. A [`Runner`] sequences the stages — parse first,
//! write last, string masking and symbol mapping only when their context flag
//! is set — partitions the progress axis into one band per stage, polls the
//! cooperative cancellation flag before every stage, and owns the run's event
//! trace.
//!
//! The runner never touches the file system: it hands the host an [`Action`]
//! describing the next read, write or copy, and the host feeds the outcome
//! back in. Whatever the outcomes, a finished runner's trace is well-formed:
//! progress values never decrease, exactly one terminal event is emitted, it
//! comes last, and on success it is `Done` immediately preceded by full
//! progress.

use core::sync::atomic::AtomicBool;
use vstd::prelude::*;

use crate::binary::{classification_of, BinaryInfo};
use crate::cancel::cancel_requested;
use crate::events::{
    lemma_append_block, lemma_block_concat, lemma_close_trace, lemma_le_implies_within,
    no_terminal, progress_le, progress_monotone, progress_within, push_log_event,
    push_progress_event, wf_trace, PipelineEvent, PROGRESS_FULL,
};
use crate::mask::spec_masked;
use crate::paths::{enc_path, map_path, spec_output_path};
use crate::ranges::{ranges_resolved, ByteRange};
use crate::scan::{scan_result_ok, StringCandidate};
use crate::steps::{
    EncryptOutcome, EncryptStringsStep, ObfuscateFunctionsStep, ObfuscateOutcome, ParseStep,
    WriteOutputStep,
};
use crate::symbols::{mapping_ok, spec_mapping_text, symbols_planned, SymbolEntry};

verus! {

/// Immutable per-run configuration. Stages never mutate it; the cancellation
/// flag lives beside it as a shared atomic owned by the host.
pub struct PipelineContext {
    pub input_path: String,
    pub encrypt_strings: bool,
    pub obfuscate_functions: bool,
}

impl PipelineContext {
    pub fn new(input_path: String, encrypt_strings: bool, obfuscate_functions: bool) -> (c: Self)
        ensures
            c.input_path@ == input_path@,
            c.encrypt_strings == encrypt_strings,
            c.obfuscate_functions == obfuscate_functions,
    {
        PipelineContext { input_path, encrypt_strings, obfuscate_functions }
    }
}

/// What the host must do next for the run to make progress.
pub enum Action {
    /// Read the input file and call [`Runner::on_read`] with the result.
    ReadInput { path: String },
    /// Write the masked buffer to the side-artifact path and call
    /// [`Runner::on_artifact_written`]. Failure is non-fatal.
    WriteArtifact { path: String, bytes: Vec<u8> },
    /// Write the renaming table to the side-artifact path and call
    /// [`Runner::on_artifact_written`]. Failure is non-fatal.
    WriteText { path: String, text: String },
    /// Copy the input to the final artifact path and call
    /// [`Runner::on_copied`]. Failure ends the run with an error.
    CopyInput { from: String, to: String },
    /// The run is over; no further events follow.
    Stop,
}

/// One step of the run: the events to deliver, in order, and the next action.
pub struct RunnerStep {
    pub events: Vec<PipelineEvent>,
    pub action: Action,
}

#[derive(Clone, Copy, PartialEq, Eq, Structural, Debug)]
enum Phase {
    Created,
    AwaitRead,
    AwaitEncWrite,
    AwaitMapWrite,
    AwaitCopy,
    Finished,
}

/// Number of stages the context selects: parse and write always run; string
/// masking and symbol mapping are included only when their flag is set.
pub open spec fn spec_n_stages(ctx: PipelineContext) -> int {
    2 + (if ctx.encrypt_strings {
        1int
    } else {
        0int
    }) + (if ctx.obfuscate_functions {
        1int
    } else {
        0int
    })
}

/// Stage index of the symbol-mapping stage.
pub open spec fn spec_obf_index(ctx: PipelineContext) -> int {
    1 + (if ctx.encrypt_strings {
        1int
    } else {
        0int
    })
}

/// The progress value at which stage `i` of `n` begins: the stages partition
/// `0 ..= PROGRESS_FULL` into `n` equal bands.
pub open spec fn spec_stage_bound(n: int, i: int) -> int {
    (i * (PROGRESS_FULL as int)) / n
}

proof fn lemma_stage_bounds(n: int, i: int, j: int)
    requires
        1 <= n,
        0 <= i <= j <= n,
    ensures
        0 <= spec_stage_bound(n, i) <= spec_stage_bound(n, j) <= PROGRESS_FULL as int,
        spec_stage_bound(n, n) == PROGRESS_FULL as int,
        spec_stage_bound(n, 0) == 0,
{
    let f = PROGRESS_FULL as int;
    vstd::arithmetic::mul::lemma_mul_inequality(i, j, f);
    vstd::arithmetic::mul::lemma_mul_inequality(j, n, f);
    vstd::arithmetic::div_mod::lemma_div_is_ordered(i * f, j * f, n);
    vstd::arithmetic::div_mod::lemma_div_is_ordered(j * f, n * f, n);
    vstd::arithmetic::div_mod::lemma_div_multiples_vanish(f, n);
    vstd::arithmetic::div_mod::lemma_div_pos_is_pos(i * f, n);
    vstd::arithmetic::mul::lemma_mul_nonnegative(i, f);
}

fn stage_bound(n: usize, i: usize) -> (b: u32)
    requires
        1 <= n <= 4,
        i <= n,
    ensures
        b as int == spec_stage_bound(n as int, i as int),
        b <= PROGRESS_FULL,
{
    proof {
        lemma_stage_bounds(n as int, i as int, n as int);
    }
    ((i * (PROGRESS_FULL as usize)) / n) as u32
}

/// The run-level error message for an unreadable input file.
pub open spec fn read_error_message(path: Seq<char>, cause: Seq<char>) -> Seq<char> {
    "Failed to read file '"@ + path + "': "@ + cause
}

/// The run-level error message for a failed final copy.
pub open spec fn copy_error_message(out: Seq<char>, cause: Seq<char>) -> Seq<char> {
    "Failed to write output '"@ + out + "': "@ + cause
}

/// The orchestrator's state across one run.
pub struct Runner {
    ctx: PipelineContext,
    phase: Phase,
    image: Vec<u8>,
    info: BinaryInfo,
    ranges: Vec<ByteRange>,
    candidates: Vec<StringCandidate>,
    names: Vec<String>,
    entries: Vec<SymbolEntry>,
    out_path: String,
    n_stages: usize,
    floor: u32,
    emitted: Ghost<Seq<PipelineEvent>>,
}

impl Runner {
    /// Every event the run has emitted so far, in emission order.
    pub closed spec fn trace(self) -> Seq<PipelineEvent> {
        self.emitted@
    }

    /// The run has ended: its trace is a well-formed whole.
    pub closed spec fn finished(self) -> bool {
        self.phase is Finished
    }

    pub closed spec fn ready(self) -> bool {
        self.phase is Created
    }

    pub closed spec fn awaiting_read(self) -> bool {
        self.phase is AwaitRead
    }

    pub closed spec fn awaiting_artifact(self) -> bool {
        self.awaiting_enc_write() || self.awaiting_map_write()
    }

    /// The masked-buffer side-artifact write is pending.
    pub closed spec fn awaiting_enc_write(self) -> bool {
        self.phase is AwaitEncWrite
    }

    /// The renaming-table side-artifact write is pending.
    pub closed spec fn awaiting_map_write(self) -> bool {
        self.phase is AwaitMapWrite
    }

    pub closed spec fn awaiting_copy(self) -> bool {
        self.phase is AwaitCopy
    }

    pub closed spec fn context(self) -> PipelineContext {
        self.ctx
    }

    /// The input byte image, once read.
    pub closed spec fn image(self) -> Seq<u8> {
        self.image@
    }

    /// The classification of the input.
    pub closed spec fn classified(self) -> BinaryInfo {
        self.info
    }

    /// The resolved byte ranges.
    pub closed spec fn resolved(self) -> Seq<ByteRange> {
        self.ranges@
    }

    /// The string candidates the scan found.
    pub closed spec fn found(self) -> Seq<StringCandidate> {
        self.candidates@
    }

    /// The planned original symbol names.
    pub closed spec fn planned(self) -> Seq<Seq<char>> {
        self.names@.map_values(|s: String| s@)
    }

    /// The renaming table.
    pub closed spec fn mapping(self) -> Seq<SymbolEntry> {
        self.entries@
    }

    /// The runner's invariant: the trace so far is terminal-free with
    /// non-decreasing progress below the current floor, and once finished it
    /// is a well-formed whole trace.
    pub closed spec fn wf(self) -> bool {
        let n = self.n_stages as int;
        &&& self.n_stages == spec_n_stages(self.ctx)
        &&& self.floor <= PROGRESS_FULL
        &&& progress_monotone(self.emitted@)
        &&& progress_le(self.emitted@, self.floor)
        &&& (self.phase is Finished ==> wf_trace(self.emitted@))
        &&& (!(self.phase is Finished) ==> no_terminal(self.emitted@))
        &&& (self.phase is Created ==> self.floor == 0)
        &&& (self.phase is AwaitRead ==> self.floor == 0)
        &&& (self.phase is AwaitEncWrite ==> self.ctx.encrypt_strings && self.floor as int
            == spec_stage_bound(n, 2))
        &&& (self.phase is AwaitMapWrite ==> self.ctx.obfuscate_functions && self.floor as int
            == spec_stage_bound(n, spec_obf_index(self.ctx) + 1))
        &&& (self.phase is AwaitCopy ==> self.floor as int == spec_stage_bound(n, n - 1)
            && self.out_path@ == spec_output_path(self.ctx.input_path@))
    }

    /// The trace law of every run: once a runner has finished — whatever the
    /// host's read, write and copy outcomes and whatever the cancellation flag
    /// did — its trace is well-formed: progress values never decrease, exactly
    /// one terminal event (`Done`, `Error` or `Cancelled`) is emitted, it
    /// comes last, and a successful run reaches `Progress(PROGRESS_FULL)`
    /// immediately before its `Done`.
    pub proof fn lemma_finished_trace_wf(self)
        requires
            self.wf(),
            self.finished(),
        ensures
            wf_trace(self.trace()),
    {
    }

    /// Creates a runner for one run over the given context.
    pub fn new(ctx: PipelineContext) -> (r: Runner)
        ensures
            r.wf(),
            r.ready(),
            !r.finished(),
            r.trace() == Seq::<PipelineEvent>::empty(),
            r.context() == ctx,
    {
        let n_stages = 2 + (if ctx.encrypt_strings {
            1
        } else {
            0
        }) + (if ctx.obfuscate_functions {
            1
        } else {
            0
        });
        Runner {
            ctx,
            phase: Phase::Created,
            image: Vec::new(),
            info: BinaryInfo::Unrecognized,
            ranges: Vec::new(),
            candidates: Vec::new(),
            names: Vec::new(),
            entries: Vec::new(),
            out_path: String::new(),
            n_stages,
            floor: 0,
            emitted: Ghost(Seq::empty()),
        }
    }

    /// Starts the run: announces the parse stage and asks the host to read
    /// the input file.
    pub fn begin(&mut self) -> (step: RunnerStep)
        requires
            old(self).wf(),
            old(self).ready(),
        ensures
            final(self).wf(),
            final(self).awaiting_read(),
            !final(self).finished(),
            final(self).context() == old(self).context(),
            final(self).trace() == old(self).trace() + step.events@,
            step.action matches Action::ReadInput { path } && path@
                == final(self).context().input_path@,
    {
        let ghost t0 = self.emitted@;
        let mut evs: Vec<PipelineEvent> = Vec::new();
        push_progress_event(&mut evs, 0, Ghost(0u32), Ghost(0u32), Ghost(0u32));
        let mut m = "Parsing file: ".to_owned();
        m.append(self.ctx.input_path.as_str());
        push_log_event(&mut evs, m, Ghost(0u32), Ghost(0u32), Ghost(0u32));
        self.phase = Phase::AwaitRead;
        proof {
            lemma_le_implies_within(t0, 0);
            lemma_append_block(t0, evs@, 0, 0);
        }
        self.emitted = Ghost(t0 + evs@);
        let path = self.ctx.input_path.clone();
        RunnerStep { events: evs, action: Action::ReadInput { path } }
    }

    /// Ends the run with the `Cancelled` terminal event.
    fn finish_cancelled(
        &mut self,
        evs: Vec<PipelineEvent>,
        t0: Ghost<Seq<PipelineEvent>>,
        hi: u32,
    ) -> (step: RunnerStep)
        requires
            old(self).emitted@ == t0@,
            old(self).n_stages == spec_n_stages(old(self).ctx),
            no_terminal(t0@ + evs@),
            progress_monotone(t0@ + evs@),
            progress_le(t0@ + evs@, hi),
            hi <= PROGRESS_FULL,
        ensures
            final(self).wf(),
            final(self).finished(),
            final(self).ctx == old(self).ctx,
            final(self).info == old(self).info,
            final(self).image@ == old(self).image@,
            final(self).trace() == t0@ + step.events@,
            step.action is Stop,
            final(self).trace().last() == PipelineEvent::Cancelled,
    {
        let ghost w = t0@ + evs@;
        let mut evs = evs;
        evs.push(PipelineEvent::Cancelled);
        self.phase = Phase::Finished;
        self.floor = hi;
        proof {
            lemma_close_trace(w, PipelineEvent::Cancelled, hi);
            assert(t0@ + evs@ =~= w.push(PipelineEvent::Cancelled));
        }
        self.emitted = Ghost(t0@ + evs@);
        RunnerStep { events: evs, action: Action::Stop }
    }

    /// Runs the symbol-mapping stage if selected, then prepares the write
    /// stage. `cur` is the progress bound at which the remaining stages start.
    fn run_tail(
        &mut self,
        evs: Vec<PipelineEvent>,
        t0: Ghost<Seq<PipelineEvent>>,
        cur: u32,
        flag: &AtomicBool,
    ) -> (step: RunnerStep)
        requires
            old(self).emitted@ == t0@,
            old(self).n_stages == spec_n_stages(old(self).ctx),
            no_terminal(t0@ + evs@),
            progress_monotone(t0@ + evs@),
            progress_le(t0@ + evs@, cur),
            cur <= PROGRESS_FULL,
            cur as int == spec_stage_bound(
                old(self).n_stages as int,
                spec_obf_index(old(self).ctx),
            ),
        ensures
            final(self).wf(),
            final(self).ctx == old(self).ctx,
            final(self).info == old(self).info,
            final(self).image@ == old(self).image@,
            final(self).trace() == t0@ + step.events@,
            step.action is Stop <==> final(self).finished(),
            final(self).finished() ==> final(self).trace().last() == PipelineEvent::Cancelled,
            !(step.action is ReadInput),
            !(step.action is WriteArtifact),
            !final(self).finished() && old(self).ctx.obfuscate_functions ==> step.action
                is WriteText,
            !final(self).finished() && !old(self).ctx.obfuscate_functions ==> step.action
                is CopyInput,
            step.action matches Action::WriteText { path, text } ==> {
                &&& final(self).awaiting_artifact()
                &&& path@ == final(self).ctx.input_path@ + ".obf-map"@
                &&& symbols_planned(final(self).classified(), final(self).planned())
                &&& mapping_ok(final(self).planned(), final(self).mapping())
                &&& text@ == spec_mapping_text(final(self).planned())
            },
            step.action matches Action::CopyInput { from, to } ==> {
                &&& final(self).awaiting_copy()
                &&& from@ == final(self).ctx.input_path@
                &&& to@ == spec_output_path(final(self).ctx.input_path@)
            },
    {
        let ghost w = t0@ + evs@;
        let mut evs = evs;
        if cancel_requested(flag) {
            return self.finish_cancelled(evs, t0, cur);
        }
        let n_st = self.n_stages;
        if self.ctx.obfuscate_functions {
            let oi: usize = if self.ctx.encrypt_strings {
                2
            } else {
                1
            };
            proof {
                lemma_stage_bounds(n_st as int, oi as int, oi as int + 1);
            }
            let ohi = stage_bound(n_st, oi + 1);
            let (mut oevs, outcome) = ObfuscateFunctionsStep::run(&self.info, flag, cur, ohi);
            let ghost pre = evs@;
            evs.append(&mut oevs);
            proof {
                assert(evs@.skip(pre.len() as int) =~= evs@.subrange(
                    pre.len() as int,
                    evs@.len() as int,
                ));
                lemma_le_implies_within(w, cur);
                lemma_append_block(w, evs@.skip(pre.len() as int), cur, ohi);
                assert(t0@ + evs@ =~= w + evs@.skip(pre.len() as int));
                assert(progress_le(t0@ + evs@, ohi));
            }
            match outcome {
                ObfuscateOutcome::Interrupted => {
                    return self.finish_cancelled(evs, t0, ohi);
                },
                ObfuscateOutcome::Mapped { names, entries, rendered } => {
                    self.names = names;
                    self.entries = entries;
                    self.phase = Phase::AwaitMapWrite;
                    self.floor = ohi;
                    self.emitted = Ghost(t0@ + evs@);
                    let path = map_path(self.ctx.input_path.as_str());
                    return RunnerStep {
                        events: evs,
                        action: Action::WriteText { path, text: rendered },
                    };
                },
            }
        }
        self.prep_write(evs, t0, cur, flag)
    }

    /// Announces the write stage, derives the final artifact path and asks the
    /// host to perform the copy.
    fn prep_write(
        &mut self,
        evs: Vec<PipelineEvent>,
        t0: Ghost<Seq<PipelineEvent>>,
        cur: u32,
        flag: &AtomicBool,
    ) -> (step: RunnerStep)
        requires
            old(self).emitted@ == t0@,
            old(self).n_stages == spec_n_stages(old(self).ctx),
            no_terminal(t0@ + evs@),
            progress_monotone(t0@ + evs@),
            progress_le(t0@ + evs@, cur),
            cur <= PROGRESS_FULL,
            cur as int == spec_stage_bound(
                old(self).n_stages as int,
                old(self).n_stages as int - 1,
            ),
        ensures
            final(self).wf(),
            final(self).ctx == old(self).ctx,
            final(self).info == old(self).info,
            final(self).image@ == old(self).image@,
            final(self).trace() == t0@ + step.events@,
            step.action is Stop <==> final(self).finished(),
            final(self).finished() ==> final(self).trace().last() == PipelineEvent::Cancelled,
            !final(self).finished() ==> final(self).awaiting_copy() && (step.action matches
            Action::CopyInput { from, to } && from@ == final(self).ctx.input_path@ && to@
                == spec_output_path(final(self).ctx.input_path@)),
    {
        let ghost w = t0@ + evs@;
        let mut evs = evs;
        if cancel_requested(flag) {
            return self.finish_cancelled(evs, t0, cur);
        }
        let (out, mut wevs) = WriteOutputStep::run(self.ctx.input_path.as_str(), cur, PROGRESS_FULL);
        let ghost pre = evs@;
        evs.append(&mut wevs);
        proof {
            assert(evs@.skip(pre.len() as int) =~= evs@.subrange(
                pre.len() as int,
                evs@.len() as int,
            ));
            lemma_le_implies_within(w, cur);
            lemma_append_block(w, evs@.skip(pre.len() as int), cur, PROGRESS_FULL);
            assert(t0@ + evs@ =~= w + evs@.skip(pre.len() as int));
            // the write stage announces itself without progress events, so the
            // trace's progress stays at the write band's start
            let u = w + evs@.skip(pre.len() as int);
            assert forall|i: int| 0 <= i < u.len() implies match #[trigger] u[i] {
                PipelineEvent::Progress(p) => p <= cur,
                _ => true,
            } by {
                if i < w.len() {
                    assert(u[i] == w[i]);
                } else {
                    assert(u[i] == evs@.skip(pre.len() as int)[i - w.len()]);
                }
            }
            assert(progress_le(t0@ + evs@, cur));
        }
        self.out_path = out.clone();
        self.phase = Phase::AwaitCopy;
        self.floor = cur;
        self.emitted = Ghost(t0@ + evs@);
        let from = self.ctx.input_path.clone();
        RunnerStep { events: evs, action: Action::CopyInput { from, to: out } }
    }

    /// Feeds the result of reading the input file back into the run. A read
    /// failure is the run's error; otherwise the parse stage classifies the
    /// image and the selected stages follow, up to the next host action.
    pub fn on_read(&mut self, result: Result<Vec<u8>, String>, flag: &AtomicBool) -> (step:
        RunnerStep)
        requires
            old(self).wf(),
            old(self).awaiting_read(),
        ensures
            final(self).wf(),
            final(self).context() == old(self).context(),
            final(self).trace() == old(self).trace() + step.events@,
            step.action is Stop <==> final(self).finished(),
            result matches Err(e) ==> final(self).finished() && step.events@.len() == 1 && (
            step.events@[0] matches PipelineEvent::Error(m) && m@ == read_error_message(
                old(self).context().input_path@,
                e@,
            )),
            result is Ok && final(self).finished() ==> final(self).trace().last() == PipelineEvent::Cancelled,
            result matches Ok(b) ==> final(self).image() == b@ && final(self).classified()
                == classification_of(b@),
            result is Ok && !final(self).finished() && !old(self).context().encrypt_strings
                && old(self).context().obfuscate_functions ==> step.action is WriteText,
            result is Ok && !final(self).finished() && !old(self).context().encrypt_strings
                && !old(self).context().obfuscate_functions ==> step.action is CopyInput,
            !(step.action is ReadInput),
            step.action matches Action::WriteArtifact { path, bytes } ==> {
                &&& final(self).awaiting_artifact()
                &&& path@ == final(self).context().input_path@ + ".enc"@
                &&& ranges_resolved(
                    final(self).classified(),
                    final(self).image().len() as int,
                    final(self).resolved(),
                )
                &&& scan_result_ok(final(self).image(), final(self).resolved(), final(self).found())
                &&& final(self).found().len() > 0
                &&& bytes@ == spec_masked(final(self).image(), final(self).found())
            },
            step.action matches Action::WriteText { path, text } ==> {
                &&& final(self).awaiting_artifact()
                &&& path@ == final(self).context().input_path@ + ".obf-map"@
                &&& symbols_planned(final(self).classified(), final(self).planned())
                &&& mapping_ok(final(self).planned(), final(self).mapping())
                &&& text@ == spec_mapping_text(final(self).planned())
            },
            step.action matches Action::CopyInput { from, to } ==> {
                &&& final(self).awaiting_copy()
                &&& from@ == final(self).context().input_path@
                &&& to@ == spec_output_path(final(self).context().input_path@)
            },
    {
        let ghost t0 = self.emitted@;
        match result {
            Err(e) => {
                let mut m = "Failed to read file '".to_owned();
                m.append(self.ctx.input_path.as_str());
                m.append("': ");
                m.append(e.as_str());
                let ev = PipelineEvent::Error(m);
                let mut evs: Vec<PipelineEvent> = Vec::new();
                evs.push(ev);
                self.phase = Phase::Finished;
                proof {
                    lemma_close_trace(t0, evs@[0], 0);
                    assert(t0 + evs@ =~= t0.push(evs@[0]));
                    assert(evs@ =~= seq![evs@[0]]);
                }
                self.emitted = Ghost(t0 + evs@);
                RunnerStep { events: evs, action: Action::Stop }
            },
            Ok(bytes) => {
                self.image = bytes;
                let n_st = self.n_stages;
                proof {
                    lemma_stage_bounds(n_st as int, 0, 1);
                }
                let b1 = stage_bound(n_st, 1);
                let (info, evs0) = ParseStep::analyze(&self.image, 0, b1);
                self.info = info;
                let mut evs = evs0;
                proof {
                    lemma_le_implies_within(t0, 0);
                    lemma_append_block(t0, evs@, 0, b1);
                    assert(progress_le(t0 + evs@, b1));
                }
                if cancel_requested(flag) {
                    return self.finish_cancelled(evs, Ghost(t0), b1);
                }
                if self.ctx.encrypt_strings {
                    proof {
                        lemma_stage_bounds(n_st as int, 1, 2);
                    }
                    let b2 = stage_bound(n_st, 2);
                    let (mut eevs, outcome) = EncryptStringsStep::run(
                        &self.image,
                        &self.info,
                        flag,
                        b1,
                        b2,
                    );
                    let ghost pre = evs@;
                    evs.append(&mut eevs);
                    proof {
                        lemma_block_concat(
                            pre,
                            evs@.skip(pre.len() as int),
                            0,
                            b1,
                            b1,
                            b2,
                        );
                        assert(evs@.skip(pre.len() as int) =~= evs@.subrange(
                            pre.len() as int,
                            evs@.len() as int,
                        ));
                        lemma_le_implies_within(t0, 0);
                        lemma_append_block(t0, evs@, 0, b2);
                        assert(progress_le(t0 + evs@, b2));
                    }
                    match outcome {
                        EncryptOutcome::Interrupted => {
                            return self.finish_cancelled(evs, Ghost(t0), b2);
                        },
                        EncryptOutcome::Masked { ranges, candidates, masked } => {
                            self.ranges = ranges;
                            self.candidates = candidates;
                            self.phase = Phase::AwaitEncWrite;
                            self.floor = b2;
                            self.emitted = Ghost(t0 + evs@);
                            let path = enc_path(self.ctx.input_path.as_str());
                            return RunnerStep {
                                events: evs,
                                action: Action::WriteArtifact { path, bytes: masked },
                            };
                        },
                        EncryptOutcome::NoCandidates { ranges } => {
                            self.ranges = ranges;
                            self.candidates = Vec::new();
                            return self.run_tail(evs, Ghost(t0), b2, flag);
                        },
                    }
                }
                self.run_tail(evs, Ghost(t0), b1, flag)
            },
        }
    }

    /// Feeds the result of a side-artifact write back into the run. Failure is
    /// logged and absorbed — a failed side artifact never aborts an otherwise
    /// succeeding run — and the remaining stages follow.
    pub fn on_artifact_written(&mut self, result: Result<(), String>, flag: &AtomicBool) -> (step:
        RunnerStep)
        requires
            old(self).wf(),
            old(self).awaiting_artifact(),
        ensures
            final(self).wf(),
            final(self).context() == old(self).context(),
            final(self).trace() == old(self).trace() + step.events@,
            step.action is Stop <==> final(self).finished(),
            final(self).finished() ==> final(self).trace().last() == PipelineEvent::Cancelled,
            !(step.action is ReadInput),
            !(step.action is WriteArtifact),
            old(self).awaiting_enc_write() && old(self).context().obfuscate_functions
                && !final(self).finished() ==> step.action is WriteText,
            old(self).awaiting_enc_write() && !old(self).context().obfuscate_functions
                && !final(self).finished() ==> step.action is CopyInput,
            old(self).awaiting_map_write() && !final(self).finished() ==> step.action
                is CopyInput,
            step.action matches Action::WriteText { path, text } ==> {
                &&& final(self).awaiting_artifact()
                &&& path@ == final(self).context().input_path@ + ".obf-map"@
                &&& symbols_planned(final(self).classified(), final(self).planned())
                &&& mapping_ok(final(self).planned(), final(self).mapping())
                &&& text@ == spec_mapping_text(final(self).planned())
            },
            step.action matches Action::CopyInput { from, to } ==> {
                &&& final(self).awaiting_copy()
                &&& from@ == final(self).context().input_path@
                &&& to@ == spec_output_path(final(self).context().input_path@)
            },
    {
        let ghost t0 = self.emitted@;
        let mut evs: Vec<PipelineEvent> = Vec::new();
        match result {
            Ok(_) => {
                push_log_event(
                    &mut evs,
                    "Side artifact written".to_owned(),
                    Ghost(0u32),
                    Ghost(0u32),
                    Ghost(0u32),
                );
            },
            Err(e) => {
                let mut m = "Failed to write side artifact: ".to_owned();
                m.append(e.as_str());
                push_log_event(&mut evs, m, Ghost(0u32), Ghost(0u32), Ghost(0u32));
            },
        }
        let f = self.floor;
        proof {
            assert(evs@.len() == 1 && evs@[0] is Log);
            assert(progress_within(evs@, f, f));
            lemma_le_implies_within(t0, f);
            lemma_append_block(t0, evs@, f, f);
            assert(progress_le(t0 + evs@, f));
        }
        if self.phase == Phase::AwaitEncWrite {
            self.run_tail(evs, Ghost(t0), f, flag)
        } else {
            self.prep_write(evs, Ghost(t0), f, flag)
        }
    }

    /// Feeds the result of the final copy back into the run and ends it: full
    /// progress and `Done` on success, the run's error otherwise.
    pub fn on_copied(&mut self, result: Result<(), String>) -> (step: RunnerStep)
        requires
            old(self).wf(),
            old(self).awaiting_copy(),
        ensures
            final(self).wf(),
            final(self).finished(),
            step.action is Stop,
            final(self).context() == old(self).context(),
            final(self).trace() == old(self).trace() + step.events@,
            result is Ok ==> {
                &&& step.events@.len() == 3
                &&& step.events@[1] == PipelineEvent::Progress(PROGRESS_FULL)
                &&& step.events@[2] matches PipelineEvent::Done(p) && p@ == spec_output_path(
                    final(self).context().input_path@,
                )
            },
            result matches Err(e) ==> step.events@.len() == 1 && (step.events@[0] matches
            PipelineEvent::Error(m) && m@ == copy_error_message(
                spec_output_path(old(self).context().input_path@),
                e@,
            )),
    {
        let ghost t0 = self.emitted@;
        let f = self.floor;
        match result {
            Ok(_) => {
                let mut evs: Vec<PipelineEvent> = Vec::new();
                let mut m = "Output written to ".to_owned();
                m.append(self.out_path.as_str());
                push_log_event(&mut evs, m, Ghost(f), Ghost(PROGRESS_FULL), Ghost(f));
                push_progress_event(
                    &mut evs,
                    PROGRESS_FULL,
                    Ghost(f),
                    Ghost(PROGRESS_FULL),
                    Ghost(f),
                );
                let ghost pre = evs@;
                let done = PipelineEvent::Done(self.out_path.clone());
                evs.push(done);
                self.phase = Phase::Finished;
                self.floor = PROGRESS_FULL;
                proof {
                    lemma_le_implies_within(t0, f);
                    lemma_append_block(t0, pre, f, PROGRESS_FULL);
                    assert(progress_le(t0 + pre, PROGRESS_FULL));
                    assert((t0 + pre).last() == pre.last());
                    lemma_close_trace(t0 + pre, evs@.last(), PROGRESS_FULL);
                    assert(t0 + evs@ =~= (t0 + pre).push(evs@.last()));
                }
                self.emitted = Ghost(t0 + evs@);
                RunnerStep { events: evs, action: Action::Stop }
            },
            Err(e) => {
                let mut m = "Failed to write output '".to_owned();
                m.append(self.out_path.as_str());
                m.append("': ");
                m.append(e.as_str());
                let mut evs: Vec<PipelineEvent> = Vec::new();
                evs.push(PipelineEvent::Error(m));
                self.phase = Phase::Finished;
                proof {
                    lemma_close_trace(t0, evs@[0], f);
                    assert(t0 + evs@ =~= t0.push(evs@[0]));
                    assert(evs@ =~= seq![evs@[0]]);
                }
                self.emitted = Ghost(t0 + evs@);
                RunnerStep { events: evs, action: Action::Stop }
            },
        }
    }
}

} // verus!
