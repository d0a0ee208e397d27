//! The event stream that a pipeline run emits, and the well-formedness of a
//! whole run's trace: progress values are non-decreasing, exactly one terminal
//! event is emitted, and it comes last.

use vstd::prelude::*;

verus! {

/// Progress is reported in thousandths of the whole run; `PROGRESS_FULL`
/// stands for the fraction 1.0.
pub const PROGRESS_FULL: u32 = 1000;

/// One event of a pipeline run. `Progress` carries a value in
/// `0 ..= PROGRESS_FULL`; `Done`, `Error` and `Cancelled` are the three
/// terminal events.
#[derive(Debug)]
pub enum PipelineEvent {
    Log(String),
    Progress(u32),
    Done(String),
    Error(String),
    Cancelled,
}

/// A terminal event ends a run: nothing may follow it.
pub open spec fn is_terminal(e: PipelineEvent) -> bool {
    match e {
        PipelineEvent::Done(_) => true,
        PipelineEvent::Error(_) => true,
        PipelineEvent::Cancelled => true,
        PipelineEvent::Log(_) => false,
        PipelineEvent::Progress(_) => false,
    }
}

pub open spec fn no_terminal(t: Seq<PipelineEvent>) -> bool {
    forall|i: int| 0 <= i < t.len() ==> !is_terminal(#[trigger] t[i])
}

/// Every progress value in `t` lies in `lo ..= hi`.
pub open spec fn progress_within(t: Seq<PipelineEvent>, lo: u32, hi: u32) -> bool {
    forall|i: int|
        0 <= i < t.len() ==> match #[trigger] t[i] {
            PipelineEvent::Progress(p) => lo <= p <= hi,
            _ => true,
        }
}

/// Progress values never decrease along `t`.
pub open spec fn progress_monotone(t: Seq<PipelineEvent>) -> bool {
    forall|i: int, j: int|
        0 <= i < j < t.len() ==> match (#[trigger] t[i], #[trigger] t[j]) {
            (PipelineEvent::Progress(p), PipelineEvent::Progress(q)) => p <= q,
            _ => true,
        }
}

/// Every progress value in `t` is at most `v`.
pub open spec fn progress_le(t: Seq<PipelineEvent>, v: u32) -> bool {
    forall|i: int|
        0 <= i < t.len() ==> match #[trigger] t[i] {
            PipelineEvent::Progress(p) => p <= v,
            _ => true,
        }
}

/// A block of events that one stage hands back: no terminal event, and all
/// progress values within the stage's band `lo ..= hi`, non-decreasing.
pub open spec fn block_wf(t: Seq<PipelineEvent>, lo: u32, hi: u32) -> bool {
    &&& no_terminal(t)
    &&& progress_within(t, lo, hi)
    &&& progress_monotone(t)
}

/// The whole trace of one finished run: non-empty, its last event is the one
/// terminal event, and progress never decreases. On success (`Done`) the event
/// just before the terminal one is `Progress(PROGRESS_FULL)`.
pub open spec fn wf_trace(t: Seq<PipelineEvent>) -> bool {
    &&& t.len() > 0
    &&& is_terminal(t.last())
    &&& no_terminal(t.take(t.len() - 1))
    &&& progress_monotone(t)
    &&& (t.last() matches PipelineEvent::Done(_) ==> t.len() >= 2 && t[t.len() - 2]
        == PipelineEvent::Progress(PROGRESS_FULL))
}

/// The progress value reported after finishing `done` of `total` work items of
/// a stage that owns the band `lo ..= hi` of the whole run.
pub open spec fn spec_band_progress(lo: int, hi: int, done: int, total: int) -> int {
    lo + (done * (hi - lo)) / total
}

pub proof fn lemma_band_progress_bounds(lo: int, hi: int, done: int, total: int)
    requires
        lo <= hi,
        0 < total,
        0 <= done <= total,
    ensures
        lo <= spec_band_progress(lo, hi, done, total) <= hi,
        done == total ==> spec_band_progress(lo, hi, done, total) == hi,
{
    vstd::arithmetic::mul::lemma_mul_inequality(done, total, hi - lo);
    vstd::arithmetic::div_mod::lemma_div_is_ordered(done * (hi - lo), total * (hi - lo), total);
    vstd::arithmetic::div_mod::lemma_div_multiples_vanish(hi - lo, total);
    vstd::arithmetic::div_mod::lemma_div_pos_is_pos(done * (hi - lo), total);
    vstd::arithmetic::mul::lemma_mul_nonnegative(done, hi - lo);
}

pub proof fn lemma_band_progress_mono(lo: int, hi: int, d1: int, d2: int, total: int)
    requires
        lo <= hi,
        0 < total,
        0 <= d1 <= d2,
    ensures
        spec_band_progress(lo, hi, d1, total) <= spec_band_progress(lo, hi, d2, total),
{
    vstd::arithmetic::mul::lemma_mul_inequality(d1, d2, hi - lo);
    vstd::arithmetic::div_mod::lemma_div_is_ordered(d1 * (hi - lo), d2 * (hi - lo), total);
}

/// Computes the progress value after `done` of `total` work items of a stage
/// owning the band `lo ..= hi`.
pub fn band_progress(lo: u32, hi: u32, done: usize, total: usize) -> (p: u32)
    requires
        lo <= hi <= PROGRESS_FULL,
        0 < total,
        done <= total,
    ensures
        p as int == spec_band_progress(lo as int, hi as int, done as int, total as int),
        lo <= p <= hi,
{
    proof {
        lemma_band_progress_bounds(lo as int, hi as int, done as int, total as int);
        vstd::arithmetic::mul::lemma_mul_upper_bound(
            done as int,
            usize::MAX as int,
            (hi - lo) as int,
            PROGRESS_FULL as int,
        );
    }
    let num: u128 = (done as u128) * ((hi - lo) as u128);
    let q: u128 = num / (total as u128);
    lo + (q as u32)
}

/// Appends a log event to a stage's block, preserving its block properties.
pub fn push_log_event(
    evs: &mut Vec<PipelineEvent>,
    text: String,
    lo: Ghost<u32>,
    hi: Ghost<u32>,
    floor: Ghost<u32>,
)
    requires
        progress_monotone(old(evs)@),
        progress_within(old(evs)@, lo@, hi@),
        progress_le(old(evs)@, floor@),
        no_terminal(old(evs)@),
    ensures
        final(evs)@ == old(evs)@.push(PipelineEvent::Log(text)),
        progress_monotone(final(evs)@),
        progress_within(final(evs)@, lo@, hi@),
        progress_le(final(evs)@, floor@),
        no_terminal(final(evs)@),
{
    let ghost t = evs@;
    let e = PipelineEvent::Log(text);
    proof {
        lemma_push_plain(t, e, lo@, hi@, floor@);
    }
    evs.push(e);
}

/// Appends a progress event at or above the block's running maximum,
/// preserving its block properties and raising the maximum to `p`.
pub fn push_progress_event(
    evs: &mut Vec<PipelineEvent>,
    p: u32,
    lo: Ghost<u32>,
    hi: Ghost<u32>,
    floor: Ghost<u32>,
)
    requires
        progress_monotone(old(evs)@),
        progress_within(old(evs)@, lo@, hi@),
        progress_le(old(evs)@, floor@),
        no_terminal(old(evs)@),
        floor@ <= p,
        lo@ <= p <= hi@,
    ensures
        final(evs)@ == old(evs)@.push(PipelineEvent::Progress(p)),
        progress_monotone(final(evs)@),
        progress_within(final(evs)@, lo@, hi@),
        progress_le(final(evs)@, p),
        no_terminal(final(evs)@),
{
    let ghost t = evs@;
    proof {
        lemma_push_progress(t, p, lo@, hi@, floor@);
    }
    evs.push(PipelineEvent::Progress(p));
}

/// Pushing a non-progress, non-terminal event preserves every block property.
pub proof fn lemma_push_plain(t: Seq<PipelineEvent>, e: PipelineEvent, lo: u32, hi: u32, v: u32)
    requires
        progress_monotone(t),
        progress_within(t, lo, hi),
        progress_le(t, v),
        !is_terminal(e),
        !(e is Progress),
    ensures
        progress_monotone(t.push(e)),
        progress_within(t.push(e), lo, hi),
        progress_le(t.push(e), v),
        no_terminal(t) ==> no_terminal(t.push(e)),
{
    let u = t.push(e);
    assert(forall|i: int| 0 <= i < t.len() ==> u[i] == t[i]);
    assert(u[t.len() as int] == e);
}

/// Pushing a progress value at or above everything emitted so far preserves
/// every block property, raising the running maximum to that value.
pub proof fn lemma_push_progress(t: Seq<PipelineEvent>, p: u32, lo: u32, hi: u32, v: u32)
    requires
        progress_monotone(t),
        progress_within(t, lo, hi),
        progress_le(t, v),
        v <= p,
        lo <= p <= hi,
    ensures
        progress_monotone(t.push(PipelineEvent::Progress(p))),
        progress_within(t.push(PipelineEvent::Progress(p)), lo, hi),
        progress_le(t.push(PipelineEvent::Progress(p)), p),
        no_terminal(t) ==> no_terminal(t.push(PipelineEvent::Progress(p))),
{
    let u = t.push(PipelineEvent::Progress(p));
    assert(forall|i: int| 0 <= i < t.len() ==> u[i] == t[i]);
    assert(u[t.len() as int] == PipelineEvent::Progress(p));
}

/// A trace whose progress values are all at most `v` stays within `0 ..= v`.
pub proof fn lemma_le_implies_within(t: Seq<PipelineEvent>, v: u32)
    requires
        progress_le(t, v),
    ensures
        progress_within(t, 0, v),
{
}

/// Two consecutive stage blocks form one block over the combined band.
pub proof fn lemma_block_concat(
    a: Seq<PipelineEvent>,
    b: Seq<PipelineEvent>,
    lo1: u32,
    hi1: u32,
    lo2: u32,
    hi2: u32,
)
    requires
        lo1 <= hi1 <= lo2 <= hi2,
        block_wf(a, lo1, hi1),
        block_wf(b, lo2, hi2),
    ensures
        block_wf(a + b, lo1, hi2),
{
    let u = a + b;
    assert(forall|i: int| 0 <= i < a.len() ==> u[i] == a[i]);
    assert(forall|i: int| a.len() <= i < u.len() ==> u[i] == b[i - a.len()]);
    assert forall|i: int, j: int| 0 <= i < j < u.len() implies match (
        #[trigger] u[i],
        #[trigger] u[j],
    ) {
        (PipelineEvent::Progress(p), PipelineEvent::Progress(q)) => p <= q,
        _ => true,
    } by {
        if i < a.len() && j >= a.len() {
            assert(u[i] == a[i] && u[j] == b[j - a.len()]);
        }
    }
}

/// Closing a terminal-free monotone partial trace with one terminal event
/// gives a well-formed whole trace. For a `Done` terminal the partial trace
/// must end with `Progress(PROGRESS_FULL)`.
pub proof fn lemma_close_trace(w: Seq<PipelineEvent>, term: PipelineEvent, v: u32)
    requires
        no_terminal(w),
        progress_monotone(w),
        progress_le(w, v),
        is_terminal(term),
        term matches PipelineEvent::Done(_) ==> w.len() >= 1 && w.last()
            == PipelineEvent::Progress(PROGRESS_FULL),
    ensures
        wf_trace(w.push(term)),
        progress_monotone(w.push(term)),
        progress_le(w.push(term), v),
{
    let u = w.push(term);
    assert(forall|i: int| 0 <= i < w.len() ==> u[i] == w[i]);
    assert(u.last() == term);
    assert(u.take(u.len() - 1) =~= w);
    assert forall|i: int, j: int| 0 <= i < j < u.len() implies match (
        #[trigger] u[i],
        #[trigger] u[j],
    ) {
        (PipelineEvent::Progress(p), PipelineEvent::Progress(q)) => p <= q,
        _ => true,
    } by {
        if j < u.len() - 1 {
            assert(u[i] == w[i] && u[j] == w[j]);
        }
    }
    if term matches PipelineEvent::Done(_) {
        assert(u[u.len() - 2] == w.last());
    }
}

/// Appending a stage's block to a well-formed partial trace keeps the trace
/// terminal-free and monotone, provided the block's band starts no lower than
/// every progress value already emitted.
pub proof fn lemma_append_block(t: Seq<PipelineEvent>, b: Seq<PipelineEvent>, lo: u32, hi: u32)
    requires
        lo <= hi,
        no_terminal(t),
        progress_monotone(t),
        progress_within(t, 0, lo),
        block_wf(b, lo, hi),
    ensures
        no_terminal(t + b),
        progress_monotone(t + b),
        progress_within(t + b, 0, hi),
{
    let u = t + b;
    assert forall|i: int| 0 <= i < u.len() implies !is_terminal(#[trigger] u[i]) by {
        if i < t.len() {
            assert(u[i] == t[i]);
        } else {
            assert(u[i] == b[i - t.len()]);
        }
    }
    assert forall|i: int, j: int| 0 <= i < j < u.len() implies match (
        #[trigger] u[i],
        #[trigger] u[j],
    ) {
        (PipelineEvent::Progress(p), PipelineEvent::Progress(q)) => p <= q,
        _ => true,
    } by {
        if j < t.len() {
            assert(u[i] == t[i] && u[j] == t[j]);
        } else if i >= t.len() {
            assert(u[i] == b[i - t.len()] && u[j] == b[j - t.len()]);
        } else {
            assert(u[i] == t[i] && u[j] == b[j - t.len()]);
        }
    }
    assert forall|i: int| 0 <= i < u.len() implies match #[trigger] u[i] {
        PipelineEvent::Progress(p) => 0 <= p <= hi,
        _ => true,
    } by {
        if i < t.len() {
            assert(u[i] == t[i]);
        } else {
            assert(u[i] == b[i - t.len()]);
        }
    }
}

} // verus!
