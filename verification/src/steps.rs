//! The pipeline stages. Each stage is a pure function over the run's data: it
//! returns the events it wants emitted — a block confined to the stage's
//! progress band, never a terminal event — and a typed outcome. The runner
//! sequences the stages and turns an interrupted outcome into the run's
//! `Cancelled` terminal event. Cancellation is polled once per analyzed range,
//! per masked candidate and per renamed symbol.

use core::sync::atomic::AtomicBool;
use vstd::prelude::*;

use crate::binary::{classification_of, classify_bytes, BinaryInfo};
use crate::cancel::cancel_requested;
use crate::events::{
    band_progress, block_wf, lemma_band_progress_bounds, lemma_band_progress_mono, no_terminal,
    progress_le, progress_monotone, progress_within, push_log_event, push_progress_event,
    spec_band_progress, PipelineEvent, PROGRESS_FULL,
};
use crate::mask::{mask_bytes, spec_masked};
use crate::paths::{output_path, spec_output_path};
use crate::ranges::{range_end, range_in_bounds, ranges_resolved, ranges_wf, resolve_ranges, ByteRange};
use crate::scan::{
    lemma_scan_extend,
    candidate_in_range, candidate_ok, candidates_in_bounds, candidates_sorted, scan_complete,
    scan_range, scan_result_ok, scan_sound, StringCandidate,
};
use crate::symbols::{
    dec_u64, gen_name, join_lines, mapping_line, mapping_ok, plan_symbols, spec_gen_name,
    spec_mapping_text, symbols_planned, SymbolEntry,
};

verus! {

/// Classifies the input and reports what was found. Unrecognized input is a
/// log note, never an error: downstream stages fall back to whole-buffer
/// analysis.
pub struct ParseStep;

/// Finds printable-ASCII string candidates in the resolved ranges and masks
/// them.
pub struct EncryptStringsStep;

/// Builds the injective symbol-renaming table.
pub struct ObfuscateFunctionsStep;

/// Derives the final artifact path; the host performs the copy.
pub struct WriteOutputStep;

pub open spec fn spec_arch_name(m: u16) -> Seq<char> {
    if m == 0x14c {
        "x86 (32-bit)"@
    } else if m == 0x8664 {
        "x86_64 (64-bit)"@
    } else {
        "unknown machine type"@
    }
}

fn arch_name(m: u16) -> (r: &'static str)
    ensures
        r@ == spec_arch_name(m),
{
    if m == 0x14c {
        "x86 (32-bit)"
    } else if m == 0x8664 {
        "x86_64 (64-bit)"
    } else {
        "unknown machine type"
    }
}

impl ParseStep {
    pub fn new() -> (s: Self) {
        ParseStep
    }

    /// Classifies the byte image and reports the findings as log events,
    /// closing the stage's band at `hi`.
    pub fn analyze(bytes: &Vec<u8>, lo: u32, hi: u32) -> (r: (BinaryInfo, Vec<PipelineEvent>))
        requires
            lo <= hi <= PROGRESS_FULL,
        ensures
            r.0 == classification_of(bytes@),
            block_wf(r.1@, lo, hi),
            progress_le(r.1@, hi),
    {
        let info = classify_bytes(bytes.as_slice());
        let mut evs: Vec<PipelineEvent> = Vec::new();
        match &info {
            BinaryInfo::Structured { machine, sections, exports } => {
                let mut m1 = "Detected structured executable: ".to_owned();
                m1.append(arch_name(*machine));
                push_log_event(&mut evs, m1, Ghost(lo), Ghost(hi), Ghost(lo));
                let mut m2 = "Sections: ".to_owned();
                m2.append(dec_u64(sections.len() as u64).as_str());
                push_log_event(&mut evs, m2, Ghost(lo), Ghost(hi), Ghost(lo));
                if exports.len() > 0 {
                    let mut m3 = "Exports: ".to_owned();
                    m3.append(dec_u64(exports.len() as u64).as_str());
                    m3.append(" entries");
                    push_log_event(&mut evs, m3, Ghost(lo), Ghost(hi), Ghost(lo));
                } else {
                    push_log_event(
                        &mut evs,
                        "Exports: none detected".to_owned(),
                        Ghost(lo),
                        Ghost(hi),
                        Ghost(lo),
                    );
                }
            },
            BinaryInfo::Unrecognized => {
                push_log_event(
                    &mut evs,
                    "File not recognized as a structured executable; falling back to whole-buffer analysis".to_owned(),
                    Ghost(lo),
                    Ghost(hi),
                    Ghost(lo),
                );
            },
        }
        push_progress_event(&mut evs, hi, Ghost(lo), Ghost(hi), Ghost(lo));
        (info, evs)
    }
}

/// What the string-masking stage produced.
pub enum EncryptOutcome {
    /// Candidates were found and masked: the masked buffer is ready to be
    /// written to the side-artifact path.
    Masked { ranges: Vec<ByteRange>, candidates: Vec<StringCandidate>, masked: Vec<u8> },
    /// The scan found no candidate at all: nothing to write.
    NoCandidates { ranges: Vec<ByteRange> },
    /// A cancellation poll came back set.
    Interrupted,
}

/// What the symbol-mapping stage produced.
pub enum ObfuscateOutcome {
    /// The renaming table, with its persisted text form.
    Mapped { names: Vec<String>, entries: Vec<SymbolEntry>, rendered: String },
    /// A cancellation poll came back set.
    Interrupted,
}

impl EncryptStringsStep {
    pub fn new() -> (s: Self) {
        EncryptStringsStep
    }

    /// Resolves the ranges worth scanning, finds every string candidate in
    /// them — polling cancellation once per range — and produces the masked
    /// copy of the buffer, polling cancellation once per candidate. An empty
    /// candidate list skips masking with a log note, not an error.
    #[verifier::rlimit(100)]
    pub fn run(bytes: &Vec<u8>, info: &BinaryInfo, flag: &AtomicBool, lo: u32, hi: u32) -> (r: (
        Vec<PipelineEvent>,
        EncryptOutcome,
    ))
        requires
            lo <= hi <= PROGRESS_FULL,
        ensures
            block_wf(r.0@, lo, hi),
            progress_le(r.0@, hi),
            r.1 matches EncryptOutcome::Masked { ranges, candidates, masked } ==> {
                &&& ranges_resolved(*info, bytes@.len() as int, ranges@)
                &&& scan_result_ok(bytes@, ranges@, candidates@)
                &&& candidates@.len() > 0
                &&& masked@ == spec_masked(bytes@, candidates@)
            },
            r.1 matches EncryptOutcome::NoCandidates { ranges } ==> {
                &&& ranges_resolved(*info, bytes@.len() as int, ranges@)
                &&& scan_result_ok(bytes@, ranges@, Seq::<StringCandidate>::empty())
            },
    {
        let n = bytes.len();
        let mut evs: Vec<PipelineEvent> = Vec::new();
        push_log_event(
            &mut evs,
            "String masking stage started".to_owned(),
            Ghost(lo),
            Ghost(hi),
            Ghost(lo),
        );
        push_progress_event(&mut evs, lo, Ghost(lo), Ghost(hi), Ghost(lo));
        let ranges = resolve_ranges(info, n);
        let rlen = ranges.len();
        let mut m = "Scanning ".to_owned();
        m.append(dec_u64(rlen as u64).as_str());
        m.append(" ranges for strings");
        push_log_event(&mut evs, m, Ghost(lo), Ghost(hi), Ghost(lo));
        let mid = lo + (hi - lo) / 2;
        let mut cands: Vec<StringCandidate> = Vec::new();
        let ghost mut floor: u32 = lo;
        let mut ri: usize = 0;
        while ri < rlen
            invariant
                ri <= rlen == ranges@.len(),
                1 <= rlen,
                n == bytes@.len(),
                lo <= mid <= hi <= PROGRESS_FULL,
                ranges_wf(ranges@, n as int),
                lo <= floor <= mid,
                ri > 0 ==> floor as int <= spec_band_progress(
                    lo as int,
                    mid as int,
                    ri as int,
                    rlen as int,
                ),
                ri == 0 ==> floor == lo,
                progress_monotone(evs@),
                progress_within(evs@, lo, hi),
                progress_le(evs@, floor),
                no_terminal(evs@),
                scan_sound(bytes@, ranges@.take(ri as int), cands@),
                scan_complete(bytes@, ranges@.take(ri as int), cands@),
                candidates_sorted(cands@),
                candidates_in_bounds(cands@, n as int),
                cands@.len() > 0 ==> ri > 0 && cands@.last().offset + cands@.last().length
                    <= range_end(ranges@[ri as int - 1]),
            decreases rlen - ri,
        {
            if cancel_requested(flag) {
                return (evs, EncryptOutcome::Interrupted);
            }
            proof {
                assert(range_in_bounds(ranges@[ri as int], n as int));
            }
            let r = ranges[ri];
            let mut rc = scan_range(bytes, r);
            let ghost pre = cands@;
            let ghost prc = rc@;
            cands.append(&mut rc);
            proof {
                assert(cands@ == pre + prc);
                assert(forall|k: int|
                    0 <= k < prc.len() ==> candidate_in_range(bytes@, r, #[trigger] prc[k]));
                lemma_scan_extend(bytes@, ranges@, ri as int, pre, prc);
            }
            let p = band_progress(lo, mid, ri + 1, rlen);
            proof {
                if ri > 0 {
                    lemma_band_progress_mono(
                        lo as int,
                        mid as int,
                        ri as int,
                        ri as int + 1,
                        rlen as int,
                    );
                }
                lemma_band_progress_bounds(lo as int, mid as int, ri as int + 1, rlen as int);
            }
            push_progress_event(&mut evs, p, Ghost(lo), Ghost(hi), Ghost(floor));
            proof {
                floor = p;
            }
            ri += 1;
        }
        proof {
            assert(ranges@.take(rlen as int) =~= ranges@);
        }
        let count = cands.len();
        let mut m2 = "Found ".to_owned();
        m2.append(dec_u64(count as u64).as_str());
        m2.append(" candidate strings (min length 4)");
        push_log_event(&mut evs, m2, Ghost(lo), Ghost(hi), Ghost(floor));
        if count == 0 {
            push_log_event(
                &mut evs,
                "No candidate strings found; skipping string masking".to_owned(),
                Ghost(lo),
                Ghost(hi),
                Ghost(floor),
            );
            proof {
                assert(cands@ =~= Seq::<StringCandidate>::empty());
            }
            return (evs, EncryptOutcome::NoCandidates { ranges });
        }
        let mut k: usize = 0;
        while k < count
            invariant
                k <= count == cands@.len(),
                0 < count,
                n == bytes@.len(),
                lo <= mid <= hi <= PROGRESS_FULL,
                floor <= hi,
                k == 0 ==> floor <= mid,
                k > 0 ==> floor as int <= spec_band_progress(
                    mid as int,
                    hi as int,
                    k as int,
                    count as int,
                ),
                progress_monotone(evs@),
                progress_within(evs@, lo, hi),
                progress_le(evs@, floor),
                no_terminal(evs@),
                ranges_wf(ranges@, n as int),
                scan_sound(bytes@, ranges@, cands@),
                scan_complete(bytes@, ranges@, cands@),
                candidates_sorted(cands@),
                candidates_in_bounds(cands@, n as int),
            decreases count - k,
        {
            if cancel_requested(flag) {
                return (evs, EncryptOutcome::Interrupted);
            }
            let p = band_progress(mid, hi, k + 1, count);
            proof {
                lemma_band_progress_bounds(mid as int, hi as int, k as int + 1, count as int);
                if k > 0 {
                    lemma_band_progress_mono(
                        mid as int,
                        hi as int,
                        k as int,
                        k as int + 1,
                        count as int,
                    );
                }
            }
            push_progress_event(&mut evs, p, Ghost(lo), Ghost(hi), Ghost(floor));
            proof {
                floor = p;
            }
            k += 1;
        }
        let masked = mask_bytes(bytes, &cands);
        (evs, EncryptOutcome::Masked { ranges, candidates: cands, masked })
    }
}

impl ObfuscateFunctionsStep {
    pub fn new() -> (s: Self) {
        ObfuscateFunctionsStep
    }

    /// Enumerates original names per the selection policy and builds the
    /// injective renaming table, polling cancellation once per entry.
    pub fn run(info: &BinaryInfo, flag: &AtomicBool, lo: u32, hi: u32) -> (r: (
        Vec<PipelineEvent>,
        ObfuscateOutcome,
    ))
        requires
            lo <= hi <= PROGRESS_FULL,
        ensures
            block_wf(r.0@, lo, hi),
            progress_le(r.0@, hi),
            r.1 matches ObfuscateOutcome::Mapped { names, entries, rendered } ==> {
                let views = names@.map_values(|s: String| s@);
                &&& symbols_planned(*info, views)
                &&& mapping_ok(views, entries@)
                &&& rendered@ == spec_mapping_text(views)
            },
    {
        let mut evs: Vec<PipelineEvent> = Vec::new();
        push_log_event(
            &mut evs,
            "Symbol mapping stage started".to_owned(),
            Ghost(lo),
            Ghost(hi),
            Ghost(lo),
        );
        push_progress_event(&mut evs, lo, Ghost(lo), Ghost(hi), Ghost(lo));
        let names = plan_symbols(info);
        let total = names.len();
        let mut m = "Planning to rename ".to_owned();
        m.append(dec_u64(total as u64).as_str());
        m.append(" functions");
        push_log_event(&mut evs, m, Ghost(lo), Ghost(hi), Ghost(lo));
        let ghost views = names@.map_values(|s: String| s@);
        let mut entries: Vec<SymbolEntry> = Vec::new();
        let mut lines: Vec<String> = Vec::new();
        let ghost mut floor: u32 = lo;
        let mut k: usize = 0;
        while k < total
            invariant
                k <= total == names@.len(),
                views == names@.map_values(|s: String| s@),
                lo <= floor <= hi <= PROGRESS_FULL,
                floor as int <= spec_band_progress(lo as int, hi as int, k as int, total as int)
                    || k == 0,
                k == 0 ==> floor == lo,
                progress_monotone(evs@),
                progress_within(evs@, lo, hi),
                progress_le(evs@, floor),
                no_terminal(evs@),
                entries@.len() == k,
                lines@.len() == k,
                forall|m: int|
                    0 <= m < k ==> (#[trigger] entries@[m]).original@ == views[m]
                        && entries@[m].generated@ == spec_gen_name((m + 1) as nat),
                forall|m: int|
                    0 <= m < k ==> (#[trigger] lines@[m])@ == views[m] + " => "@ + spec_gen_name(
                        (m + 1) as nat,
                    ),
            decreases total - k,
        {
            if cancel_requested(flag) {
                return (evs, ObfuscateOutcome::Interrupted);
            }
            let original = &names[k];
            let generated = gen_name(k as u64 + 1);
            let line = mapping_line(original.as_str(), generated.as_str());
            entries.push(SymbolEntry { original: original.clone(), generated });
            lines.push(line);
            let p = band_progress(lo, hi, k + 1, total);
            proof {
                if k > 0 {
                    lemma_band_progress_mono(lo as int, hi as int, k as int, k as int + 1, total as int);
                }
                lemma_band_progress_bounds(lo as int, hi as int, k as int + 1, total as int);
            }
            push_progress_event(&mut evs, p, Ghost(lo), Ghost(hi), Ghost(floor));
            proof {
                floor = p;
            }
            k += 1;
        }
        let rendered = join_lines(&lines);
        proof {
            let line_views = lines@.map_values(|s: String| s@);
            assert(line_views =~= Seq::new(
                views.len(),
                |m: int| views[m] + " => "@ + spec_gen_name((m + 1) as nat),
            ));
        }
        let mut m2 = "Renamed ".to_owned();
        m2.append(dec_u64(total as u64).as_str());
        m2.append(" functions");
        push_log_event(&mut evs, m2, Ghost(lo), Ghost(hi), Ghost(floor));
        push_progress_event(&mut evs, hi, Ghost(lo), Ghost(hi), Ghost(floor));
        (evs, ObfuscateOutcome::Mapped { names, entries, rendered })
    }
}

impl WriteOutputStep {
    /// Announces the write stage and derives the final artifact path from the
    /// input path; the host performs the actual copy.
    pub fn run(input: &str, lo: u32, hi: u32) -> (r: (String, Vec<PipelineEvent>))
        requires
            lo <= hi <= PROGRESS_FULL,
        ensures
            r.0@ == spec_output_path(input@),
            block_wf(r.1@, lo, hi),
            progress_le(r.1@, lo),
    {
        let mut evs: Vec<PipelineEvent> = Vec::new();
        push_log_event(
            &mut evs,
            "Writing output file...".to_owned(),
            Ghost(lo),
            Ghost(hi),
            Ghost(lo),
        );
        (output_path(input), evs)
    }
}

} // verus!
