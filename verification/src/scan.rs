//! The string scanner: within one resolved byte range it finds exactly the
//! maximal runs of printable ASCII whose length reaches a fixed minimum,
//! in ascending offset order.

use vstd::prelude::*;

use crate::ranges::{range_end, range_in_bounds, ranges_wf, ByteRange};

verus! {

/// Minimum length of a printable-ASCII run to record as a candidate.
pub const MIN_STRING_LEN: usize = 4;

/// A run of printable ASCII eligible for masking: `length` bytes starting at
/// `offset` in the scanned buffer.
#[derive(Clone, Copy, Debug, PartialEq, Eq, Structural)]
pub struct StringCandidate {
    pub offset: usize,
    pub length: usize,
}

/// Printable ASCII: space (0x20) through tilde (0x7e), inclusive.
pub open spec fn spec_printable(b: u8) -> bool {
    0x20 <= b <= 0x7e
}

/// Returns true exactly when `b` is printable ASCII (space through tilde).
pub fn is_printable_ascii(b: u8) -> (r: bool)
    ensures
        r == spec_printable(b),
{
    0x20 <= b && b <= 0x7e
}

/// `[off, off+len)` is a maximal printable run within `[lo, hi)` of `bytes`:
/// non-empty, every byte printable, and not extendable on either side without
/// leaving the range or hitting a non-printable byte.
pub open spec fn maximal_run(bytes: Seq<u8>, lo: int, hi: int, off: int, len: int) -> bool {
    &&& lo <= off
    &&& off + len <= hi
    &&& len >= 1
    &&& (forall|i: int| off <= i < off + len ==> spec_printable(#[trigger] bytes[i]))
    &&& (off > lo ==> !spec_printable(bytes[off - 1]))
    &&& (off + len < hi ==> !spec_printable(bytes[off + len]))
}

/// `(off, len)` is a string candidate of range `r`: a maximal printable run of
/// at least `MIN_STRING_LEN` bytes.
pub open spec fn candidate_ok(bytes: Seq<u8>, r: ByteRange, off: usize, len: usize) -> bool {
    &&& maximal_run(bytes, r.offset as int, range_end(r), off as int, len as int)
    &&& len >= MIN_STRING_LEN
}

/// The candidate `c`, as a record, is a string candidate of range `r`.
pub open spec fn candidate_in_range(bytes: Seq<u8>, r: ByteRange, c: StringCandidate) -> bool {
    candidate_ok(bytes, r, c.offset, c.length)
}

/// Candidates are in ascending offset order and never overlap.
pub open spec fn candidates_sorted(cs: Seq<StringCandidate>) -> bool {
    forall|i: int|
        0 <= i && i + 1 < cs.len() ==> (#[trigger] cs[i]).offset + cs[i].length <= cs[i
            + 1].offset
}

/// Every candidate lies within a buffer of `len` bytes.
pub open spec fn candidates_in_bounds(cs: Seq<StringCandidate>, len: int) -> bool {
    forall|i: int| 0 <= i < cs.len() ==> (#[trigger] cs[i]).offset + cs[i].length <= len
}

/// Every candidate is a string candidate of one of the ranges.
pub open spec fn scan_sound(bytes: Seq<u8>, rs: Seq<ByteRange>, cs: Seq<StringCandidate>) -> bool {
    forall|k: int|
        0 <= k < cs.len() ==> exists|ri: int|
            0 <= ri < rs.len() && candidate_in_range(bytes, rs[ri], #[trigger] cs[k])
}

/// Every string candidate of every range is listed.
pub open spec fn scan_complete(
    bytes: Seq<u8>,
    rs: Seq<ByteRange>,
    cs: Seq<StringCandidate>,
) -> bool {
    forall|ri: int, off: usize, len: usize|
        0 <= ri < rs.len() && #[trigger] candidate_ok(bytes, rs[ri], off, len) ==> cs.contains(
            StringCandidate { offset: off, length: len },
        )
}

/// The candidate list is exactly what scanning the ranges yields: sound,
/// complete, in ascending non-overlapping order, and within the buffer.
pub open spec fn scan_result_ok(
    bytes: Seq<u8>,
    rs: Seq<ByteRange>,
    cs: Seq<StringCandidate>,
) -> bool {
    &&& scan_sound(bytes, rs, cs)
    &&& scan_complete(bytes, rs, cs)
    &&& candidates_sorted(cs)
    &&& candidates_in_bounds(cs, bytes.len() as int)
}

proof fn lemma_scan_extend_order(
    bytes: Seq<u8>,
    ranges: Seq<ByteRange>,
    ri: int,
    pre: Seq<StringCandidate>,
    prc: Seq<StringCandidate>,
)
    requires
        0 <= ri < ranges.len(),
        ranges_wf(ranges, bytes.len() as int),
        candidates_sorted(pre),
        candidates_in_bounds(pre, bytes.len() as int),
        pre.len() > 0 ==> ri > 0 && pre.last().offset + pre.last().length <= range_end(
            ranges[ri - 1],
        ),
        forall|k: int|
            0 <= k < prc.len() ==> candidate_in_range(bytes, ranges[ri], #[trigger] prc[k]),
        candidates_sorted(prc),
    ensures
        candidates_sorted(pre + prc),
        candidates_in_bounds(pre + prc, bytes.len() as int),
        (pre + prc).len() > 0 ==> (pre + prc).last().offset + (pre + prc).last().length
            <= range_end(ranges[ri]),
{
    let cs = pre + prc;
    let r = ranges[ri];
    assert(range_in_bounds(r, bytes.len() as int));
    assert forall|k: int|
        0 <= k < cs.len() implies (#[trigger] cs[k]).offset + cs[k].length
        <= bytes.len() as int by {
        if k < pre.len() {
            assert(cs[k] == pre[k]);
        } else {
            assert(cs[k] == prc[k - pre.len()]);
            assert(candidate_in_range(bytes, r, prc[k - pre.len()]));
        }
    }
    assert forall|k: int|
        0 <= k && k + 1 < cs.len() implies (#[trigger] cs[k]).offset + cs[k].length <= cs[k
        + 1].offset by {
        if k + 1 < pre.len() {
            assert(cs[k] == pre[k] && cs[k + 1] == pre[k + 1]);
        } else if k >= pre.len() {
            assert(cs[k] == prc[k - pre.len()] && cs[k + 1] == prc[k + 1 - pre.len()]);
        } else {
            assert(cs[k] == pre[k] && k == pre.len() - 1);
            assert(cs[k + 1] == prc[0]);
            assert(candidate_in_range(bytes, r, prc[0]));
            assert(range_end(ranges[ri - 1]) <= ranges[ri].offset);
        }
    }
    if cs.len() > 0 {
        if prc.len() > 0 {
            assert(cs.last() == prc.last());
            assert(candidate_in_range(bytes, r, prc[prc.len() - 1]));
        } else {
            assert(cs.last() == pre.last());
            assert(range_end(ranges[ri - 1]) <= ranges[ri].offset);
        }
    }
}

proof fn lemma_scan_extend_sound(
    bytes: Seq<u8>,
    ranges: Seq<ByteRange>,
    ri: int,
    pre: Seq<StringCandidate>,
    prc: Seq<StringCandidate>,
)
    requires
        0 <= ri < ranges.len(),
        scan_sound(bytes, ranges.take(ri), pre),
        forall|k: int|
            0 <= k < prc.len() ==> candidate_in_range(bytes, ranges[ri], #[trigger] prc[k]),
    ensures
        scan_sound(bytes, ranges.take(ri + 1), pre + prc),
{
    let cs = pre + prc;
    let rs1 = ranges.take(ri + 1);
    let rs0 = ranges.take(ri);
    assert(rs1[ri] == ranges[ri]);
    assert forall|k: int| 0 <= k < cs.len() implies exists|x: int|
        0 <= x < rs1.len() && candidate_in_range(bytes, rs1[x], #[trigger] cs[k]) by {
        if k < pre.len() {
            assert(cs[k] == pre[k]);
            let x = choose|x: int|
                0 <= x < rs0.len() && candidate_in_range(bytes, rs0[x], pre[k]);
            assert(rs1[x] == rs0[x]);
            assert(candidate_in_range(bytes, rs1[x], cs[k]));
        } else {
            assert(cs[k] == prc[k - pre.len()]);
            assert(candidate_in_range(bytes, rs1[ri], cs[k]));
        }
    }
}

proof fn lemma_scan_extend_complete(
    bytes: Seq<u8>,
    ranges: Seq<ByteRange>,
    ri: int,
    pre: Seq<StringCandidate>,
    prc: Seq<StringCandidate>,
)
    requires
        0 <= ri < ranges.len(),
        scan_complete(bytes, ranges.take(ri), pre),
        forall|off: usize, len: usize|
            candidate_ok(bytes, ranges[ri], off, len) ==> prc.contains(
                StringCandidate { offset: off, length: len },
            ),
    ensures
        scan_complete(bytes, ranges.take(ri + 1), pre + prc),
{
    let cs = pre + prc;
    let rs1 = ranges.take(ri + 1);
    let rs0 = ranges.take(ri);
    assert(rs1[ri] == ranges[ri]);
    assert forall|x: int, off: usize, len: usize|
        0 <= x < rs1.len() && #[trigger] candidate_ok(bytes, rs1[x], off, len) implies cs.contains(
        StringCandidate { offset: off, length: len },
    ) by {
        let c = StringCandidate { offset: off, length: len };
        if x < ri {
            assert(rs0[x] == rs1[x]);
            assert(candidate_ok(bytes, rs0[x], off, len));
            assert(pre.contains(c));
            let m0 = choose|m0: int| 0 <= m0 < pre.len() && pre[m0] == c;
            assert(cs[m0] == c);
            assert(cs.contains(c));
        } else {
            assert(prc.contains(c));
            let m0 = choose|m0: int| 0 <= m0 < prc.len() && prc[m0] == c;
            assert(cs[pre.len() + m0] == c);
            assert(cs.contains(c));
        }
    }
}

/// Extending a per-range scan: appending the candidates of the next range to
/// an exact result for the earlier ranges gives an exact result for the
/// extended prefix, and keeps the list ascending because disjoint ascending
/// ranges separate their candidates.
pub proof fn lemma_scan_extend(
    bytes: Seq<u8>,
    ranges: Seq<ByteRange>,
    ri: int,
    pre: Seq<StringCandidate>,
    prc: Seq<StringCandidate>,
)
    requires
        0 <= ri < ranges.len(),
        ranges_wf(ranges, bytes.len() as int),
        scan_sound(bytes, ranges.take(ri), pre),
        scan_complete(bytes, ranges.take(ri), pre),
        candidates_sorted(pre),
        candidates_in_bounds(pre, bytes.len() as int),
        pre.len() > 0 ==> ri > 0 && pre.last().offset + pre.last().length <= range_end(
            ranges[ri - 1],
        ),
        forall|k: int|
            0 <= k < prc.len() ==> candidate_in_range(bytes, ranges[ri], #[trigger] prc[k]),
        forall|off: usize, len: usize|
            candidate_ok(bytes, ranges[ri], off, len) ==> prc.contains(
                StringCandidate { offset: off, length: len },
            ),
        candidates_sorted(prc),
    ensures
        scan_sound(bytes, ranges.take(ri + 1), pre + prc),
        scan_complete(bytes, ranges.take(ri + 1), pre + prc),
        candidates_sorted(pre + prc),
        candidates_in_bounds(pre + prc, bytes.len() as int),
        (pre + prc).len() > 0 ==> (pre + prc).last().offset + (pre + prc).last().length
            <= range_end(ranges[ri]),
{
    lemma_scan_extend_order(bytes, ranges, ri, pre, prc);
    lemma_scan_extend_sound(bytes, ranges, ri, pre, prc);
    lemma_scan_extend_complete(bytes, ranges, ri, pre, prc);
}

/// Scans `r` for string candidates. The result is exactly the maximal
/// printable-ASCII runs of length at least `MIN_STRING_LEN` within the range,
/// in ascending offset order.
pub fn scan_range(bytes: &Vec<u8>, r: ByteRange) -> (cands: Vec<StringCandidate>)
    requires
        range_in_bounds(r, bytes@.len() as int),
    ensures
        forall|k: int|
            0 <= k < cands@.len() ==> candidate_in_range(bytes@, r, #[trigger] cands@[k]),
        forall|off: usize, len: usize|
            candidate_ok(bytes@, r, off, len) ==> cands@.contains(
                StringCandidate { offset: off, length: len },
            ),
        candidates_sorted(cands@),
{
    let n = bytes.len();
    let lo = r.offset;
    let hi = r.offset + r.length;
    let mut cands: Vec<StringCandidate> = Vec::new();
    let mut i = lo;
    while i < hi
        invariant
            lo == r.offset,
            hi as int == range_end(r),
            lo <= i <= hi <= bytes@.len(),
            i == lo || i == hi || !spec_printable(bytes@[i - 1]) || !spec_printable(
                bytes@[i as int],
            ),
            forall|k: int|
                0 <= k < cands@.len() ==> candidate_in_range(bytes@, r, #[trigger] cands@[k]),
            forall|k: int|
                0 <= k < cands@.len() ==> (#[trigger] cands@[k]).offset + cands@[k].length
                    <= i,
            forall|off: usize, len: usize|
                candidate_ok(bytes@, r, off, len) && off + len <= i ==> cands@.contains(
                    StringCandidate { offset: off, length: len },
                ),
            candidates_sorted(cands@),
        decreases hi - i,
    {
        if !is_printable_ascii(bytes[i]) {
            proof {
                // no maximal run can end at i + 1: its last byte would be the
                // non-printable byte at i
                assert forall|off: usize, len: usize|
                    candidate_ok(bytes@, r, off, len) && off + len <= i + 1 implies cands@.contains(
                    StringCandidate { offset: off, length: len },
                ) by {
                    if off + len == i + 1 {
                        assert(spec_printable(bytes@[i as int]));  // byte i is inside the run
                    }
                }
            }
            i += 1;
        } else {
            let run_start = i;
            while i < hi && is_printable_ascii(bytes[i])
                invariant
                    lo <= run_start <= i <= hi <= bytes@.len(),
                    lo == r.offset,
                    hi as int == range_end(r),
                    run_start < hi,
                    i == run_start ==> i < hi && spec_printable(bytes@[i as int]),
                    forall|j: int|
                        run_start <= j < i ==> spec_printable(#[trigger] bytes@[j]),
                    run_start == lo || !spec_printable(bytes@[run_start - 1]),
                    forall|k: int|
                        0 <= k < cands@.len() ==> candidate_in_range(
                            bytes@,
                            r,
                            #[trigger] cands@[k],
                        ),
                    forall|k: int|
                        0 <= k < cands@.len() ==> (#[trigger] cands@[k]).offset
                            + cands@[k].length <= run_start,
                    forall|off: usize, len: usize|
                        candidate_ok(bytes@, r, off, len) && off + len <= run_start
                            ==> cands@.contains(StringCandidate { offset: off, length: len }),
                    candidates_sorted(cands@),
                decreases hi - i,
            {
                i += 1;
            }
            let run_len = i - run_start;
            proof {
                assert(i > run_start);
                assert(maximal_run(
                    bytes@,
                    lo as int,
                    hi as int,
                    run_start as int,
                    run_len as int,
                ));
                // the only maximal run ending in (run_start, i] is
                // (run_start, run_len): anything else contradicts maximality
                assert forall|off: usize, len: usize|
                    candidate_ok(bytes@, r, off, len) && run_start < off + len <= i implies off
                    == run_start && len == run_len by {
                    if off + len < i {
                        // the run could be extended to the right
                        assert(spec_printable(bytes@[off + len]));
                    }
                    if off < run_start {
                        // the byte before run_start lies inside the run
                        assert(spec_printable(bytes@[run_start - 1]));
                        assert(run_start > lo);
                    }
                    if off > run_start {
                        // the run could be extended to the left
                        assert(spec_printable(bytes@[off - 1]));
                    }
                }
            }
            if run_len >= MIN_STRING_LEN {
                let ghost pre = cands@;
                cands.push(StringCandidate { offset: run_start, length: run_len });
                proof {
                    assert forall|x: StringCandidate| pre.contains(x) implies cands@.contains(
                        x,
                    ) by {
                        let k = choose|k: int| 0 <= k < pre.len() && pre[k] == x;
                        assert(cands@[k] == x);
                    }
                    assert(cands@.last() == StringCandidate {
                        offset: run_start,
                        length: run_len,
                    });
                    assert(cands@.contains(cands@.last()));
                    assert forall|k: int| 0 <= k && k + 1 < cands@.len() implies (
                    #[trigger] cands@[k]).offset + cands@[k].length <= cands@[k + 1].offset by {
                        if k + 1 < pre.len() {
                            assert(pre[k] == cands@[k] && pre[k + 1] == cands@[k + 1]);
                        } else {
                            assert(cands@[k] == pre[k]);
                            assert(pre[k].offset + pre[k].length <= run_start);
                        }
                    }
                    assert forall|off: usize, len: usize|
                        candidate_ok(bytes@, r, off, len) && off + len <= i implies cands@.contains(
                        StringCandidate { offset: off, length: len },
                    ) by {
                        if off + len <= run_start {
                            assert(pre.contains(StringCandidate { offset: off, length: len }));
                        }
                    }
                }
            } else {
                proof {
                    // the unique run ending in (run_start, i] is too short to
                    // be a candidate, so completeness carries over unchanged
                    assert forall|off: usize, len: usize|
                        candidate_ok(bytes@, r, off, len) && off + len <= i implies cands@.contains(
                        StringCandidate { offset: off, length: len },
                    ) by {
                        if off + len > run_start {
                            assert(len == run_len);
                        }
                    }
                }
            }
        }
    }
    cands
}

} // verus!
