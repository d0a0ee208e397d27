//! Byte ranges worth analyzing, and how they are resolved from a classified
//! binary: one clipped range per raw section, normalized to ascending disjoint
//! order, with the whole buffer as the fallback when nothing structured is
//! recoverable.

use vstd::prelude::*;

use crate::binary::{BinaryInfo, SectionInfo};

verus! {

/// A half-open byte range `[offset, offset + length)` of the scanned buffer.
#[derive(Clone, Copy, Debug, PartialEq, Eq, Structural)]
pub struct ByteRange {
    pub offset: usize,
    pub length: usize,
}

/// End of the range, one past its last byte.
pub open spec fn range_end(r: ByteRange) -> int {
    r.offset + r.length
}

/// The range stays within a buffer of `len` bytes.
pub open spec fn range_in_bounds(r: ByteRange, len: int) -> bool {
    range_end(r) <= len
}

/// Ranges are in ascending order and pairwise disjoint, and all lie within a
/// buffer of `len` bytes.
pub open spec fn ranges_wf(rs: Seq<ByteRange>, len: int) -> bool {
    &&& forall|i: int| 0 <= i < rs.len() ==> range_in_bounds(#[trigger] rs[i], len)
    &&& forall|i: int|
        0 <= i && i + 1 < rs.len() ==> range_end(#[trigger] rs[i]) <= rs[i + 1].offset
}

/// Byte position `p` lies inside range `r`.
pub open spec fn covers(r: ByteRange, p: int) -> bool {
    r.offset <= p < range_end(r)
}

/// Byte position `p` lies in one of the ranges.
pub open spec fn covered(rs: Seq<ByteRange>, p: int) -> bool {
    exists|i: int| 0 <= i < rs.len() && covers(#[trigger] rs[i], p)
}

/// Ranges are in ascending order by offset (possibly overlapping).
pub open spec fn sorted_by_offset(rs: Seq<ByteRange>) -> bool {
    forall|i: int| 0 <= i && i + 1 < rs.len() ==> (#[trigger] rs[i]).offset <= rs[i + 1].offset
}

/// The extent of section `s`, clipped to a buffer of `len` bytes. Sections
/// with a zero raw offset or size are skipped entirely, so their extent is
/// empty; a malformed size is clipped, never an error.
pub open spec fn clipped_section_start(s: SectionInfo) -> int {
    s.raw_offset as int
}

pub open spec fn clipped_section_end(s: SectionInfo, len: int) -> int {
    if s.raw_offset == 0 || s.raw_size == 0 {
        clipped_section_start(s)  // skipped: empty extent
    } else if s.raw_offset + s.raw_size <= len {
        s.raw_offset + s.raw_size
    } else {
        len
    }
}

/// Byte position `p` lies in the clipped extent of one of the sections.
pub open spec fn covered_by_sections(ss: Seq<SectionInfo>, len: int, p: int) -> bool {
    exists|i: int|
        0 <= i < ss.len() && clipped_section_start(#[trigger] ss[i]) <= p < clipped_section_end(
            ss[i],
            len,
        )
}

/// At least one section keeps a non-empty extent after skipping and clipping.
pub open spec fn sections_have_content(ss: Seq<SectionInfo>, len: int) -> bool {
    exists|i: int|
        0 <= i < ss.len() && clipped_section_start(#[trigger] ss[i]) < clipped_section_end(
            ss[i],
            len,
        )
}

proof fn lemma_covered_push(s: Seq<ByteRange>, r: ByteRange, p: int)
    ensures
        covered(s.push(r), p) <==> covered(s, p) || covers(r, p),
{
    let t = s.push(r);
    if covered(s, p) {
        let i = choose|i: int| 0 <= i < s.len() && covers(#[trigger] s[i], p);
        assert(covers(t[i], p));
    }
    if covers(r, p) {
        assert(covers(t[s.len() as int], p));
    }
    if covered(t, p) {
        let i = choose|i: int| 0 <= i < t.len() && covers(#[trigger] t[i], p);
        if i < s.len() {
            assert(covers(s[i], p));
        } else {
            assert(t[i] == r);
        }
    }
}

proof fn lemma_covered_insert(s: Seq<ByteRange>, pos: int, r: ByteRange, p: int)
    requires
        0 <= pos <= s.len(),
    ensures
        covered(s.insert(pos, r), p) <==> covered(s, p) || covers(r, p),
{
    let t = s.insert(pos, r);
    if covered(s, p) {
        let i = choose|i: int| 0 <= i < s.len() && covers(#[trigger] s[i], p);
        if i < pos {
            assert(covers(t[i], p));
        } else {
            assert(t[i + 1] == s[i]);
            assert(covers(t[i + 1], p));
        }
    }
    if covers(r, p) {
        assert(covers(t[pos], p));
    }
    if covered(t, p) {
        let i = choose|i: int| 0 <= i < t.len() && covers(#[trigger] t[i], p);
        if i < pos {
            assert(covers(s[i], p));
        } else if i > pos {
            assert(s[i - 1] == t[i]);
            assert(covers(s[i - 1], p));
        } else {
            assert(t[i] == r);
        }
    }
}

proof fn lemma_sections_take_step(ss: Seq<SectionInfo>, len: int, i: int, p: int)
    requires
        0 <= i < ss.len(),
    ensures
        covered_by_sections(ss.take(i + 1), len, p) <==> covered_by_sections(ss.take(i), len, p)
            || (clipped_section_start(ss[i]) <= p < clipped_section_end(ss[i], len)),
{
    let a = ss.take(i);
    let b = ss.take(i + 1);
    if covered_by_sections(a, len, p) {
        let m = choose|m: int|
            0 <= m < a.len() && clipped_section_start(#[trigger] a[m]) <= p < clipped_section_end(
                a[m],
                len,
            );
        assert(b[m] == a[m]);
        assert(clipped_section_start(b[m]) <= p < clipped_section_end(b[m], len));
    }
    if clipped_section_start(ss[i]) <= p < clipped_section_end(ss[i], len) {
        assert(b[i] == ss[i]);
        assert(clipped_section_start(b[i]) <= p < clipped_section_end(b[i], len));
    }
    if covered_by_sections(b, len, p) {
        let m = choose|m: int|
            0 <= m < b.len() && clipped_section_start(#[trigger] b[m]) <= p < clipped_section_end(
                b[m],
                len,
            );
        if m < i {
            assert(a[m] == b[m]);
            assert(clipped_section_start(a[m]) <= p < clipped_section_end(a[m], len));
        } else {
            assert(b[m] == ss[i]);
        }
    }
}

/// One clipped range per section with usable raw data, in section order.
fn clipped_ranges(sections: &Vec<SectionInfo>, buffer_len: usize) -> (rs: Vec<ByteRange>)
    ensures
        forall|k: int|
            0 <= k < rs@.len() ==> (#[trigger] rs@[k]).length > 0 && range_in_bounds(
                rs@[k],
                buffer_len as int,
            ),
        forall|p: int|
            covered(rs@, p) <==> covered_by_sections(sections@, buffer_len as int, p),
        rs@.len() > 0 <==> sections_have_content(sections@, buffer_len as int),
{
    let ghost glen: int = buffer_len as int;
    let mut rs: Vec<ByteRange> = Vec::new();
    let mut i: usize = 0;
    while i < sections.len()
        invariant
            i <= sections@.len(),
            glen == buffer_len as int,
            forall|k: int|
                0 <= k < rs@.len() ==> (#[trigger] rs@[k]).length > 0 && range_in_bounds(
                    rs@[k],
                    glen,
                ),
            forall|p: int| covered(rs@, p) <==> covered_by_sections(sections@.take(i as int), glen, p),
            rs@.len() > 0 <==> sections_have_content(sections@.take(i as int), glen),
        decreases sections@.len() - i,
    {
        let s = sections[i];
        let ghost pre = rs@;
        let start = s.raw_offset as usize;
        let mut kept = false;
        if s.raw_offset != 0 && s.raw_size != 0 {
            let end64: u64 = s.raw_offset as u64 + s.raw_size as u64;
            let end: usize = if end64 > buffer_len as u64 {
                buffer_len
            } else {
                end64 as usize
            };
            if end > start {
                rs.push(ByteRange { offset: start, length: end - start });
                kept = true;
                proof {
                    assert(end as int == clipped_section_end(sections@[i as int], glen));
                }
            }
        }
        proof {
            let sec = sections@[i as int];
            if kept {
                assert(rs@ == pre.push(rs@.last()));
                assert forall|p: int|
                    covered(rs@, p) <==> covered_by_sections(
                        sections@.take(i as int + 1),
                        glen,
                        p,
                    ) by {
                    lemma_covered_push(pre, rs@.last(), p);
                    lemma_sections_take_step(sections@, glen, i as int, p);
                }
                assert(sections_have_content(sections@.take(i as int + 1), glen)) by {
                    assert(sections@.take(i as int + 1)[i as int] == sec);
                }
            } else {
                // the section's clipped extent is empty
                assert(clipped_section_start(sec) >= clipped_section_end(sec, glen));
                assert forall|p: int|
                    covered(rs@, p) <==> covered_by_sections(
                        sections@.take(i as int + 1),
                        glen,
                        p,
                    ) by {
                    lemma_sections_take_step(sections@, glen, i as int, p);
                }
                assert(sections_have_content(sections@.take(i as int + 1), glen)
                    <==> sections_have_content(sections@.take(i as int), glen)) by {
                    if sections_have_content(sections@.take(i as int + 1), glen) {
                        let m = choose|m: int|
                            0 <= m < i + 1 && clipped_section_start(
                                #[trigger] sections@.take(i as int + 1)[m],
                            ) < clipped_section_end(sections@.take(i as int + 1)[m], glen);
                        if m < i {
                            assert(sections@.take(i as int)[m] == sections@.take(i as int + 1)[m]);
                        }
                    }
                    if sections_have_content(sections@.take(i as int), glen) {
                        let m = choose|m: int|
                            0 <= m < i && clipped_section_start(
                                #[trigger] sections@.take(i as int)[m],
                            ) < clipped_section_end(sections@.take(i as int)[m], glen);
                        assert(sections@.take(i as int + 1)[m] == sections@.take(i as int)[m]);
                    }
                }
            }
        }
        i += 1;
    }
    proof {
        assert(sections@.take(sections@.len() as int) =~= sections@);
    }
    rs
}

/// Stable insertion sort of ranges by ascending offset. Keeps the covered set
/// and every element.
#[verifier::rlimit(60)]
fn sort_ranges(rs: Vec<ByteRange>) -> (out: Vec<ByteRange>)
    ensures
        sorted_by_offset(out@),
        out@.len() == rs@.len(),
        forall|p: int| covered(out@, p) <==> covered(rs@, p),
        forall|k: int| 0 <= k < out@.len() ==> rs@.contains(#[trigger] out@[k]),
{
    let mut out: Vec<ByteRange> = Vec::new();
    let mut i: usize = 0;
    while i < rs.len()
        invariant
            i <= rs@.len(),
            out@.len() == i,
            sorted_by_offset(out@),
            forall|p: int| covered(out@, p) <==> covered(rs@.take(i as int), p),
            forall|k: int| 0 <= k < out@.len() ==> rs@.contains(#[trigger] out@[k]),
        decreases rs@.len() - i,
    {
        let r = rs[i];
        let mut pos: usize = 0;
        while pos < out.len() && out[pos].offset <= r.offset
            invariant
                pos <= out@.len(),
                forall|m: int| 0 <= m < pos ==> (#[trigger] out@[m]).offset <= r.offset,
            decreases out@.len() - pos,
        {
            pos += 1;
        }
        let ghost pre = out@;
        out.insert(pos, r);
        proof {
            assert(out@ == pre.insert(pos as int, r));
            assert forall|a: int|
                0 <= a && a + 1 < out@.len() implies (#[trigger] out@[a]).offset <= out@[a
                + 1].offset by {
                let b = a + 1;
                if b < pos {
                    assert(out@[a] == pre[a] && out@[b] == pre[b]);
                } else if a > pos {
                    assert(out@[a] == pre[a - 1] && out@[b] == pre[b - 1]);
                } else if a == pos {
                    assert(out@[a] == r && out@[b] == pre[a]);
                } else {
                    // b == pos
                    assert(out@[a] == pre[a] && out@[b] == r);
                }
            }
            assert(sorted_by_offset(out@));
            assert(rs@.take(i as int + 1) =~= rs@.take(i as int).push(r));
            assert forall|p: int|
                covered(out@, p) <==> covered(rs@.take(i as int + 1), p) by {
                lemma_covered_insert(pre, pos as int, r, p);
                lemma_covered_push(rs@.take(i as int), r, p);
            }
            assert forall|k: int| 0 <= k < out@.len() implies rs@.contains(#[trigger] out@[k]) by {
                if k < pos {
                    assert(out@[k] == pre[k]);
                } else if k > pos {
                    assert(out@[k] == pre[k - 1]);
                } else {
                    assert(out@[k] == rs@[i as int]);
                }
            }
        }
        i += 1;
    }
    proof {
        assert(rs@.take(rs@.len() as int) =~= rs@);
    }
    out
}

/// Merges an offset-sorted range list into an ascending disjoint list covering
/// exactly the same bytes.
fn merge_ranges(rs: Vec<ByteRange>, len: Ghost<int>) -> (out: Vec<ByteRange>)
    requires
        len@ <= usize::MAX,
        sorted_by_offset(rs@),
        forall|k: int|
            0 <= k < rs@.len() ==> (#[trigger] rs@[k]).length > 0 && range_in_bounds(rs@[k], len@),
    ensures
        ranges_wf(out@, len@),
        forall|k: int| 0 <= k < out@.len() ==> (#[trigger] out@[k]).length > 0,
        forall|p: int| covered(out@, p) <==> covered(rs@, p),
        out@.len() > 0 <==> rs@.len() > 0,
{
    let mut out: Vec<ByteRange> = Vec::new();
    let mut i: usize = 0;
    while i < rs.len()
        invariant
            i <= rs@.len(),
            len@ <= usize::MAX,
            sorted_by_offset(rs@),
            forall|k: int|
                0 <= k < rs@.len() ==> (#[trigger] rs@[k]).length > 0 && range_in_bounds(
                    rs@[k],
                    len@,
                ),
            ranges_wf(out@, len@),
            forall|k: int| 0 <= k < out@.len() ==> (#[trigger] out@[k]).length > 0,
            forall|p: int| covered(out@, p) <==> covered(rs@.take(i as int), p),
            out@.len() > 0 <==> i > 0,
            out@.len() > 0 && i > 0 ==> out@.last().offset <= rs@[i as int - 1].offset,
        decreases rs@.len() - i,
    {
        let r = rs[i];
        let ghost pre = out@;
        proof {
            assert(rs@.take(i as int + 1) =~= rs@.take(i as int).push(r));
        }
        if out.len() == 0 {
            out.push(r);
            proof {
                assert forall|p: int|
                    covered(out@, p) <==> covered(rs@.take(i as int + 1), p) by {
                    lemma_covered_push(pre, r, p);
                    lemma_covered_push(rs@.take(i as int), r, p);
                }
            }
        } else {
            let li = out.len() - 1;
            let last = out[li];
            let last_end = last.offset + last.length;
            let r_end = r.offset + r.length;
            proof {
                // the current range starts no earlier than the merged tail
                assert(last.offset <= rs@[i as int - 1].offset);
                assert(rs@[i as int - 1].offset <= r.offset);
            }
            if r.offset <= last_end {
                if r_end > last_end {
                    let merged = ByteRange { offset: last.offset, length: r_end - last.offset };
                    out[li] = merged;
                    proof {
                        assert(out@ == pre.update(li as int, merged));
                        assert forall|p: int|
                            covers(merged, p) <==> covers(last, p) || covers(r, p) by {}
                        assert forall|p: int|
                            covered(out@, p) <==> covered(rs@.take(i as int + 1), p) by {
                            lemma_covered_push(rs@.take(i as int), r, p);
                            if covered(out@, p) {
                                let m = choose|m: int|
                                    0 <= m < out@.len() && covers(#[trigger] out@[m], p);
                                if m < li {
                                    assert(covers(pre[m], p));
                                }
                            }
                            if covered(pre, p) {
                                let m = choose|m: int|
                                    0 <= m < pre.len() && covers(#[trigger] pre[m], p);
                                if m < li {
                                    assert(covers(out@[m], p));
                                } else {
                                    assert(covers(out@[li as int], p));
                                }
                            }
                            if covers(r, p) {
                                assert(covers(out@[li as int], p));
                            }
                        }
                    }
                } else {
                    proof {
                        // the range is nested in the merged tail: nothing to do
                        assert forall|p: int|
                            covered(out@, p) <==> covered(rs@.take(i as int + 1), p) by {
                            lemma_covered_push(rs@.take(i as int), r, p);
                            if covers(r, p) {
                                assert(covers(out@[li as int], p));
                            }
                        }
                    }
                }
            } else {
                out.push(r);
                proof {
                    assert forall|p: int|
                        covered(out@, p) <==> covered(rs@.take(i as int + 1), p) by {
                        lemma_covered_push(pre, r, p);
                        lemma_covered_push(rs@.take(i as int), r, p);
                    }
                }
            }
        }
        i += 1;
    }
    proof {
        assert(rs@.take(rs@.len() as int) =~= rs@);
    }
    out
}

/// The range list is the single range covering the whole buffer.
pub open spec fn whole_buffer_range(rs: Seq<ByteRange>, len: int) -> bool {
    rs.len() == 1 && rs[0].offset == 0 && rs[0].length == len
}

/// `rs` is the resolved range list for a buffer of `len` bytes classified as
/// `info`: ascending, disjoint, within the buffer, and never empty. An
/// unrecognized blob, or a structured container none of whose sections keeps a
/// usable extent, degrades to the single whole-buffer range; a structured
/// container with content yields ranges covering exactly the union of its
/// clipped raw-section extents (one clipped range per usable section,
/// normalized by sorting and merging overlaps).
pub open spec fn ranges_resolved(info: BinaryInfo, len: int, rs: Seq<ByteRange>) -> bool {
    &&& ranges_wf(rs, len)
    &&& rs.len() >= 1
    &&& ((info is Unrecognized) ==> whole_buffer_range(rs, len))
    &&& (info matches BinaryInfo::Structured { sections, .. } ==> (if sections_have_content(
        sections@,
        len,
    ) {
        forall|p: int|
            #![trigger covered(rs, p)]
            covered(rs, p) <==> covered_by_sections(sections@, len, p)
    } else {
        whole_buffer_range(rs, len)
    }))
}

/// Resolves the byte ranges worth scanning. A structured container yields its
/// clipped raw-section extents, normalized to ascending disjoint order and
/// covering exactly the same bytes; zero-offset, zero-size and out-of-buffer
/// sections are skipped. When nothing structured is recoverable — an
/// unrecognized blob, or no section keeps a usable extent — the whole buffer is
/// scanned instead. Never fails, and every returned range lies within the
/// buffer.
pub fn resolve_ranges(info: &BinaryInfo, buffer_len: usize) -> (rs: Vec<ByteRange>)
    ensures
        ranges_resolved(*info, buffer_len as int, rs@),
{
    match info {
        BinaryInfo::Structured { sections, .. } => {
            let clipped = clipped_ranges(sections, buffer_len);
            if clipped.len() == 0 {
                let mut v: Vec<ByteRange> = Vec::new();
                v.push(ByteRange { offset: 0, length: buffer_len });
                proof {
                    assert(v@ =~= seq![ByteRange { offset: 0, length: buffer_len }]);
                }
                v
            } else {
                let sorted = sort_ranges(clipped);
                proof {
                    assert forall|k: int|
                        0 <= k < sorted@.len() implies (#[trigger] sorted@[k]).length > 0
                        && range_in_bounds(sorted@[k], buffer_len as int) by {
                        let m = choose|m: int|
                            0 <= m < clipped@.len() && clipped@[m] == sorted@[k];
                    }
                }
                merge_ranges(sorted, Ghost(buffer_len as int))
            }
        },
        BinaryInfo::Unrecognized => {
            let mut v: Vec<ByteRange> = Vec::new();
            v.push(ByteRange { offset: 0, length: buffer_len });
            proof {
                assert(v@ =~= seq![ByteRange { offset: 0, length: buffer_len }]);
            }
            v
        },
    }
}

} // verus!
