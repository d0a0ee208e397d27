//! The byte masker: a reversible single-byte XOR transform applied to every
//! byte of every string candidate, leaving all other bytes untouched.

use vstd::prelude::*;

use crate::scan::{candidates_in_bounds, candidates_sorted, StringCandidate};

verus! {

/// The fixed mask key. XOR with a fixed key is its own inverse, so applying
/// the transform twice restores the original buffer.
pub const XOR_KEY: u8 = 0xAA;

/// Byte position `p` lies inside one of the candidates.
pub open spec fn covered_by(cs: Seq<StringCandidate>, p: int) -> bool {
    exists|k: int|
        0 <= k < cs.len() && (#[trigger] cs[k]).offset <= p < cs[k].offset + cs[k].length
}

pub open spec fn mask_byte(b: u8) -> u8 {
    b ^ XOR_KEY
}

/// The masked image of `bytes`: candidate bytes are XORed with the key, all
/// others are unchanged.
pub open spec fn spec_masked(bytes: Seq<u8>, cs: Seq<StringCandidate>) -> Seq<u8> {
    Seq::new(
        bytes.len(),
        |p: int|
            if covered_by(cs, p) {
                mask_byte(bytes[p])
            } else {
                bytes[p]
            },
    )
}

/// Masking is an involution: masking the masked buffer over the same candidate
/// set restores the original buffer, byte for byte.
pub proof fn lemma_mask_involution(bytes: Seq<u8>, cs: Seq<StringCandidate>)
    ensures
        spec_masked(spec_masked(bytes, cs), cs) == bytes,
{
    let m1 = spec_masked(bytes, cs);
    let m2 = spec_masked(m1, cs);
    assert(forall|b: u8| #[trigger] ((b ^ 0xAAu8) ^ 0xAAu8) == b) by (bit_vector);
    assert forall|p: int| 0 <= p < bytes.len() implies m2[p] == bytes[p] by {
        if covered_by(cs, p) {
            assert(m1[p] == bytes[p] ^ 0xAAu8);
        }
    }
    assert(m2 =~= bytes);
}

/// In an ascending candidate list, every earlier candidate ends at or before a
/// later candidate's offset.
proof fn lemma_sorted_separated(cs: Seq<StringCandidate>, m: int, k: int)
    requires
        candidates_sorted(cs),
        0 <= m < k < cs.len(),
    ensures
        cs[m].offset + cs[m].length <= cs[k].offset,
    decreases k - m,
{
    if m + 1 < k {
        lemma_sorted_separated(cs, m + 1, k);
    }
}

/// Produces the masked copy of `bytes`: every byte of every candidate XORed
/// with the key, every other byte unchanged. The original buffer is untouched.
pub fn mask_bytes(bytes: &Vec<u8>, cs: &Vec<StringCandidate>) -> (out: Vec<u8>)
    requires
        candidates_in_bounds(cs@, bytes@.len() as int),
        candidates_sorted(cs@),
    ensures
        out@ == spec_masked(bytes@, cs@),
{
    let n = bytes.len();
    let mut out: Vec<u8> = Vec::new();
    let mut i: usize = 0;
    while i < n
        invariant
            i <= n == bytes@.len(),
            out@ =~= bytes@.take(i as int),
        decreases n - i,
    {
        out.push(bytes[i]);
        i += 1;
    }
    proof {
        assert(out@ =~= bytes@);
    }
    let mut k: usize = 0;
    while k < cs.len()
        invariant
            k <= cs@.len(),
            n == bytes@.len(),
            candidates_in_bounds(cs@, bytes@.len() as int),
            candidates_sorted(cs@),
            out@.len() == bytes@.len(),
            forall|p: int|
                0 <= p < bytes@.len() && covered_by(cs@.take(k as int), p) ==> out@[p]
                    == mask_byte(bytes@[p]),
            forall|p: int|
                0 <= p < bytes@.len() && !covered_by(cs@.take(k as int), p) ==> out@[p]
                    == bytes@[p],
        decreases cs@.len() - k,
    {
        let c = cs[k];
        proof {
            assert(c.offset + c.length <= bytes@.len());
            assert(bytes@.len() == n);
        }
        let end = c.offset + c.length;
        let mut j = c.offset;
        while j < end
            invariant
                k < cs@.len(),
                c == cs@[k as int],
                c.offset <= j <= end,
                end == c.offset + c.length,
                end <= bytes@.len(),
                candidates_in_bounds(cs@, bytes@.len() as int),
                candidates_sorted(cs@),
                out@.len() == bytes@.len(),
                forall|p: int|
                    0 <= p < bytes@.len() && covered_by(cs@.take(k as int), p) ==> out@[p]
                        == mask_byte(bytes@[p]),
                forall|p: int| c.offset <= p < j ==> out@[p] == mask_byte(#[trigger] bytes@[p]),
                forall|p: int|
                    0 <= p < bytes@.len() && !covered_by(cs@.take(k as int), p) && !(c.offset <= p
                        < j) ==> out@[p] == bytes@[p],
            decreases end - j,
        {
            proof {
                // byte j is not covered by any earlier candidate, so it still
                // holds its original value
                if covered_by(cs@.take(k as int), j as int) {
                    let m = choose|m: int|
                        0 <= m < k && (#[trigger] cs@.take(k as int)[m]).offset <= j
                            < cs@.take(k as int)[m].offset + cs@.take(k as int)[m].length;
                    lemma_sorted_separated(cs@, m, k as int);
                }
            }
            let v = out[j];
            out[j] = v ^ XOR_KEY;
            j += 1;
        }
        proof {
            // everything covered by the first k + 1 candidates is now masked
            assert forall|p: int|
                0 <= p < bytes@.len() && covered_by(
                    cs@.take(k as int + 1),
                    p,
                ) implies out@[p] == mask_byte(bytes@[p]) by {
                let m = choose|m: int|
                    0 <= m < k + 1 && (#[trigger] cs@.take(k as int + 1)[m]).offset <= p
                        < cs@.take(k as int + 1)[m].offset + cs@.take(k as int + 1)[m].length;
                if m < k {
                    assert(covered_by(cs@.take(k as int), p)) by {
                        assert(cs@.take(k as int)[m] == cs@[m]);
                    }
                }
            }
            assert forall|p: int|
                0 <= p < bytes@.len() && !covered_by(
                    cs@.take(k as int + 1),
                    p,
                ) implies out@[p] == bytes@[p] by {
                assert(!covered_by(cs@.take(k as int), p)) by {
                    if covered_by(cs@.take(k as int), p) {
                        let m = choose|m: int|
                            0 <= m < k && (#[trigger] cs@.take(k as int)[m]).offset <= p
                                < cs@.take(k as int)[m].offset + cs@.take(k as int)[m].length;
                        assert(cs@.take(k as int + 1)[m] == cs@[m]);
                    }
                }
                assert(!(c.offset <= p < end)) by {
                    if c.offset <= p < end {
                        assert(cs@.take(k as int + 1)[k as int] == c);
                    }
                }
            }
        }
        k += 1;
    }
    proof {
        assert(cs@.take(cs@.len() as int) =~= cs@);
        assert(out@ =~= spec_masked(bytes@, cs@));
    }
    out
}

} // verus!
