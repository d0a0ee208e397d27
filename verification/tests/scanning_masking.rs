use obscura::binary::{BinaryInfo, SectionInfo};
use obscura::mask::mask_bytes;
use obscura::ranges::{resolve_ranges, ByteRange};
use obscura::scan::{is_printable_ascii, scan_range, StringCandidate};

fn whole(len: usize) -> ByteRange {
    ByteRange { offset: 0, length: len }
}

#[test]
fn printable_ascii_is_space_through_tilde() {
    assert!(is_printable_ascii(0x20));
    assert!(is_printable_ascii(b'A'));
    assert!(is_printable_ascii(0x7e));
    assert!(!is_printable_ascii(0x1f));
    assert!(!is_printable_ascii(0x7f));
    assert!(!is_printable_ascii(0x00));
    assert!(!is_printable_ascii(0xff));
}

#[test]
fn scanner_finds_maximal_runs_of_min_length() {
    let mut bytes = vec![0u8];
    bytes.extend_from_slice(b"abcd"); // offset 1, long enough
    bytes.push(0);
    bytes.extend_from_slice(b"xyz"); // offset 6, too short
    bytes.push(0);
    bytes.extend_from_slice(b"hello world"); // offset 10
    let cands = scan_range(&bytes, whole(bytes.len()));
    assert_eq!(
        cands,
        vec![
            StringCandidate { offset: 1, length: 4 },
            StringCandidate { offset: 10, length: 11 },
        ]
    );
}

#[test]
fn scanner_candidates_are_maximal() {
    let bytes = b"abcdef".to_vec();
    // a run touching both ends of the buffer is one maximal candidate
    let cands = scan_range(&bytes, whole(6));
    assert_eq!(cands, vec![StringCandidate { offset: 0, length: 6 }]);
    // every byte of each candidate is printable; the borders are not
    for c in &cands {
        for i in c.offset..c.offset + c.length {
            assert!(is_printable_ascii(bytes[i]));
        }
    }
}

#[test]
fn scanner_respects_range_borders() {
    let bytes = b"abcdefgh".to_vec();
    // scanning only the middle range reports a run relative to that range
    let cands = scan_range(&bytes, ByteRange { offset: 2, length: 4 });
    assert_eq!(cands, vec![StringCandidate { offset: 2, length: 4 }]);
}

#[test]
fn scanner_on_empty_range_finds_nothing() {
    let bytes = vec![];
    let cands = scan_range(&bytes, whole(0));
    assert!(cands.is_empty());
}

#[test]
fn masking_applies_xor_inside_candidates_only() {
    let bytes = vec![1u8, 2, 3, 4, 5, 6];
    let cands = vec![StringCandidate { offset: 1, length: 2 }];
    let masked = mask_bytes(&bytes, &cands);
    assert_eq!(masked, vec![1, 2 ^ 0xAA, 3 ^ 0xAA, 4, 5, 6]);
}

#[test]
fn masking_twice_restores_the_original() {
    let mut bytes = vec![0u8, 7];
    bytes.extend_from_slice(b"some text here");
    bytes.push(200);
    let cands = scan_range(&bytes, whole(bytes.len()));
    assert!(!cands.is_empty());
    let once = mask_bytes(&bytes, &cands);
    assert_ne!(once, bytes);
    let twice = mask_bytes(&once, &cands);
    assert_eq!(twice, bytes);
}

#[test]
fn unrecognized_input_scans_the_whole_buffer() {
    let rs = resolve_ranges(&BinaryInfo::Unrecognized, 10);
    assert_eq!(rs, vec![ByteRange { offset: 0, length: 10 }]);
}

#[test]
fn empty_buffer_degrades_to_an_empty_whole_range() {
    let rs = resolve_ranges(&BinaryInfo::Unrecognized, 0);
    assert_eq!(rs, vec![ByteRange { offset: 0, length: 0 }]);
    let bytes: Vec<u8> = vec![];
    assert!(scan_range(&bytes, rs[0]).is_empty());
    assert!(mask_bytes(&bytes, &vec![]).is_empty());
}

#[test]
fn section_ranges_are_clipped_and_zero_entries_skipped() {
    let info = BinaryInfo::Structured {
        machine: 0x14c,
        sections: vec![
            SectionInfo { raw_offset: 4, raw_size: 4 },
            SectionInfo { raw_offset: 0, raw_size: 9 },   // zero offset: skipped
            SectionInfo { raw_offset: 6, raw_size: 0 },   // zero size: skipped
            SectionInfo { raw_offset: 100, raw_size: 5 }, // out of buffer: skipped
            SectionInfo { raw_offset: 8, raw_size: 50 },  // clipped to the buffer
        ],
        exports: vec![],
    };
    // the clipped tail [8, 10) touches the first section's extent [4, 8),
    // so normalization folds them into one range
    let rs = resolve_ranges(&info, 10);
    assert_eq!(rs, vec![ByteRange { offset: 4, length: 6 }]);
    for r in &rs {
        assert!(r.offset + r.length <= 10);
    }
}

#[test]
fn overlapping_sections_are_sorted_and_merged() {
    let info = BinaryInfo::Structured {
        machine: 0x8664,
        sections: vec![
            SectionInfo { raw_offset: 8, raw_size: 4 },
            SectionInfo { raw_offset: 2, raw_size: 6 },
            SectionInfo { raw_offset: 4, raw_size: 10 },
        ],
        exports: vec![],
    };
    let rs = resolve_ranges(&info, 20);
    assert_eq!(rs, vec![ByteRange { offset: 2, length: 12 }]);
}

#[test]
fn structured_container_without_usable_sections_falls_back_to_whole_buffer() {
    let info = BinaryInfo::Structured {
        machine: 0x14c,
        sections: vec![SectionInfo { raw_offset: 0, raw_size: 4 }],
        exports: vec![],
    };
    let rs = resolve_ranges(&info, 16);
    assert_eq!(rs, vec![ByteRange { offset: 0, length: 16 }]);
}
