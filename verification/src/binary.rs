//! Classification of the input byte image. A structured executable container
//! exposes its machine tag, its raw section extents and its export names; any
//! other input is an unrecognized blob, which downstream stages handle by
//! falling back to whole-buffer analysis. The container parsing itself is done
//! by the `goblin` crate behind one trusted wrapper; everything that consumes
//! the classification is verified for every possible value of it.

use vstd::prelude::*;

verus! {

/// The raw-data extent of one section, as the container header states it.
/// The fields are not validated here: range resolution clips them against the
/// actual buffer.
#[derive(Clone, Copy, Debug, PartialEq, Eq, Structural)]
pub struct SectionInfo {
    pub raw_offset: u32,
    pub raw_size: u32,
}

/// One entry of the container's export table; the name may be absent.
#[derive(Debug)]
pub struct ExportEntry {
    pub name: Option<String>,
}

/// What the binary loader recovered from the input bytes.
#[derive(Debug)]
pub enum BinaryInfo {
    /// An executable container with section metadata: the machine tag from its
    /// header, its sections, and its export table (possibly empty).
    Structured { machine: u16, sections: Vec<SectionInfo>, exports: Vec<ExportEntry> },
    /// Anything the parser does not recognize.
    Unrecognized,
}

/// What `goblin::Object::parse` recovers from a byte image, as a
/// [`BinaryInfo`]. The parse reads nothing but the bytes, so the
/// classification is a function of them alone; what it is on given bytes is
/// not stated — every consumer is verified for every possible value.
pub uninterp spec fn classification_of(bytes: Seq<u8>) -> BinaryInfo;

/// Relies on `goblin::Object::parse`: classifies the byte image. For a PE
/// container it exposes the COFF machine tag, each section's
/// `pointer_to_raw_data`/`size_of_raw_data` pair and each export's optional
/// name; every other parse outcome is an unrecognized blob. The result depends
/// on the bytes alone, which is all the contract states.
#[verifier::external_body]
pub(crate) fn classify_bytes(bytes: &[u8]) -> (r: BinaryInfo)
    ensures
        r == classification_of(bytes@),
{
    match goblin::Object::parse(bytes) {
        Ok(goblin::Object::PE(pe)) => BinaryInfo::Structured {
            machine: pe.header.coff_header.machine,
            sections: pe
                .sections
                .iter()
                .map(|s| SectionInfo { raw_offset: s.pointer_to_raw_data, raw_size: s.size_of_raw_data })
                .collect(),
            exports: pe.exports.iter().map(|e| ExportEntry { name: e.name.map(|n| n.to_string()) }).collect(),
        },
        _ => BinaryInfo::Unrecognized,
    }
}

} // verus!
