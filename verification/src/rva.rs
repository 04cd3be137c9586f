//! Mapping a relative virtual address to a file offset through the section table.
use vstd::prelude::*;
use crate::pe::{Image, SectionView, sections_view};

verus! {

/// The number of bytes a section covers in the address space: the larger of its raw
/// and virtual sizes.
pub open spec fn section_span(s: SectionView) -> u32 {
    if s.raw_size >= s.virtual_size {
        s.raw_size
    } else {
        s.virtual_size
    }
}

/// The address just past a section, saturated at `u32::MAX`.
pub open spec fn section_end(s: SectionView) -> int {
    if s.virtual_address + section_span(s) > u32::MAX {
        u32::MAX as int
    } else {
        s.virtual_address + section_span(s)
    }
}

/// The section covers the address `rva`.
pub open spec fn section_holds(s: SectionView, rva: u32) -> bool {
    s.virtual_address <= rva && rva < section_end(s)
}

/// The file offset of `rva` within a section that covers it.
pub open spec fn offset_in(s: SectionView, rva: u32) -> int {
    s.raw_address + (rva - s.virtual_address)
}

/// The file offset of `rva`, taken through the first section that covers it.
pub open spec fn spec_rva_to_offset(sections: Seq<SectionView>, rva: u32) -> Option<int>
    decreases sections.len(),
{
    if sections.len() == 0 {
        None
    } else if section_holds(sections[0], rva) {
        Some(offset_in(sections[0], rva))
    } else {
        spec_rva_to_offset(sections.drop_first(), rva)
    }
}

/// An address maps through the first section that covers it, and to nothing when
/// no section covers it.
pub proof fn lemma_rva_to_offset_first_section(sections: Seq<SectionView>, rva: u32)
    ensures
        spec_rva_to_offset(sections, rva) is None <==> forall|j: int| 0 <= j < sections.len() ==> !section_holds(#[trigger] sections[j], rva),
        forall|i: int|
            0 <= i < sections.len() && section_holds(#[trigger] sections[i], rva)
                && (forall|j: int| 0 <= j < i ==> !section_holds(#[trigger] sections[j], rva))
                ==> spec_rva_to_offset(sections, rva) == Some(offset_in(sections[i], rva)),
    decreases sections.len(),
{
    if sections.len() > 0 {
        lemma_rva_to_offset_first_section(sections.drop_first(), rva);
        let rest = sections.drop_first();
        assert forall|j: int| 0 <= j < rest.len() implies rest[j] == sections[j + 1] by {}
        if !section_holds(sections[0], rva) {
            assert((forall|j: int| 0 <= j < sections.len() ==> !section_holds(#[trigger] sections[j], rva))
                <==> (forall|j: int| 0 <= j < rest.len() ==> !section_holds(#[trigger] rest[j], rva))) by {
                if forall|j: int| 0 <= j < rest.len() ==> !section_holds(#[trigger] rest[j], rva) {
                    assert forall|j: int| 0 <= j < sections.len() implies !section_holds(#[trigger] sections[j], rva) by {
                        if j > 0 {
                            assert(sections[j] == rest[j - 1]);
                        }
                    }
                }
            }
            assert forall|i: int|
                0 <= i < sections.len() && section_holds(#[trigger] sections[i], rva)
                    && (forall|j: int| 0 <= j < i ==> !section_holds(#[trigger] sections[j], rva))
                implies spec_rva_to_offset(sections, rva) == Some(offset_in(sections[i], rva)) by {
                assert(i > 0);
                assert(rest[i - 1] == sections[i]);
                assert forall|j: int| 0 <= j < i - 1 implies !section_holds(#[trigger] rest[j], rva) by {
                    assert(rest[j] == sections[j + 1]);
                }
            }
        }
    }
}

/// An address maps to an offset within the file's 33-bit range: at least zero and
/// below `2^33`.
pub proof fn lemma_rva_to_offset_range(sections: Seq<SectionView>, rva: u32)
    ensures
        spec_rva_to_offset(sections, rva) matches Some(o) ==> 0 <= o < 0x2_0000_0000,
    decreases sections.len(),
{
    if sections.len() > 0 {
        lemma_rva_to_offset_range(sections.drop_first(), rva);
    }
}

/// The section covers `rva`, in plain arithmetic: `rva` lies at or after its virtual
/// address, less than the larger of its raw and virtual sizes past it, and below
/// `u32::MAX` (where the section's end saturates).
pub open spec fn covers(s: SectionView, rva: u32) -> bool {
    let size = if s.raw_size >= s.virtual_size { s.raw_size } else { s.virtual_size };
    &&& s.virtual_address <= rva
    &&& rva - s.virtual_address < size
    &&& rva < 0xffff_ffff
}

/// An address maps through the first section that covers it, to the section's raw
/// address plus the distance of the address from the section's virtual address; and to
/// nothing when no section covers it.
pub proof fn lemma_rva_to_offset_by_coverage(sections: Seq<SectionView>, rva: u32)
    ensures
        spec_rva_to_offset(sections, rva) is None <==> forall|j: int| 0 <= j < sections.len() ==> !covers(#[trigger] sections[j], rva),
        forall|i: int|
            0 <= i < sections.len() && covers(#[trigger] sections[i], rva)
                && (forall|j: int| 0 <= j < i ==> !covers(#[trigger] sections[j], rva))
                ==> spec_rva_to_offset(sections, rva) == Some(sections[i].raw_address + rva - sections[i].virtual_address),
{
    assert forall|s: SectionView| #[trigger] covers(s, rva) == section_holds(s, rva) by {}
    lemma_rva_to_offset_first_section(sections, rva);
    assert forall|i: int|
        0 <= i < sections.len() && covers(#[trigger] sections[i], rva)
            && (forall|j: int| 0 <= j < i ==> !covers(#[trigger] sections[j], rva))
        implies spec_rva_to_offset(sections, rva) == Some(sections[i].raw_address + rva - sections[i].virtual_address) by {
        assert(section_holds(sections[i], rva));
        assert forall|j: int| 0 <= j < i implies !section_holds(#[trigger] sections[j], rva) by {
            assert(!covers(sections[j], rva));
        }
    }
    if forall|j: int| 0 <= j < sections.len() ==> !covers(#[trigger] sections[j], rva) {
        assert forall|j: int| 0 <= j < sections.len() implies !section_holds(#[trigger] sections[j], rva) by {
            assert(!covers(sections[j], rva));
        }
    }
    if forall|j: int| 0 <= j < sections.len() ==> !section_holds(#[trigger] sections[j], rva) {
        assert forall|j: int| 0 <= j < sections.len() implies !covers(#[trigger] sections[j], rva) by {
            assert(!section_holds(sections[j], rva));
        }
    }
}

impl Image {
    /// The file offset of the relative virtual address `rva`, found through the first
    /// section that covers it; `None` when no section does.
    pub fn rva_to_offset(&self, rva: u32) -> (r: Option<u64>)
        ensures
            match r {
                Some(o) => spec_rva_to_offset(sections_view(self.sections@), rva) == Some(o as int),
                None => spec_rva_to_offset(sections_view(self.sections@), rva) is None,
            },
            r matches Some(o) ==> o < 0x2_0000_0000,
    {
        let ghost all = sections_view(self.sections@);
        let mut i: usize = 0;
        proof {
            assert(all.skip(0) =~= all);
        }
        while i < self.sections.len()
            invariant
                i <= self.sections.len(),
                all == sections_view(self.sections@),
                spec_rva_to_offset(all, rva) == spec_rva_to_offset(all.skip(i as int), rva),
            decreases self.sections.len() - i,
        {
            let s = &self.sections[i];
            let span = if s.raw_size >= s.virtual_size { s.raw_size } else { s.virtual_size };
            proof {
                assert(all.skip(i as int)[0] == s@);
                assert(all.skip(i as int).drop_first() =~= all.skip(i + 1));
            }
            if rva >= s.virtual_address && rva < s.virtual_address.saturating_add(span) {
                return Some(s.raw_address as u64 + (rva - s.virtual_address) as u64);
            }
            i = i + 1;
        }
        proof {
            assert(all.skip(i as int).len() == 0);
        }
        None
    }
}

} // verus!
