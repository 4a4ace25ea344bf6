//! Where the executable code of a file without a symbol table starts.
use vstd::prelude::*;
use vstd::string::StringExecFns;
use crate::elf::image::{ElfImage, SectionRecord, SegmentRecord};
use crate::error::TelfhashError;
use crate::order::same_text;

verus! {

broadcast use vstd::string::group_string_axioms;

/// Program header type of a loadable segment.
pub const PT_LOAD: u32 = 1;
/// Program header flag of an executable segment.
pub const PF_X: u32 = 1;
/// Section flag of a section holding executable code.
pub const SHF_EXECINSTR: u64 = 4;

/// A section that may hold the code.
#[derive(Debug, Clone, Copy)]
pub struct SectionCandidate {
    pub address: u64,
    pub size: u64,
    pub file_offset: usize,
    pub name: Option<&'static str>,
    pub executable: bool,
}

/// A loadable segment that may hold the code.
#[derive(Debug, Clone, Copy)]
pub struct SegmentCandidate {
    pub file_offset: usize,
    pub file_size: usize,
    pub virtual_address: u64,
    pub executable: bool,
}

/// The region chosen to disassemble, and why.
#[derive(Debug, Clone, Copy, PartialEq, Eq, Structural)]
pub enum CodeSelection {
    /// The section holding the entry point.
    EntrySection { file_offset: usize, size: usize, address: u64 },
    /// The `.text` section.
    TextSection { file_offset: usize, size: usize, address: u64 },
    /// An executable segment, read from the entry point when it lies inside.
    ExecutableSegment { file_offset: usize, size: usize, entry_offset: usize, address: u64 },
}

/// The code to disassemble and the address of its first byte.
#[derive(Debug)]
pub struct CodeContext {
    pub address: u64,
    pub bytes: Vec<u8>,
}

/// The section's address range, whose end saturates, holds `entry`.
pub open spec fn section_covers(s: SectionCandidate, entry: u64) -> bool {
    entry >= s.address && entry <= s.address.saturating_add(s.size.saturating_sub(1))
}

/// The section is named `.text`.
pub open spec fn is_text(s: SectionCandidate) -> bool {
    s.name matches Some(n) && n@ == ".text"@
}

/// The first section that holds `entry` (and is executable, when
/// `executable_only`).
pub open spec fn first_entry_section(
    sections: Seq<SectionCandidate>,
    entry: u64,
    executable_only: bool,
) -> Option<SectionCandidate>
    decreases sections.len(),
{
    if sections.len() == 0 {
        None
    } else if (!executable_only || sections[0].executable) && section_covers(sections[0], entry) {
        Some(sections[0])
    } else {
        first_entry_section(sections.drop_first(), entry, executable_only)
    }
}

/// The first `.text` section (that is executable, when `executable_only`).
pub open spec fn first_text_section(sections: Seq<SectionCandidate>, executable_only: bool) -> Option<
    SectionCandidate,
>
    decreases sections.len(),
{
    if sections.len() == 0 {
        None
    } else if is_text(sections[0]) && (!executable_only || sections[0].executable) {
        Some(sections[0])
    } else {
        first_text_section(sections.drop_first(), executable_only)
    }
}

/// The first executable segment.
pub open spec fn first_executable_segment(segments: Seq<SegmentCandidate>) -> Option<SegmentCandidate>
    decreases segments.len(),
{
    if segments.len() == 0 {
        None
    } else if segments[0].executable {
        Some(segments[0])
    } else {
        first_executable_segment(segments.drop_first())
    }
}

/// The address a section's code is read at: the image base plus the
/// section's file offset, wrapping past `u64::MAX`.
pub open spec fn section_address(image_base: u64, s: SectionCandidate) -> u64 {
    image_base.wrapping_add(s.file_offset as u64)
}

/// How far into a segment the entry point lies, or 0 when it lies outside.
pub open spec fn entry_offset_in(entry: u64, g: SegmentCandidate) -> usize {
    if entry >= g.virtual_address && (((entry - g.virtual_address) as u64) as usize)
        < g.file_size {
        ((entry - g.virtual_address) as u64) as usize
    } else {
        0
    }
}

/// The region the fallback disassembles: the executable section holding the
/// entry point, else any section holding it, else the executable `.text`,
/// else any `.text`, else the first executable segment.
pub open spec fn code_selection(
    entry: u64,
    image_base: u64,
    sections: Seq<SectionCandidate>,
    segments: Seq<SegmentCandidate>,
) -> Option<CodeSelection> {
    let by_entry = match first_entry_section(sections, entry, true) {
        Some(s) => Some(s),
        None => first_entry_section(sections, entry, false),
    };
    let by_name = match first_text_section(sections, true) {
        Some(s) => Some(s),
        None => first_text_section(sections, false),
    };
    match by_entry {
        Some(s) => Some(
            CodeSelection::EntrySection {
                file_offset: s.file_offset,
                size: s.size as usize,
                address: section_address(image_base, s),
            },
        ),
        None => match by_name {
            Some(s) => Some(
                CodeSelection::TextSection {
                    file_offset: s.file_offset,
                    size: s.size as usize,
                    address: section_address(image_base, s),
                },
            ),
            None => match first_executable_segment(segments) {
                Some(g) => Some(
                    CodeSelection::ExecutableSegment {
                        file_offset: g.file_offset,
                        size: g.file_size,
                        entry_offset: entry_offset_in(entry, g),
                        address: if entry >= g.virtual_address {
                            entry
                        } else {
                            g.virtual_address
                        },
                    },
                ),
                None => None,
            },
        },
    }
}

fn covers(s: &SectionCandidate, entry: u64) -> (r: bool)
    ensures
        r == section_covers(*s, entry),
{
    let end = s.address.saturating_add(s.size.saturating_sub(1));
    entry >= s.address && entry <= end
}

fn named_text(s: &SectionCandidate) -> (r: bool)
    ensures
        r == is_text(*s),
{
    match s.name {
        Some(n) => same_text(n, ".text"),
        None => false,
    }
}

fn find_entry_section(sections: &[SectionCandidate], entry: u64, executable_only: bool) -> (r:
    Option<SectionCandidate>)
    ensures
        r == first_entry_section(sections@, entry, executable_only),
{
    let mut i: usize = 0;
    proof {
        assert(sections@.skip(0) =~= sections@);
    }
    while i < sections.len()
        invariant
            0 <= i <= sections@.len(),
            first_entry_section(sections@, entry, executable_only) == first_entry_section(
                sections@.skip(i as int),
                entry,
                executable_only,
            ),
        decreases sections@.len() - i,
    {
        proof {
            assert(sections@.skip(i as int).drop_first() =~= sections@.skip(i + 1));
        }
        let s = sections[i];
        if (!executable_only || s.executable) && covers(&s, entry) {
            return Some(s);
        }
        i = i + 1;
    }
    None
}

fn find_text_section(sections: &[SectionCandidate], executable_only: bool) -> (r: Option<
    SectionCandidate,
>)
    ensures
        r == first_text_section(sections@, executable_only),
{
    let mut i: usize = 0;
    proof {
        assert(sections@.skip(0) =~= sections@);
    }
    while i < sections.len()
        invariant
            0 <= i <= sections@.len(),
            first_text_section(sections@, executable_only) == first_text_section(
                sections@.skip(i as int),
                executable_only,
            ),
        decreases sections@.len() - i,
    {
        proof {
            assert(sections@.skip(i as int).drop_first() =~= sections@.skip(i + 1));
        }
        let s = sections[i];
        if named_text(&s) && (!executable_only || s.executable) {
            return Some(s);
        }
        i = i + 1;
    }
    None
}

fn find_executable_segment(segments: &[SegmentCandidate]) -> (r: Option<SegmentCandidate>)
    ensures
        r == first_executable_segment(segments@),
{
    let mut i: usize = 0;
    proof {
        assert(segments@.skip(0) =~= segments@);
    }
    while i < segments.len()
        invariant
            0 <= i <= segments@.len(),
            first_executable_segment(segments@) == first_executable_segment(
                segments@.skip(i as int),
            ),
        decreases segments@.len() - i,
    {
        proof {
            assert(segments@.skip(i as int).drop_first() =~= segments@.skip(i + 1));
        }
        let g = segments[i];
        if g.executable {
            return Some(g);
        }
        i = i + 1;
    }
    None
}

/// Chooses the region to disassemble: the executable section holding the
/// entry point, else any section holding it, else the executable `.text`
/// section, else any `.text` section, else the first executable segment,
/// read from the entry point when it lies inside the segment.
pub fn select_code_region(
    entry: u64,
    image_base: u64,
    sections: &[SectionCandidate],
    segments: &[SegmentCandidate],
) -> (r: Option<CodeSelection>)
    ensures
        r == code_selection(entry, image_base, sections@, segments@),
{
    let by_entry = match find_entry_section(sections, entry, true) {
        Some(s) => Some(s),
        None => find_entry_section(sections, entry, false),
    };
    if let Some(s) = by_entry {
        return Some(
            CodeSelection::EntrySection {
                file_offset: s.file_offset,
                size: s.size as usize,
                address: image_base.wrapping_add(s.file_offset as u64),
            },
        );
    }
    let by_name = match find_text_section(sections, true) {
        Some(s) => Some(s),
        None => find_text_section(sections, false),
    };
    if let Some(s) = by_name {
        return Some(
            CodeSelection::TextSection {
                file_offset: s.file_offset,
                size: s.size as usize,
                address: image_base.wrapping_add(s.file_offset as u64),
            },
        );
    }
    match find_executable_segment(segments) {
        Some(g) => {
            let entry_offset: usize = if entry >= g.virtual_address && ((entry - g.virtual_address) as usize)
                < g.file_size {
                (entry - g.virtual_address) as usize
            } else {
                0
            };
            let address = if entry >= g.virtual_address {
                entry
            } else {
                g.virtual_address
            };
            Some(
                CodeSelection::ExecutableSegment {
                    file_offset: g.file_offset,
                    size: g.file_size,
                    entry_offset,
                    address,
                },
            )
        },
        None => None,
    }
}

/// The candidate a section header gives.
pub open spec fn section_candidate(s: SectionRecord) -> SectionCandidate {
    SectionCandidate {
        address: s.address,
        size: s.size,
        file_offset: s.offset as usize,
        name: if s.name matches Some(n) && n@ == ".text"@ {
            Some(".text")
        } else {
            None
        },
        executable: s.flags & SHF_EXECINSTR == SHF_EXECINSTR,
    }
}

/// The candidates of the sections of non-zero size, in order.
pub open spec fn section_candidates(sections: Seq<SectionRecord>) -> Seq<SectionCandidate>
    decreases sections.len(),
{
    if sections.len() == 0 {
        Seq::empty()
    } else {
        let prev = section_candidates(sections.drop_last());
        if sections.last().size > 0 {
            prev.push(section_candidate(sections.last()))
        } else {
            prev
        }
    }
}

/// The candidate a program header gives.
pub open spec fn segment_candidate(g: SegmentRecord) -> SegmentCandidate {
    SegmentCandidate {
        file_offset: g.offset as usize,
        file_size: g.file_size as usize,
        virtual_address: g.virtual_address,
        executable: g.flags & PF_X == PF_X,
    }
}

/// The candidates of the loadable segments, in order.
pub open spec fn segment_candidates(segments: Seq<SegmentRecord>) -> Seq<SegmentCandidate>
    decreases segments.len(),
{
    if segments.len() == 0 {
        Seq::empty()
    } else {
        let prev = segment_candidates(segments.drop_last());
        if segments.last().kind == PT_LOAD {
            prev.push(segment_candidate(segments.last()))
        } else {
            prev
        }
    }
}

/// The virtual address of the first loadable segment, or 0.
pub open spec fn image_base_of(segments: Seq<SegmentRecord>) -> u64
    decreases segments.len(),
{
    if segments.len() == 0 {
        0
    } else if segments[0].kind == PT_LOAD {
        segments[0].virtual_address
    } else {
        image_base_of(segments.drop_first())
    }
}

/// The region of an image that the fallback disassembles.
pub open spec fn image_selection(image: ElfImage) -> Option<CodeSelection> {
    code_selection(
        image.entry,
        image_base_of(image.segments@),
        section_candidates(image.sections@),
        segment_candidates(image.segments@),
    )
}

/// The code a selection yields in `bytes`, with the address of its first
/// byte: the selected range when it lies inside the file (read from the
/// entry offset in a segment, and empty when that offset lies past the
/// range), else the message naming the kind of region; a message too when
/// nothing was selected.
pub open spec fn selected_code(selection: Option<CodeSelection>, bytes: Seq<u8>) -> Result<
    (u64, Seq<u8>),
    Seq<char>,
> {
    match selection {
        None => Err("No executable code section found"@),
        Some(CodeSelection::EntrySection { file_offset, size, address }) => {
            let end = file_offset.saturating_add(size);
            if end <= bytes.len() {
                Ok((address, bytes.subrange(file_offset as int, end as int)))
            } else {
                Err("Section exceeds file bounds"@)
            }
        },
        Some(CodeSelection::TextSection { file_offset, size, address }) => {
            let end = file_offset.saturating_add(size);
            if end <= bytes.len() {
                Ok((address, bytes.subrange(file_offset as int, end as int)))
            } else {
                Err("Section exceeds file bounds"@)
            }
        },
        Some(CodeSelection::ExecutableSegment { file_offset, size, entry_offset, address }) => {
            let end = file_offset.saturating_add(size);
            if end <= bytes.len() {
                Ok(
                    (
                        address,
                        if entry_offset <= end - file_offset {
                            bytes.subrange(file_offset + entry_offset, end as int)
                        } else {
                            Seq::empty()
                        },
                    ),
                )
            } else {
                Err("Segment exceeds file bounds"@)
            }
        },
    }
}

/// A code context answers a selection in `bytes`: the selected code, or
/// the message as an error.
pub open spec fn code_context_answer(
    selection: Option<CodeSelection>,
    bytes: Seq<u8>,
    r: Result<CodeContext, TelfhashError>,
) -> bool {
    match selected_code(selection, bytes) {
        Ok((address, code)) => r matches Ok(c) && c.address == address && c.bytes@ == code,
        Err(m) => r matches Err(TelfhashError::Message(x)) && x@ == m,
    }
}

/// The bytes `bytes[from..to]`.
fn copy_range(bytes: &[u8], from: usize, to: usize) -> (r: Vec<u8>)
    requires
        from <= to <= bytes@.len(),
    ensures
        r@ == bytes@.subrange(from as int, to as int),
{
    let mut out: Vec<u8> = Vec::new();
    let mut i = from;
    while i < to
        invariant
            from <= i <= to <= bytes@.len(),
            out@ == bytes@.subrange(from as int, i as int),
        decreases to - i,
    {
        out.push(bytes[i]);
        proof {
            assert(bytes@.subrange(from as int, i + 1) =~= bytes@.subrange(from as int, i as int).push(
                bytes@[i as int],
            ));
        }
        i = i + 1;
    }
    out
}

fn candidates_of_sections(sections: &Vec<SectionRecord>) -> (r: Vec<SectionCandidate>)
    ensures
        r@ == section_candidates(sections@),
{
    let mut out: Vec<SectionCandidate> = Vec::new();
    for i in 0..sections.len()
        invariant
            out@ == section_candidates(sections@.take(i as int)),
    {
        let s = &sections[i];
        proof {
            assert(sections@.take(i + 1).drop_last() =~= sections@.take(i as int));
            assert(sections@.take(i + 1).last() == sections@[i as int]);
        }
        if s.size > 0 {
            let is_text_name = match &s.name {
                Some(n) => same_text(n.as_str(), ".text"),
                None => false,
            };
            let name: Option<&'static str> = if is_text_name {
                Some(".text")
            } else {
                None
            };
            out.push(
                SectionCandidate {
                    address: s.address,
                    size: s.size,
                    file_offset: s.offset as usize,
                    name,
                    executable: s.flags & SHF_EXECINSTR == SHF_EXECINSTR,
                },
            );
        }
    }
    proof {
        assert(sections@.take(sections@.len() as int) =~= sections@);
    }
    out
}

fn candidates_of_segments(segments: &Vec<SegmentRecord>) -> (r: Vec<SegmentCandidate>)
    ensures
        r@ == segment_candidates(segments@),
{
    let mut out: Vec<SegmentCandidate> = Vec::new();
    for i in 0..segments.len()
        invariant
            out@ == segment_candidates(segments@.take(i as int)),
    {
        let g = &segments[i];
        proof {
            assert(segments@.take(i + 1).drop_last() =~= segments@.take(i as int));
            assert(segments@.take(i + 1).last() == segments@[i as int]);
        }
        if g.kind == PT_LOAD {
            out.push(
                SegmentCandidate {
                    file_offset: g.offset as usize,
                    file_size: g.file_size as usize,
                    virtual_address: g.virtual_address,
                    executable: g.flags & PF_X == PF_X,
                },
            );
        }
    }
    proof {
        assert(segments@.take(segments@.len() as int) =~= segments@);
    }
    out
}

/// The virtual address of the first loadable segment, or 0.
pub fn image_base(segments: &Vec<SegmentRecord>) -> (r: u64)
    ensures
        r == image_base_of(segments@),
{
    let mut i: usize = 0;
    proof {
        assert(segments@.skip(0) =~= segments@);
    }
    while i < segments.len()
        invariant
            0 <= i <= segments@.len(),
            image_base_of(segments@) == image_base_of(segments@.skip(i as int)),
        decreases segments@.len() - i,
    {
        proof {
            assert(segments@.skip(i as int).drop_first() =~= segments@.skip(i + 1));
        }
        if segments[i].kind == PT_LOAD {
            return segments[i].virtual_address;
        }
        i = i + 1;
    }
    0
}

/// The code of an image to disassemble, read from `bytes`, the file the
/// image was read from.
pub fn find_code_context(image: &ElfImage, bytes: &[u8]) -> (r: Result<CodeContext, TelfhashError>)
    ensures
        code_context_answer(image_selection(*image), bytes@, r),
{
    let base = image_base(&image.segments);
    let sections = candidates_of_sections(&image.sections);
    let segments = candidates_of_segments(&image.segments);
    match select_code_region(image.entry, base, sections.as_slice(), segments.as_slice()) {
        None => Err(TelfhashError::Message(String::from_str("No executable code section found"))),
        Some(CodeSelection::EntrySection { file_offset, size, address }) | Some(
            CodeSelection::TextSection { file_offset, size, address },
        ) => {
            let end = file_offset.saturating_add(size);
            if end > bytes.len() {
                return Err(TelfhashError::Message(String::from_str("Section exceeds file bounds")));
            }
            Ok(CodeContext { address, bytes: copy_range(bytes, file_offset, end) })
        },
        Some(CodeSelection::ExecutableSegment { file_offset, size, entry_offset, address }) => {
            let end = file_offset.saturating_add(size);
            if end > bytes.len() {
                return Err(TelfhashError::Message(String::from_str("Segment exceeds file bounds")));
            }
            let code = if entry_offset <= end - file_offset {
                copy_range(bytes, file_offset + entry_offset, end)
            } else {
                Vec::new()
            };
            Ok(CodeContext { address, bytes: code })
        },
    }
}

} // verus!
