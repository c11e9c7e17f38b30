//! ELF32 program headers and the logic that classifies their segments
//! against a device's address ranges.

use vstd::prelude::*;
use vstd::pervasive::VecAdditionalExecFns;

use crate::address_range::{AddressRange, AddressRangeType};
use crate::page_fragment::{spec_fragment_wf, PageFragment};
use crate::page_map::{
    lemma_add_fragment_keys_below, lemma_add_fragment_wf, spec_keys_below, spec_page_map_wf,
    spec_seq_add_fragment, PageMap,
};

verus! {

/// Program-header type tag of a loadable segment.
pub const PT_LOAD: u32 = 1;

pub const LOG2_PAGE_SIZE: u64 = 8;

pub const PAGE_SIZE: u64 = 256;

/// One ELF program-header entry, reduced to the fields the conversion
/// consults. All values are parsed from 32-bit fields, so a well-formed
/// segment never exceeds `u32::MAX` in any field.
#[derive(Copy, Clone, Debug, Eq, PartialEq, Structural)]
pub struct Segment {
    /// Program-header type (`PT_LOAD` participates, everything else is skipped).
    pub kind: u32,
    /// Offset of the segment's contents in the ELF file.
    pub file_offset: u64,
    /// Link-time virtual address.
    pub vaddr: u64,
    /// Physical load address.
    pub paddr: u64,
    /// Number of content bytes present in the file.
    pub file_size: u64,
    /// Size of the segment in memory (`>= file_size`; the tail is zero-fill).
    pub mem_size: u64,
}

/// Every field of the segment fits in 32 bits, as ELF32 guarantees.
pub open spec fn spec_segment_wf(s: Segment) -> bool {
    &&& s.file_offset <= u32::MAX
    &&& s.vaddr <= u32::MAX
    &&& s.paddr <= u32::MAX
    &&& s.file_size <= u32::MAX
    &&& s.mem_size <= u32::MAX
}

pub open spec fn spec_segments_wf(segs: Seq<Segment>) -> bool {
    forall|i: int| 0 <= i < segs.len() ==> spec_segment_wf(#[trigger] segs[i])
}

/// Structural failures of reading an ELF32 image.
#[derive(Copy, Clone, Debug, Eq, PartialEq, Structural)]
pub enum ElfParseError {
    /// The file ends before the header or the program headers do
    Truncated,
    /// The file does not start with the ELF magic
    BadMagic,
    /// Not a 32-bit object
    UnsupportedClass,
    /// Not a little-endian object
    UnsupportedEndianness,
    /// Not an ARM or RISC-V object
    UnsupportedMachine,
    /// Program-header entries do not have the ELF32 size
    BadProgramHeaderSize,
}

/// Failures of classifying segments against a device's address ranges.
#[derive(Copy, Clone, Debug, Eq, PartialEq, Structural)]
pub enum AddressRangesFromElfError {
    /// No segments in ELF
    NoSegments,
    /// In-memory segments overlap
    SegmentsOverlap,
    /// ELF contains memory contents for uninitialized memory (at the given address)
    ContentsForUninitializedMemory(u64),
    /// Memory segment (given by its bounds) is outside of valid address range for device
    SegmentInvalidForDevice(u64, u64),
}

pub open spec fn spec_range_covers_addr(r: AddressRange, addr: u64) -> bool {
    r.from <= addr < r.to
}

/// First range at index `i` or later that covers the single address `addr`.
pub open spec fn spec_range_for_from(
    ranges: Seq<AddressRange>,
    addr: u64,
    i: int,
) -> Option<AddressRange>
    decreases ranges.len() - i,
{
    if i < 0 || i >= ranges.len() {
        None
    } else if spec_range_covers_addr(ranges[i], addr) {
        Some(ranges[i])
    } else {
        spec_range_for_from(ranges, addr, i + 1)
    }
}

/// First range in table order that covers the single address `addr`.
pub open spec fn spec_range_for(ranges: Seq<AddressRange>, addr: u64) -> Option<AddressRange> {
    spec_range_for_from(ranges, addr, 0)
}

/// Whether some range covers `addr` and that range may carry contents.
pub open spec fn spec_is_address_initialized(ranges: Seq<AddressRange>, addr: u64) -> bool {
    match spec_range_for(ranges, addr) {
        Some(r) => r.typ == AddressRangeType::Contents,
        None => false,
    }
}

/// First range at index `i` or later that fully contains `[addr, addr + size)`.
pub open spec fn spec_covering_range_from(
    ranges: Seq<AddressRange>,
    addr: u64,
    size: u64,
    i: int,
) -> Option<AddressRange>
    decreases ranges.len() - i,
{
    if i < 0 || i >= ranges.len() {
        None
    } else if ranges[i].from <= addr && ranges[i].to >= addr + size {
        Some(ranges[i])
    } else {
        spec_covering_range_from(ranges, addr, size, i + 1)
    }
}

/// What `check_address_range` returns: the first range fully containing the
/// candidate interval, an error if that range must stay uninitialized while
/// the caller asserts contents, or an error if no range contains it.
pub open spec fn spec_check_address_range(
    ranges: Seq<AddressRange>,
    addr: u64,
    size: u64,
    uninitialized: bool,
) -> Result<AddressRange, AddressRangesFromElfError> {
    match spec_covering_range_from(ranges, addr, size, 0) {
        Some(r) => if r.typ == AddressRangeType::NoContents && !uninitialized {
            Err(AddressRangesFromElfError::ContentsForUninitializedMemory(addr))
        } else {
            Ok(r)
        },
        None => Err(
            AddressRangesFromElfError::SegmentInvalidForDevice(addr, ((addr + size) as u64)),
        ),
    }
}

/// Range-classifier operations over an ordered table of address ranges.
pub trait AddressRangesExt: View<V = Seq<AddressRange>> {
    /// First range in table order covering the single address `addr`.
    fn range_for(&self, addr: u64) -> (r: Option<AddressRange>)
        ensures
            r == spec_range_for(self@, addr),
    ;

    /// True iff some range covers `addr` and its kind is `Contents`.
    fn is_address_initialized(&self, addr: u64) -> (r: bool)
        ensures
            r == spec_is_address_initialized(self@, addr),
    ;

    /// Finds the first range fully containing `[addr, addr + size)` and
    /// enforces the contents policy. `vaddr` only describes the segment's
    /// link-time address for diagnostics and does not affect the result.
    fn check_address_range(&self, addr: u64, vaddr: u64, size: u64, uninitialized: bool) -> (r:
        Result<AddressRange, AddressRangesFromElfError>)
        requires
            addr + size <= u64::MAX,
        ensures
            r == spec_check_address_range(self@, addr, size, uninitialized),
    ;

    /// Builds the page map of the ELF's loadable segments against this
    /// range table, with the standard page size.
    fn check_elf32_ph_entries(&self, segments: &Vec<Segment>) -> (r: Result<
        PageMap,
        AddressRangesFromElfError,
    >)
        requires
            spec_segments_wf(segments@),
        ensures
            match spec_page_fragments(segments@, self@, PAGE_SIZE) {
                Ok(m) => r matches Ok(pm) && pm@ == m && spec_page_map_wf(pm@, PAGE_SIZE) && (
                forall|b: u64|
                    #[trigger] spec_ranges_all_to_below(self@, b) ==> spec_keys_below(pm@, b)),
                Err(e) => r matches Err(e2) && e2 == e,
            },
    ;
}

impl AddressRangesExt for Vec<AddressRange> {
    fn range_for(&self, addr: u64) -> (r: Option<AddressRange>) {
        let mut i: usize = 0;
        while i < self.len()
            invariant
                0 <= i <= self@.len(),
                spec_range_for(self@, addr) == spec_range_for_from(self@, addr, i as int),
            decreases self@.len() - i,
        {
            let r = self[i];
            if r.from <= addr && addr < r.to {
                return Some(r);
            }
            i = i + 1;
        }
        None
    }

    fn is_address_initialized(&self, addr: u64) -> (r: bool) {
        match self.range_for(addr) {
            Some(range) => match range.typ {
                AddressRangeType::Contents => true,
                _ => false,
            },
            None => false,
        }
    }

    fn check_address_range(&self, addr: u64, vaddr: u64, size: u64, uninitialized: bool) -> (r:
        Result<AddressRange, AddressRangesFromElfError>) {
        let _ = vaddr;
        let mut i: usize = 0;
        while i < self.len()
            invariant
                0 <= i <= self@.len(),
                addr + size <= u64::MAX,
                spec_covering_range_from(self@, addr, size, 0) == spec_covering_range_from(
                    self@,
                    addr,
                    size,
                    i as int,
                ),
            decreases self@.len() - i,
        {
            let range = self[i];
            if range.from <= addr && range.to >= addr + size {
                if matches!(range.typ, AddressRangeType::NoContents) && !uninitialized {
                    return Err(AddressRangesFromElfError::ContentsForUninitializedMemory(addr));
                }
                return Ok(range);
            }
            i = i + 1;
        }
        Err(AddressRangesFromElfError::SegmentInvalidForDevice(addr, addr + size))
    }

    fn check_elf32_ph_entries(&self, segments: &Vec<Segment>) -> (r: Result<
        PageMap,
        AddressRangesFromElfError,
    >) {
        get_page_fragments(segments, self, PAGE_SIZE)
    }
}

/// The mapped (initialized) size of a segment.
pub open spec fn spec_mapped_size(s: Segment) -> u64 {
    if s.file_size < s.mem_size {
        s.file_size
    } else {
        s.mem_size
    }
}

/// The binary-type decision, scanning segments from index `i`: the first
/// loadable, non-empty segment whose mapped span contains the entry point is
/// authoritative. The entry point is back-translated to its physical address;
/// `Some(true)` means RAM-style, `Some(false)` Flash-style, `None` that the
/// entry point is not mapped.
pub open spec fn spec_is_ram_binary_from(
    entry: u64,
    segs: Seq<Segment>,
    ram_ranges: Seq<AddressRange>,
    flash_ranges: Seq<AddressRange>,
    i: int,
) -> Option<bool>
    decreases segs.len() - i,
{
    if i < 0 || i >= segs.len() {
        None
    } else {
        let s = segs[i];
        if s.kind == PT_LOAD && s.mem_size > 0 && spec_mapped_size(s) > 0 && s.vaddr <= entry
            && entry < s.vaddr + spec_mapped_size(s) {
            let effective_entry = ((entry + s.paddr - s.vaddr) as u64);
            if spec_is_address_initialized(ram_ranges, effective_entry) {
                Some(true)
            } else if spec_is_address_initialized(flash_ranges, effective_entry) {
                Some(false)
            } else {
                None
            }
        } else {
            spec_is_ram_binary_from(entry, segs, ram_ranges, flash_ranges, i + 1)
        }
    }
}

/// Every range in the table ends at or below `bound`.
pub open spec fn spec_ranges_all_to_below(ranges: Seq<AddressRange>, bound: u64) -> bool {
    forall|k: int| 0 <= k < ranges.len() ==> (#[trigger] ranges[k]).to <= bound
}

/// A covering range returned by the classifier is one of the table's
/// entries.
pub proof fn lemma_covering_range_mem(ranges: Seq<AddressRange>, addr: u64, size: u64, i: int)
    requires
        spec_covering_range_from(ranges, addr, size, i) is Some,
    ensures
        exists|k: int|
            0 <= k < ranges.len() && #[trigger] ranges[k] == spec_covering_range_from(
                ranges,
                addr,
                size,
                i,
            ).unwrap(),
        spec_covering_range_from(ranges, addr, size, i).unwrap().from <= addr,
        spec_covering_range_from(ranges, addr, size, i).unwrap().to >= addr + size,
    decreases ranges.len() - i,
{
    if i < 0 || i >= ranges.len() {
    } else if ranges[i].from <= addr && ranges[i].to >= addr + size {
        assert(ranges[i] == spec_covering_range_from(ranges, addr, size, i).unwrap());
    } else {
        lemma_covering_range_mem(ranges, addr, size, i + 1);
    }
}

pub open spec fn spec_is_ram_binary(
    entry: u64,
    segs: Seq<Segment>,
    ram_ranges: Seq<AddressRange>,
    flash_ranges: Seq<AddressRange>,
) -> Option<bool> {
    spec_is_ram_binary_from(entry, segs, ram_ranges, flash_ranges, 0)
}

/// Decides whether the image is RAM-style (`Some(true)`) or Flash-style
/// (`Some(false)`) from where its entry point is loaded, or `None` when the
/// entry point lies in no mapped part of the file.
pub fn is_ram_binary(
    entry: u64,
    segments: &Vec<Segment>,
    ram_ranges: &Vec<AddressRange>,
    flash_ranges: &Vec<AddressRange>,
) -> (r: Option<bool>)
    requires
        entry <= u32::MAX,
        spec_segments_wf(segments@),
    ensures
        r == spec_is_ram_binary(entry, segments@, ram_ranges@, flash_ranges@),
{
    let mut i: usize = 0;
    while i < segments.len()
        invariant
            0 <= i <= segments@.len(),
            entry <= u32::MAX,
            spec_segments_wf(segments@),
            spec_is_ram_binary(entry, segments@, ram_ranges@, flash_ranges@)
                == spec_is_ram_binary_from(entry, segments@, ram_ranges@, flash_ranges@, i as int),
        decreases segments@.len() - i,
    {
        let s = segments[i];
        if s.kind == PT_LOAD && s.mem_size > 0 {
            let mapped_size = if s.file_size < s.mem_size {
                s.file_size
            } else {
                s.mem_size
            };
            if mapped_size > 0 && s.vaddr <= entry && entry < s.vaddr + mapped_size {
                // back-translate the entry point from its virtual address to
                // the physical address it is loaded from
                let effective_entry = entry + s.paddr - s.vaddr;
                if ram_ranges.is_address_initialized(effective_entry) {
                    return Some(true);
                } else if flash_ranges.is_address_initialized(effective_entry) {
                    return Some(false);
                } else {
                    return None;
                }
            }
        }
        i = i + 1;
    }
    None
}

/// Splits one segment's mapped bytes `[addr, addr + remaining)` into
/// page-aligned runs and queues each as a fragment, failing on a collision
/// with a fragment already queued.
pub open spec fn spec_add_segment_runs(
    v: Seq<(u64, Seq<PageFragment>)>,
    addr: u64,
    file_offset: u64,
    remaining: u64,
    page_size: u64,
) -> Option<Seq<(u64, Seq<PageFragment>)>>
    decreases remaining,
{
    if page_size == 0 || remaining == 0 {
        Some(v)
    } else {
        let off = addr as int % page_size as int;
        let len = if remaining as int <= page_size as int - off {
            remaining as int
        } else {
            page_size as int - off
        };
        let base = addr as int - off;
        let frag = PageFragment {
            file_offset,
            page_offset: off as u64,
            bytes: len as u64,
        };
        match spec_seq_add_fragment(v, base as u64, frag) {
            None => None,
            Some(v2) => spec_add_segment_runs(
                v2,
                ((addr + len) as u64),
                ((file_offset + len) as u64),
                ((remaining - len) as u64),
                page_size,
            ),
        }
    }
}

/// The page map after classifying and fragmenting the segments from index
/// `i` on, starting from the partial map `v`: loadable, non-empty segments
/// with mapped bytes are validated against the ranges and split into page
/// fragments; a segment mapped onto a non-`Contents` range contributes
/// nothing; a zero-fill tail is validated as uninitialized memory.
pub open spec fn spec_page_fragments_from(
    segs: Seq<Segment>,
    ranges: Seq<AddressRange>,
    page_size: u64,
    v: Seq<(u64, Seq<PageFragment>)>,
    i: int,
) -> Result<Seq<(u64, Seq<PageFragment>)>, AddressRangesFromElfError>
    decreases segs.len() - i,
{
    if i < 0 || i >= segs.len() {
        Ok(v)
    } else {
        let s = segs[i];
        if s.kind != PT_LOAD || s.mem_size == 0 {
            spec_page_fragments_from(segs, ranges, page_size, v, i + 1)
        } else if spec_mapped_size(s) > 0 {
            match spec_check_address_range(ranges, s.paddr, spec_mapped_size(s), false) {
                Err(e) => Err(e),
                Ok(ar) => if ar.typ != AddressRangeType::Contents {
                    spec_page_fragments_from(segs, ranges, page_size, v, i + 1)
                } else {
                    match spec_add_segment_runs(
                        v,
                        s.paddr,
                        s.file_offset,
                        spec_mapped_size(s),
                        page_size,
                    ) {
                        None => Err(AddressRangesFromElfError::SegmentsOverlap),
                        Some(v2) => if s.mem_size > s.file_size {
                            match spec_check_address_range(
                                ranges,
                                ((s.paddr + s.file_size) as u64),
                                ((s.mem_size - s.file_size) as u64),
                                true,
                            ) {
                                Err(e) => Err(e),
                                Ok(_) => spec_page_fragments_from(segs, ranges, page_size, v2, i + 1),
                            }
                        } else {
                            spec_page_fragments_from(segs, ranges, page_size, v2, i + 1)
                        },
                    }
                },
            }
        } else if s.mem_size > s.file_size {
            match spec_check_address_range(
                ranges,
                ((s.paddr + s.file_size) as u64),
                ((s.mem_size - s.file_size) as u64),
                true,
            ) {
                Err(e) => Err(e),
                Ok(_) => spec_page_fragments_from(segs, ranges, page_size, v, i + 1),
            }
        } else {
            spec_page_fragments_from(segs, ranges, page_size, v, i + 1)
        }
    }
}

/// The page map built from all segments, starting empty.
pub open spec fn spec_page_fragments(
    segs: Seq<Segment>,
    ranges: Seq<AddressRange>,
    page_size: u64,
) -> Result<Seq<(u64, Seq<PageFragment>)>, AddressRangesFromElfError> {
    spec_page_fragments_from(segs, ranges, page_size, Seq::empty(), 0)
}

proof fn lemma_add_segment_runs_wf(
    v: Seq<(u64, Seq<PageFragment>)>,
    addr: u64,
    file_offset: u64,
    remaining: u64,
    page_size: u64,
)
    requires
        spec_page_map_wf(v, page_size),
        0 < page_size,
        addr + remaining <= u64::MAX,
        file_offset + remaining <= u64::MAX,
    ensures
        spec_add_segment_runs(v, addr, file_offset, remaining, page_size) matches Some(v2)
            ==> spec_page_map_wf(v2, page_size),
    decreases remaining,
{
    if remaining == 0 {
    } else {
        let off = addr as int % page_size as int;
        let len = if remaining as int <= page_size as int - off {
            remaining as int
        } else {
            page_size as int - off
        };
        let base = addr as int - off;
        let frag = PageFragment {
            file_offset,
            page_offset: off as u64,
            bytes: len as u64,
        };
        let q = addr as int / page_size as int;
        vstd::arithmetic::div_mod::lemma_fundamental_div_mod(addr as int, page_size as int);
        assert(base == page_size as int * q);
        assert(page_size as int * q == q * page_size as int) by (nonlinear_arith);
        vstd::arithmetic::div_mod::lemma_mod_multiples_basic(q, page_size as int);
        assert(base % page_size as int == 0);
        match spec_seq_add_fragment(v, base as u64, frag) {
            None => {},
            Some(v2) => {
                crate::page_map::lemma_add_fragment_wf(v, base as u64, frag, page_size);
                lemma_add_segment_runs_wf(
                    v2,
                    ((addr + len) as u64),
                    ((file_offset + len) as u64),
                    ((remaining - len) as u64),
                    page_size,
                );
            },
        }
    }
}

proof fn lemma_page_fragments_from_wf(
    segs: Seq<Segment>,
    ranges: Seq<AddressRange>,
    page_size: u64,
    v: Seq<(u64, Seq<PageFragment>)>,
    i: int,
)
    requires
        spec_page_map_wf(v, page_size),
        spec_segments_wf(segs),
        0 < page_size,
    ensures
        spec_page_fragments_from(segs, ranges, page_size, v, i) matches Ok(m)
            ==> spec_page_map_wf(m, page_size),
    decreases segs.len() - i,
{
    if i < 0 || i >= segs.len() {
    } else {
        let s = segs[i];
        if s.kind != PT_LOAD || s.mem_size == 0 {
            lemma_page_fragments_from_wf(segs, ranges, page_size, v, i + 1);
        } else if spec_mapped_size(s) > 0 {
            match spec_check_address_range(ranges, s.paddr, spec_mapped_size(s), false) {
                Err(_) => {},
                Ok(ar) => {
                    if ar.typ != AddressRangeType::Contents {
                        lemma_page_fragments_from_wf(segs, ranges, page_size, v, i + 1);
                    } else {
                        assert(spec_segment_wf(s));
                        lemma_add_segment_runs_wf(
                            v,
                            s.paddr,
                            s.file_offset,
                            spec_mapped_size(s),
                            page_size,
                        );
                        match spec_add_segment_runs(
                            v,
                            s.paddr,
                            s.file_offset,
                            spec_mapped_size(s),
                            page_size,
                        ) {
                            None => {},
                            Some(v2) => {
                                lemma_page_fragments_from_wf(segs, ranges, page_size, v2, i + 1);
                            },
                        }
                    }
                },
            }
        } else {
            lemma_page_fragments_from_wf(segs, ranges, page_size, v, i + 1);
        }
    }
}

proof fn lemma_add_segment_runs_keys_below(
    v: Seq<(u64, Seq<PageFragment>)>,
    addr: u64,
    file_offset: u64,
    remaining: u64,
    page_size: u64,
    bound: u64,
)
    requires
        spec_keys_below(v, bound),
        0 < page_size,
        addr + remaining <= bound,
    ensures
        spec_add_segment_runs(v, addr, file_offset, remaining, page_size) matches Some(v2)
            ==> spec_keys_below(v2, bound),
    decreases remaining,
{
    if remaining == 0 {
    } else {
        let off = addr as int % page_size as int;
        let len = if remaining as int <= page_size as int - off {
            remaining as int
        } else {
            page_size as int - off
        };
        let base = addr as int - off;
        let frag = PageFragment {
            file_offset,
            page_offset: off as u64,
            bytes: len as u64,
        };
        vstd::arithmetic::div_mod::lemma_fundamental_div_mod(addr as int, page_size as int);
        vstd::arithmetic::div_mod::lemma_div_pos_is_pos(addr as int, page_size as int);
        assert(page_size as int * (addr as int / page_size as int) >= 0) by (nonlinear_arith)
            requires
                addr as int / page_size as int >= 0,
                page_size as int > 0,
        ;
        assert(0 <= base <= addr);
        match spec_seq_add_fragment(v, base as u64, frag) {
            None => {},
            Some(v2) => {
                crate::page_map::lemma_add_fragment_keys_below(v, base as u64, frag, bound);
                lemma_add_segment_runs_keys_below(
                    v2,
                    ((addr + len) as u64),
                    ((file_offset + len) as u64),
                    ((remaining - len) as u64),
                    page_size,
                    bound,
                );
            },
        }
    }
}

proof fn lemma_page_fragments_from_keys_below(
    segs: Seq<Segment>,
    ranges: Seq<AddressRange>,
    page_size: u64,
    v: Seq<(u64, Seq<PageFragment>)>,
    i: int,
    bound: u64,
)
    requires
        spec_keys_below(v, bound),
        spec_segments_wf(segs),
        spec_ranges_all_to_below(ranges, bound),
        0 < page_size,
    ensures
        spec_page_fragments_from(segs, ranges, page_size, v, i) matches Ok(m) ==> spec_keys_below(
            m,
            bound,
        ),
    decreases segs.len() - i,
{
    if i < 0 || i >= segs.len() {
    } else {
        let s = segs[i];
        if s.kind != PT_LOAD || s.mem_size == 0 {
            lemma_page_fragments_from_keys_below(segs, ranges, page_size, v, i + 1, bound);
        } else if spec_mapped_size(s) > 0 {
            match spec_check_address_range(ranges, s.paddr, spec_mapped_size(s), false) {
                Err(_) => {},
                Ok(ar) => {
                    if ar.typ != AddressRangeType::Contents {
                        lemma_page_fragments_from_keys_below(
                            segs,
                            ranges,
                            page_size,
                            v,
                            i + 1,
                            bound,
                        );
                    } else {
                        assert(spec_segment_wf(s));
                        lemma_covering_range_mem(ranges, s.paddr, spec_mapped_size(s), 0);
                        let k0 = choose|k: int|
                            0 <= k < ranges.len() && #[trigger] ranges[k] == ar;
                        assert(ranges[k0].to <= bound);
                        lemma_add_segment_runs_keys_below(
                            v,
                            s.paddr,
                            s.file_offset,
                            spec_mapped_size(s),
                            page_size,
                            bound,
                        );
                        match spec_add_segment_runs(
                            v,
                            s.paddr,
                            s.file_offset,
                            spec_mapped_size(s),
                            page_size,
                        ) {
                            None => {},
                            Some(v2) => {
                                lemma_page_fragments_from_keys_below(
                                    segs,
                                    ranges,
                                    page_size,
                                    v2,
                                    i + 1,
                                    bound,
                                );
                            },
                        }
                    }
                },
            }
        } else {
            lemma_page_fragments_from_keys_below(segs, ranges, page_size, v, i + 1, bound);
        }
    }
}

/// Whenever the fragmenter succeeds, every page address stays below any
/// bound that every range of the table ends at or below.
pub proof fn lemma_fragmenter_keys_below(
    segs: Seq<Segment>,
    ranges: Seq<AddressRange>,
    page_size: u64,
    bound: u64,
)
    requires
        spec_segments_wf(segs),
        spec_ranges_all_to_below(ranges, bound),
        0 < page_size,
    ensures
        spec_page_fragments(segs, ranges, page_size) matches Ok(m) ==> spec_keys_below(m, bound),
{
    lemma_page_fragments_from_keys_below(segs, ranges, page_size, Seq::empty(), 0, bound);
}

/// The overlap invariant of the fragmenter: whenever it succeeds, the page
/// map is well-formed, so the pages stand in ascending order, every
/// fragment lies inside its page, and the fragments of each page occupy
/// pairwise disjoint intervals.
pub proof fn lemma_fragmenter_overlap_invariant(
    segs: Seq<Segment>,
    ranges: Seq<AddressRange>,
    page_size: u64,
)
    requires
        spec_segments_wf(segs),
        0 < page_size,
    ensures
        spec_page_fragments(segs, ranges, page_size) matches Ok(m) ==> spec_page_map_wf(
            m,
            page_size,
        ),
{
    lemma_page_fragments_from_wf(segs, ranges, page_size, Seq::empty(), 0);
}

/// Walks all loadable segments, validates each against the range table, and
/// builds the page-indexed fragment map, detecting overlapping writes.
#[verifier::loop_isolation(false)]
pub fn get_page_fragments(
    segments: &Vec<Segment>,
    ranges: &Vec<AddressRange>,
    page_size: u64,
) -> (r: Result<PageMap, AddressRangesFromElfError>)
    requires
        spec_segments_wf(segments@),
        0 < page_size,
    ensures
        match spec_page_fragments(segments@, ranges@, page_size) {
            Ok(m) => r matches Ok(pm) && pm@ == m && spec_page_map_wf(pm@, page_size) && (forall|
                b: u64,
            |
                #[trigger] spec_ranges_all_to_below(ranges@, b) ==> spec_keys_below(pm@, b)),
            Err(e) => r matches Err(e2) && e2 == e,
        },
{
    let mut pages = PageMap::new();
    let mut i: usize = 0;
    while i < segments.len()
        invariant
            0 <= i <= segments@.len(),
            spec_page_fragments(segments@, ranges@, page_size) == spec_page_fragments_from(
                segments@,
                ranges@,
                page_size,
                pages@,
                i as int,
            ),
            spec_page_map_wf(pages@, page_size),
            forall|b: u64|
                #[trigger] spec_ranges_all_to_below(ranges@, b) ==> spec_keys_below(pages@, b),
        decreases segments@.len() - i,
    {
        let s = segments[i];
        if s.kind == PT_LOAD && s.mem_size > 0 {
            let mapped_size = if s.file_size < s.mem_size {
                s.file_size
            } else {
                s.mem_size
            };
            if mapped_size > 0 {
                let ar = match ranges.check_address_range(s.paddr, s.vaddr, mapped_size, false) {
                    Ok(ar) => ar,
                    Err(e) => {
                        return Err(e);
                    },
                };
                if matches!(ar.typ, AddressRangeType::Contents) {
                    let ghost v0 = pages@;
                    let mut addr = s.paddr;
                    let mut remaining = mapped_size;
                    let mut file_offset = s.file_offset;
                    proof {
                        lemma_covering_range_mem(ranges@, s.paddr, mapped_size, 0);
                    }
                    while remaining > 0
                        invariant
                            addr + remaining == s.paddr + mapped_size,
                            file_offset + remaining == s.file_offset + mapped_size,
                            spec_add_segment_runs(v0, s.paddr, s.file_offset, mapped_size, page_size)
                                == spec_add_segment_runs(
                                pages@,
                                addr,
                                file_offset,
                                remaining,
                                page_size,
                            ),
                            spec_page_map_wf(pages@, page_size),
                            forall|b: u64|
                                #[trigger] spec_ranges_all_to_below(ranges@, b)
                                    ==> spec_keys_below(pages@, b),
                        decreases remaining,
                    {
                        let off = addr % page_size;
                        let len = if remaining < page_size - off {
                            remaining
                        } else {
                            page_size - off
                        };
                        proof {
                            assert(addr % page_size <= addr) by (nonlinear_arith)
                                requires
                                    page_size > 0,
                            ;
                        }
                        let base = addr - off;
                        let frag = PageFragment::new(file_offset, off, len);
                        let ghost prev = pages@;
                        match pages.add_fragment(base, frag) {
                            Ok(()) => {},
                            Err(e) => {
                                return Err(e);
                            },
                        }
                        proof {
                            assert(base % page_size == 0) by (nonlinear_arith)
                                requires
                                    page_size > 0,
                                    off == addr % page_size,
                                    base == addr - off,
                            ;
                            lemma_add_fragment_wf(prev, base, frag, page_size);
                            assert forall|b: u64|
                                #[trigger] spec_ranges_all_to_below(ranges@, b) implies
                                spec_keys_below(pages@, b) by {
                                let k0 = choose|k: int|
                                    0 <= k < ranges@.len() && #[trigger] ranges@[k] == ar;
                                assert(ranges@[k0].to <= b);
                                assert(base <= addr < addr + remaining <= ar.to);
                                lemma_add_fragment_keys_below(prev, base, frag, b);
                            }
                        }
                        addr = addr + len;
                        file_offset = file_offset + len;
                        remaining = remaining - len;
                    }
                    if s.mem_size > s.file_size {
                        match ranges.check_address_range(
                            s.paddr + s.file_size,
                            s.vaddr + s.file_size,
                            s.mem_size - s.file_size,
                            true,
                        ) {
                            Ok(_) => {},
                            Err(e) => {
                                return Err(e);
                            },
                        }
                    }
                }
            } else {
                if s.mem_size > s.file_size {
                    match ranges.check_address_range(
                        s.paddr + s.file_size,
                        s.vaddr + s.file_size,
                        s.mem_size - s.file_size,
                        true,
                    ) {
                        Ok(_) => {},
                        Err(e) => {
                            return Err(e);
                        },
                    }
                }
            }
        }
        i = i + 1;
    }
    Ok(pages)
}

/// The 16-bit little-endian value at offset `i`.
pub open spec fn spec_le16(s: Seq<u8>, i: int) -> int {
    s[i] + s[i + 1] * 0x100
}

/// The 32-bit little-endian value at offset `i`.
pub open spec fn spec_le32(s: Seq<u8>, i: int) -> int {
    s[i] + s[i + 1] * 0x100 + s[i + 2] * 0x10000 + s[i + 3] * 0x1000000
}

/// The program-header entry stored at offset `base`.
pub open spec fn spec_segment_at(s: Seq<u8>, base: int) -> Segment {
    Segment {
        kind: spec_le32(s, base) as u32,
        file_offset: spec_le32(s, base + 4) as u64,
        vaddr: spec_le32(s, base + 8) as u64,
        paddr: spec_le32(s, base + 12) as u64,
        file_size: spec_le32(s, base + 16) as u64,
        mem_size: spec_le32(s, base + 20) as u64,
    }
}

/// The `n` program-header entries stored from offset `phoff` on.
pub open spec fn spec_parse_segments(s: Seq<u8>, phoff: int, n: int) -> Seq<Segment> {
    Seq::new(n as nat, |i: int| spec_segment_at(s, phoff + 32 * i))
}

/// Structural reading of an ELF32 image: the magic, the 32-bit class, the
/// little-endian encoding and an ARM or RISC-V machine are required; the
/// result is the entry point and the program-header table.
pub open spec fn spec_parse_elf(s: Seq<u8>) -> Result<(u64, Seq<Segment>), ElfParseError> {
    if s.len() < 52 {
        Err(ElfParseError::Truncated)
    } else if !(s[0] == 0x7f && s[1] == 0x45 && s[2] == 0x4c && s[3] == 0x46) {
        Err(ElfParseError::BadMagic)
    } else if s[4] != 1 {
        Err(ElfParseError::UnsupportedClass)
    } else if s[5] != 1 {
        Err(ElfParseError::UnsupportedEndianness)
    } else if spec_le16(s, 18) != 0x28 && spec_le16(s, 18) != 0xf3 {
        Err(ElfParseError::UnsupportedMachine)
    } else if spec_le16(s, 42) != 32 {
        Err(ElfParseError::BadProgramHeaderSize)
    } else if spec_le32(s, 28) + 32 * spec_le16(s, 44) > s.len() {
        Err(ElfParseError::Truncated)
    } else {
        Ok(
            (
                spec_le32(s, 24) as u64,
                spec_parse_segments(s, spec_le32(s, 28), spec_le16(s, 44)),
            ),
        )
    }
}

/// An ELF32 image reduced to what the conversion needs: the entry point and
/// the program-header table.
pub struct ElfImage {
    pub entry: u64,
    pub segments: Vec<Segment>,
}

fn read_le16(bytes: &Vec<u8>, i: usize) -> (r: u16)
    requires
        i + 2 <= bytes@.len(),
    ensures
        r == spec_le16(bytes@, i as int),
{
    // the length call bounds `bytes@.len()` by `usize::MAX` for the index
    // arithmetic below
    let _n = bytes.len();
    bytes[i] as u16 + bytes[i + 1] as u16 * 0x100
}

fn read_le32(bytes: &Vec<u8>, i: usize) -> (r: u32)
    requires
        i + 4 <= bytes@.len(),
    ensures
        r == spec_le32(bytes@, i as int),
{
    // the length call bounds `bytes@.len()` by `usize::MAX` for the index
    // arithmetic below
    let _n = bytes.len();
    bytes[i] as u32 + bytes[i + 1] as u32 * 0x100 + bytes[i + 2] as u32 * 0x10000 + bytes[i
        + 3] as u32 * 0x1000000
}

/// Reads the ELF32 header and program-header table out of the raw file
/// bytes.
#[verifier::loop_isolation(false)]
pub fn parse_elf32(input: &Vec<u8>) -> (r: Result<ElfImage, ElfParseError>)
    ensures
        match spec_parse_elf(input@) {
            Ok(parsed) => r matches Ok(img) && img.entry == parsed.0 && img.segments@ == parsed.1
                && img.entry <= u32::MAX && spec_segments_wf(img.segments@),
            Err(e) => r matches Err(e2) && e2 == e,
        },
{
    if input.len() < 52 {
        return Err(ElfParseError::Truncated);
    }
    if !(input[0] == 0x7f && input[1] == 0x45 && input[2] == 0x4c && input[3] == 0x46) {
        return Err(ElfParseError::BadMagic);
    }
    if input[4] != 1 {
        return Err(ElfParseError::UnsupportedClass);
    }
    if input[5] != 1 {
        return Err(ElfParseError::UnsupportedEndianness);
    }
    let machine = read_le16(input, 18);
    if machine != 0x28 && machine != 0xf3 {
        return Err(ElfParseError::UnsupportedMachine);
    }
    if read_le16(input, 42) != 32 {
        return Err(ElfParseError::BadProgramHeaderSize);
    }
    let entry = read_le32(input, 24) as u64;
    let phoff = read_le32(input, 28);
    let phnum = read_le16(input, 44);
    if phoff as u64 + 32u64 * phnum as u64 > input.len() as u64 {
        return Err(ElfParseError::Truncated);
    }
    let mut segments: Vec<Segment> = Vec::new();
    let mut i: usize = 0;
    while i < phnum as usize
        invariant
            0 <= i <= phnum as int,
            segments@ =~= spec_parse_segments(input@, phoff as int, i as int),
        decreases phnum as int - i,
    {
        let base = phoff as usize + 32 * i;
        let seg = Segment {
            kind: read_le32(input, base),
            file_offset: read_le32(input, base + 4) as u64,
            vaddr: read_le32(input, base + 8) as u64,
            paddr: read_le32(input, base + 12) as u64,
            file_size: read_le32(input, base + 16) as u64,
            mem_size: read_le32(input, base + 20) as u64,
        };
        segments.push(seg);
        proof {
            assert(segments@ =~= spec_parse_segments(input@, phoff as int, i + 1));
        }
        i = i + 1;
    }
    Ok(ElfImage { entry, segments })
}

/// The address ranges a later pass could validate against, read off the
/// ELF itself, scanning segments from index `i`: file-backed bytes become a
/// `Contents` range, the zero-fill tail a `NoContents` range.
pub open spec fn spec_address_ranges_from_elf_from(
    segs: Seq<Segment>,
    acc: Seq<AddressRange>,
    i: int,
) -> Seq<AddressRange>
    decreases segs.len() - i,
{
    if i < 0 || i >= segs.len() {
        acc
    } else {
        let s = segs[i];
        if s.kind != PT_LOAD || s.mem_size == 0 {
            spec_address_ranges_from_elf_from(segs, acc, i + 1)
        } else {
            let acc1 = if s.file_size > 0 {
                acc.push(
                    AddressRange {
                        typ: AddressRangeType::Contents,
                        to: ((s.paddr + s.file_size) as u64),
                        from: s.paddr,
                    },
                )
            } else {
                acc
            };
            let acc2 = if s.mem_size > s.file_size {
                acc1.push(
                    AddressRange {
                        typ: AddressRangeType::NoContents,
                        to: ((s.paddr + s.mem_size) as u64),
                        from: ((s.paddr + s.file_size) as u64),
                    },
                )
            } else {
                acc1
            };
            spec_address_ranges_from_elf_from(segs, acc2, i + 1)
        }
    }
}

pub open spec fn spec_address_ranges_from_elf(segs: Seq<Segment>) -> Seq<AddressRange> {
    spec_address_ranges_from_elf_from(segs, Seq::empty(), 0)
}

/// Derives an address-range table from the ELF's own loadable segments:
/// one `Contents` range per file-backed span, one `NoContents` range per
/// zero-fill tail.
#[verifier::loop_isolation(false)]
pub fn address_ranges_from_elf(segments: &Vec<Segment>) -> (r: Result<
    Vec<AddressRange>,
    AddressRangesFromElfError,
>)
    requires
        spec_segments_wf(segments@),
    ensures
        r matches Ok(v) && v@ == spec_address_ranges_from_elf(segments@),
{
    let mut ranges: Vec<AddressRange> = Vec::new();
    let mut i: usize = 0;
    while i < segments.len()
        invariant
            0 <= i <= segments@.len(),
            spec_address_ranges_from_elf(segments@) == spec_address_ranges_from_elf_from(
                segments@,
                ranges@,
                i as int,
            ),
        decreases segments@.len() - i,
    {
        let seg = segments[i];
        if seg.kind == PT_LOAD && seg.mem_size > 0 {
            let start = seg.paddr;
            if seg.file_size > 0 {
                // initialized contents
                ranges.push(
                    AddressRange::new(start, start + seg.file_size, AddressRangeType::Contents),
                );
            }
            if seg.mem_size > seg.file_size {
                // uninitialized (BSS)
                ranges.push(
                    AddressRange::new(
                        start + seg.file_size,
                        start + seg.mem_size,
                        AddressRangeType::NoContents,
                    ),
                );
            }
        }
        i = i + 1;
    }
    Ok(ranges)
}

/// One fragment copied onto a page buffer: `None` when the fragment's file
/// range reaches beyond the end of the input.
pub open spec fn spec_apply_fragment(input: Seq<u8>, buf: Seq<u8>, f: PageFragment) -> Option<
    Seq<u8>,
> {
    if f.file_offset + f.bytes > input.len() {
        None
    } else {
        Some(
            Seq::new(
                buf.len(),
                |j: int|
                    if f.page_offset <= j < f.page_offset + f.bytes {
                        input[f.file_offset + (j - f.page_offset)]
                    } else {
                        buf[j]
                    },
            ),
        )
    }
}

/// The page buffer after copying the fragments from index `i` on.
pub open spec fn spec_realize_page_from(
    input: Seq<u8>,
    frags: Seq<PageFragment>,
    buf: Seq<u8>,
    i: int,
) -> Option<Seq<u8>>
    decreases frags.len() - i,
{
    if i < 0 || i >= frags.len() {
        Some(buf)
    } else {
        match spec_apply_fragment(input, buf, frags[i]) {
            None => None,
            Some(b2) => spec_realize_page_from(input, frags, b2, i + 1),
        }
    }
}

/// The page buffer after copying all fragments onto it.
pub open spec fn spec_realize_page(input: Seq<u8>, frags: Seq<PageFragment>, buf: Seq<u8>) -> Option<
    Seq<u8>,
> {
    spec_realize_page_from(input, frags, buf, 0)
}

/// Materializes the bytes of one page: copies each fragment's run of input
/// bytes to its in-page offset. The caller provides the zero-filled buffer.
#[verifier::loop_isolation(false)]
pub fn realize_page(input: &Vec<u8>, fragments: &Vec<PageFragment>, buf: &mut Vec<u8>) -> (r:
    Result<(), crate::Elf2Uf2Error>)
    requires
        old(buf)@.len() >= PAGE_SIZE,
        forall|k: int|
            0 <= k < fragments@.len() ==> spec_fragment_wf(#[trigger] fragments@[k], PAGE_SIZE),
    ensures
        match spec_realize_page(input@, fragments@, old(buf)@) {
            Some(b2) => r is Ok && final(buf)@ == b2,
            None => r == Err::<(), crate::Elf2Uf2Error>(crate::Elf2Uf2Error::FailedToRealizePages)
                && final(buf)@.len() == old(buf)@.len(),
        },
{
    let mut i: usize = 0;
    while i < fragments.len()
        invariant
            0 <= i <= fragments@.len(),
            buf@.len() == old(buf)@.len(),
            spec_realize_page(input@, fragments@, old(buf)@) == spec_realize_page_from(
                input@,
                fragments@,
                buf@,
                i as int,
            ),
        decreases fragments@.len() - i,
    {
        let f = fragments[i];
        if f.file_offset > input.len() as u64 || f.bytes > input.len() as u64 - f.file_offset {
            return Err(crate::Elf2Uf2Error::FailedToRealizePages);
        }
        let ghost b0 = buf@;
        let mut k: usize = 0;
        while k < f.bytes as usize
            invariant
                0 <= k <= f.bytes,
                buf@.len() == b0.len(),
                forall|j: int|
                    f.page_offset <= j < f.page_offset + k ==> buf@[j] == input@[f.file_offset + (j
                        - f.page_offset)],
                forall|j: int|
                    0 <= j < buf@.len() && !(f.page_offset <= j < f.page_offset + k) ==> buf@[j]
                        == b0[j],
            decreases f.bytes - k,
        {
            let src = input[(f.file_offset as usize) + k];
            buf.set((f.page_offset as usize) + k, src);
            k = k + 1;
        }
        proof {
            assert(buf@ =~= spec_apply_fragment(input@, b0, fragments@[i as int]).unwrap());
        }
        i = i + 1;
    }
    Ok(())
}

} // verus!
