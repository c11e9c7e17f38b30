//! Conversion of 32-bit firmware ELF images into UF2 bootloader-transfer
//! images, as flashed onto RP2040/RP2350-class microcontrollers.
//!
//! The library classifies every loadable ELF segment against a device's
//! valid address ranges, decides whether the image is RAM-resident or
//! Flash-resident from its entry point, splits segment contents into
//! page-sized fragments while rejecting overlapping writes, pads Flash
//! images to erase-sector boundaries, and serializes each page into a
//! fixed 512-byte UF2 block.

use vstd::prelude::*;

pub mod address_range;
pub mod boards;
pub mod elf;
pub mod page_fragment;
pub mod page_map;
pub mod uf2;

use crate::address_range::{
    AddressRange, FLASH_SECTOR_ERASE_SIZE, MAIN_RAM_END_RP2040, MAIN_RAM_END_RP2350,
    MAIN_RAM_START_RP2040, MAIN_RAM_START_RP2350, XIP_SRAM_END_RP2040, XIP_SRAM_END_RP2350,
    XIP_SRAM_START_RP2040, XIP_SRAM_START_RP2350,
};
use crate::address_range::{
    rp2040_address_ranges_flash, rp2040_address_ranges_ram, rp2350_address_ranges_flash,
    rp2350_address_ranges_ram, spec_rp2040_address_ranges_flash, spec_rp2040_address_ranges_ram,
    spec_rp2350_address_ranges_flash, spec_rp2350_address_ranges_ram,
};
use crate::elf::{
    realize_page, spec_is_ram_binary, spec_page_fragments, spec_parse_elf, spec_ranges_all_to_below,
    spec_realize_page, spec_realize_page_from, spec_segments_wf, AddressRangesExt,
    AddressRangesFromElfError, ElfImage, ElfParseError, Segment, PAGE_SIZE,
};
use crate::page_fragment::PageFragment;
use crate::page_map::{
    lemma_insert_empty_keys_below, lemma_insert_empty_wf, lemma_wf_len_bound, spec_contains_key,
    spec_find, spec_keys_below, spec_page_map_wf, spec_seq_insert_empty, spec_value_of, PageMap,
};
use crate::uf2::{
    spec_footer_bytes, spec_header_bytes, Uf2BlockFooter, Uf2BlockHeader, UF2_FLAG_FAMILY_ID_PRESENT,
    UF2_MAGIC_END, UF2_MAGIC_START0, UF2_MAGIC_START1,
};

verus! {

/// How much the conversion reports while it runs.
#[derive(Debug, Copy, Clone, PartialEq, Eq, Structural)]
pub enum Verbosity {
    /// Print almost nothing to the console
    Quiet,
    /// Print a progress bar to the console
    Progress,
    /// Verbose mode, print everything, including page offsets
    Verbose,
}

/// UF2 family short names.
/// See the UF2 family list for the full set of identifiers.
#[allow(non_camel_case_types)]
#[derive(Debug, Clone, Copy, PartialEq, Eq, Structural)]
pub enum Family {
    /// Raspberry Pi RP2040
    RP2040,
    /// Raspberry Pi Microcontrollers: Absolute (unpartitioned) download
    RP2XXX_ABSOLUTE,
    /// Raspberry Pi Microcontrollers: Data partition download
    RP2XXX_DATA,
    /// Raspberry Pi RP2350, Secure Arm image
    RP2350_ARM_S,
    /// Raspberry Pi RP2350, RISC-V image
    RP2350_RISCV,
    /// Raspberry Pi RP2350, Non-secure Arm image
    RP2350_ARM_NS,
}

/// The UF2 family identifier of each family.
pub open spec fn spec_family_id(f: Family) -> u32 {
    match f {
        Family::RP2040 => 0xe48bff56u32,
        Family::RP2XXX_ABSOLUTE => 0xe48bff57u32,
        Family::RP2XXX_DATA => 0xe48bff58u32,
        Family::RP2350_ARM_S => 0xe48bff59u32,
        Family::RP2350_RISCV => 0xe48bff5au32,
        Family::RP2350_ARM_NS => 0xe48bff5bu32,
    }
}

impl Family {
    /// The identifier written into each UF2 block for this family.
    pub fn family_id(&self) -> (r: u32)
        ensures
            r == spec_family_id(*self),
    {
        match self {
            Family::RP2040 => 0xe48bff56,
            Family::RP2XXX_ABSOLUTE => 0xe48bff57,
            Family::RP2XXX_DATA => 0xe48bff58,
            Family::RP2350_ARM_S => 0xe48bff59,
            Family::RP2350_RISCV => 0xe48bff5a,
            Family::RP2350_ARM_NS => 0xe48bff5b,
        }
    }
}

impl Default for Family {
    fn default() -> (r: Self)
        ensures
            r == Family::RP2040,
    {
        Family::RP2040
    }
}

/// A sink for conversion progress, implemented by callers that want to
/// display it. No behavior is assumed of an implementation.
pub trait ProgressReporter {
    fn start(&mut self, total_bytes: usize);

    fn advance(&mut self, bytes: usize);

    fn finish(&mut self);
}

/// A reporter that discards all progress.
pub struct NoProgress;

impl ProgressReporter for NoProgress {
    fn start(&mut self, _total_bytes: usize) {
    }

    fn advance(&mut self, _bytes: usize) {
    }

    fn finish(&mut self) {
    }
}

/// Everything that can go wrong while converting an ELF image to UF2.
#[derive(Copy, Clone, Debug, Eq, PartialEq, Structural)]
pub enum Elf2Uf2Error {
    /// Failed to get address ranges from elf
    FailedToGetPagesFromRanges(AddressRangesFromElfError),
    /// Failed to open elf file
    FailedToOpenElfFile(ElfParseError),
    /// Failed to realize pages for elf file: a fragment reaches beyond the
    /// end of the input
    FailedToRealizePages,
    /// The input file has no memory pages
    InputFileNoMemoryPages,
    /// B0/B1 Boot ROM does not support direct entry into XIP_SRAM
    DirectEntryIntoXipSram,
    /// A RAM binary should have an entry point at the beginning (expected,
    /// then actual)
    RamBinaryEntryPoint(u32, u32),
    /// entry point is not in mapped part of file
    EntryPointNotMapped,
}

/// The RAM-style range table of a family.
pub open spec fn spec_family_ram_ranges(f: Family) -> Seq<AddressRange> {
    match f {
        Family::RP2040 => spec_rp2040_address_ranges_ram(),
        _ => spec_rp2350_address_ranges_ram(),
    }
}

/// The Flash-style range table of a family.
pub open spec fn spec_family_flash_ranges(f: Family) -> Seq<AddressRange> {
    match f {
        Family::RP2040 => spec_rp2040_address_ranges_flash(),
        _ => spec_rp2350_address_ranges_flash(),
    }
}

pub open spec fn spec_family_main_ram_start(f: Family) -> u64 {
    match f {
        Family::RP2040 => MAIN_RAM_START_RP2040,
        _ => MAIN_RAM_START_RP2350,
    }
}

pub open spec fn spec_family_main_ram_end(f: Family) -> u64 {
    match f {
        Family::RP2040 => MAIN_RAM_END_RP2040,
        _ => MAIN_RAM_END_RP2350,
    }
}

pub open spec fn spec_family_xip_sram_start(f: Family) -> u64 {
    match f {
        Family::RP2040 => XIP_SRAM_START_RP2040,
        _ => XIP_SRAM_START_RP2350,
    }
}

pub open spec fn spec_family_xip_sram_end(f: Family) -> u64 {
    match f {
        Family::RP2040 => XIP_SRAM_END_RP2040,
        _ => XIP_SRAM_END_RP2350,
    }
}

pub open spec fn spec_min_u64(a: u64, b: u64) -> u64 {
    if a < b {
        a
    } else {
        b
    }
}

/// The fold computing the two candidate entry points of a RAM image: the
/// lowest touched page inside the main-RAM window and inside the XIP-SRAM
/// window, each OR'd with `0x1` as it is updated, starting from the
/// sentinels `(cur_main, cur_xip)`.
pub open spec fn spec_expected_eps_from(
    v: Seq<(u64, Seq<PageFragment>)>,
    i: int,
    cur_main: u64,
    cur_xip: u64,
    main_ram_start: u64,
    main_ram_end: u64,
    xip_sram_start: u64,
    xip_sram_end: u64,
) -> (u64, u64)
    decreases v.len() - i,
{
    if i < 0 || i >= v.len() {
        (cur_main, cur_xip)
    } else {
        let a = v[i].0;
        if main_ram_start <= a && a <= main_ram_end {
            spec_expected_eps_from(
                v,
                i + 1,
                spec_min_u64(cur_main, a) | 0x1,
                cur_xip,
                main_ram_start,
                main_ram_end,
                xip_sram_start,
                xip_sram_end,
            )
        } else if xip_sram_start <= a && a < xip_sram_end {
            spec_expected_eps_from(
                v,
                i + 1,
                cur_main,
                spec_min_u64(cur_xip, a) | 0x1,
                main_ram_start,
                main_ram_end,
                xip_sram_start,
                xip_sram_end,
            )
        } else {
            spec_expected_eps_from(
                v,
                i + 1,
                cur_main,
                cur_xip,
                main_ram_start,
                main_ram_end,
                xip_sram_start,
                xip_sram_end,
            )
        }
    }
}

/// The entry-point rule for RAM images: the expected entry point is the
/// lowest touched main-RAM page, or failing that the lowest touched
/// XIP-SRAM page, OR'd with `0x1`; entering XIP-SRAM directly is rejected,
/// and so is an entry point different from the expected one.
pub open spec fn spec_validate_ram_entry(
    v: Seq<(u64, Seq<PageFragment>)>,
    entry: u64,
    main_ram_start: u64,
    main_ram_end: u64,
    xip_sram_start: u64,
    xip_sram_end: u64,
) -> Result<(), Elf2Uf2Error> {
    let eps = spec_expected_eps_from(
        v,
        0,
        u32::MAX as u64,
        u32::MAX as u64,
        main_ram_start,
        main_ram_end,
        xip_sram_start,
        xip_sram_end,
    );
    let expected = if eps.0 != u32::MAX as u64 {
        eps.0
    } else {
        eps.1
    };
    if expected == eps.1 {
        Err(Elf2Uf2Error::DirectEntryIntoXipSram)
    } else if entry != expected {
        Err(Elf2Uf2Error::RamBinaryEntryPoint(expected as u32, entry as u32))
    } else {
        Ok(())
    }
}

/// Recomputes the expected entry address of a RAM-style image from the
/// lowest touched page and rejects mismatches.
#[verifier::loop_isolation(false)]
pub fn validate_ram_entry(
    pages: &PageMap,
    entry: u64,
    main_ram_start: u64,
    main_ram_end: u64,
    xip_sram_start: u64,
    xip_sram_end: u64,
) -> (r: Result<(), Elf2Uf2Error>)
    ensures
        r == spec_validate_ram_entry(
            pages@,
            entry,
            main_ram_start,
            main_ram_end,
            xip_sram_start,
            xip_sram_end,
        ),
{
    let mut expected_ep_main_ram: u64 = u32::MAX as u64;
    let mut expected_ep_xip_sram: u64 = u32::MAX as u64;
    let mut i: usize = 0;
    while i < pages.len()
        invariant
            0 <= i <= pages@.len(),
            spec_expected_eps_from(
                pages@,
                0,
                u32::MAX as u64,
                u32::MAX as u64,
                main_ram_start,
                main_ram_end,
                xip_sram_start,
                xip_sram_end,
            ) == spec_expected_eps_from(
                pages@,
                i as int,
                expected_ep_main_ram,
                expected_ep_xip_sram,
                main_ram_start,
                main_ram_end,
                xip_sram_start,
                xip_sram_end,
            ),
        decreases pages@.len() - i,
    {
        let addr = pages.addr_at(i);
        if addr >= main_ram_start && addr <= main_ram_end {
            let m = if expected_ep_main_ram < addr {
                expected_ep_main_ram
            } else {
                addr
            };
            expected_ep_main_ram = m | 0x1;
        } else if addr >= xip_sram_start && addr < xip_sram_end {
            let m = if expected_ep_xip_sram < addr {
                expected_ep_xip_sram
            } else {
                addr
            };
            expected_ep_xip_sram = m | 0x1;
        }
        i = i + 1;
    }
    let expected_ep = if expected_ep_main_ram != u32::MAX as u64 {
        expected_ep_main_ram
    } else {
        expected_ep_xip_sram
    };
    if expected_ep == expected_ep_xip_sram {
        Err(Elf2Uf2Error::DirectEntryIntoXipSram)
    } else if entry != expected_ep {
        Err(Elf2Uf2Error::RamBinaryEntryPoint(expected_ep as u32, entry as u32))
    } else {
        Ok(())
    }
}

proof fn lemma_eps_main_bound(
    v: Seq<(u64, Seq<PageFragment>)>,
    i: int,
    cur_main: u64,
    cur_xip: u64,
    mrs: u64,
    mre: u64,
    xs: u64,
    xe: u64,
)
    requires
        0 <= i,
        cur_main % 2 == 1,
        cur_main <= u32::MAX as u64,
        forall|j: int| 0 <= j < v.len() ==> (#[trigger] v[j]).0 % 2 == 0,
        forall|j: int| 0 <= j < v.len() ==> (#[trigger] v[j]).0 < 0x1_0000_0000,
    ensures
        ({
            let r = spec_expected_eps_from(v, i, cur_main, cur_xip, mrs, mre, xs, xe).0;
            &&& (r == cur_main || exists|j: int|
                i <= j < v.len() && (mrs <= (#[trigger] v[j]).0 <= mre) && r == v[j].0 + 1)
            &&& r <= cur_main
            &&& forall|j: int|
                i <= j < v.len() && (mrs <= (#[trigger] v[j]).0 <= mre) ==> r <= v[j].0 + 1
        }),
    decreases v.len() - i,
{
    if i >= v.len() {
    } else {
        let a = v[i].0;
        if mrs <= a && a <= mre {
            let nm = spec_min_u64(cur_main, a) | 1;
            if cur_main <= a {
                assert(cur_main | 1 == cur_main) by (bit_vector)
                    requires
                        cur_main % 2 == 1,
                ;
                assert(nm == cur_main);
            } else {
                assert(a | 1 == a + 1) by (bit_vector)
                    requires
                        a % 2 == 0,
                        a < 0x1_0000_0000u64,
                ;
                assert(nm == a + 1);
            }
            lemma_eps_main_bound(v, i + 1, nm, cur_xip, mrs, mre, xs, xe);
            let r = spec_expected_eps_from(v, i, cur_main, cur_xip, mrs, mre, xs, xe).0;
            if r != cur_main && nm == a + 1 && r == nm {
                assert(mrs <= (v[i]).0 <= mre && r == v[i].0 + 1);
            }
        } else if xs <= a && a < xe {
            let ncx = spec_min_u64(cur_xip, a) | 1;
            lemma_eps_main_bound(v, i + 1, cur_main, ncx, mrs, mre, xs, xe);
        } else {
            lemma_eps_main_bound(v, i + 1, cur_main, cur_xip, mrs, mre, xs, xe);
        }
    }
}

/// The entry-point invariant of successful RAM-style validation: the entry
/// point is the lowest touched page in the main-RAM or XIP-SRAM windows,
/// OR'd with `0x1`. Stated for maps with no page in the XIP-SRAM window:
/// with pages in both windows the rule compares against the main-RAM
/// candidate even where an XIP-SRAM page is lower.
pub proof fn lemma_ram_entry_point(
    v: Seq<(u64, Seq<PageFragment>)>,
    entry: u64,
    mrs: u64,
    mre: u64,
    xs: u64,
    xe: u64,
)
    requires
        spec_validate_ram_entry(v, entry, mrs, mre, xs, xe) is Ok,
        forall|i: int| 0 <= i < v.len() ==> (#[trigger] v[i]).0 % 2 == 0,
        forall|i: int| 0 <= i < v.len() ==> (#[trigger] v[i]).0 < 0x1_0000_0000,
        forall|i: int| 0 <= i < v.len() ==> !(xs <= (#[trigger] v[i]).0 < xe),
    ensures
        exists|j: int|
            0 <= j < v.len() && (mrs <= (#[trigger] v[j]).0 <= mre) && entry == (v[j].0 | 1) && (
            forall|j2: int|
                0 <= j2 < v.len() && ((mrs <= (#[trigger] v[j2]).0 <= mre) || (xs <= v[j2].0 < xe))
                    ==> v[j].0 <= v[j2].0),
{
    let sentinel = u32::MAX as u64;
    lemma_eps_main_bound(v, 0, sentinel, sentinel, mrs, mre, xs, xe);
    let eps = spec_expected_eps_from(v, 0, sentinel, sentinel, mrs, mre, xs, xe);
    let r = eps.0;
    assert(r != sentinel);
    let j = choose|j: int|
        0 <= j < v.len() && (mrs <= (#[trigger] v[j]).0 <= mre) && r == v[j].0 + 1;
    let aj = v[j].0;
    assert(aj | 1 == aj + 1) by (bit_vector)
        requires
            aj % 2 == 0,
            aj < 0x1_0000_0000u64,
    ;
    assert forall|j2: int|
        0 <= j2 < v.len() && ((mrs <= (#[trigger] v[j2]).0 <= mre) || (xs <= v[j2].0 < xe))
            implies v[j].0 <= v[j2].0 by {
        assert(r <= v[j2].0 + 1);
    }
    assert(0 <= j < v.len() && (mrs <= v[j].0 <= mre) && entry == (v[j].0 | 1) && (forall|j2: int|
        0 <= j2 < v.len() && ((mrs <= (#[trigger] v[j2]).0 <= mre) || (xs <= v[j2].0 < xe))
            ==> v[j].0 <= v[j2].0));
}

/// The entry-point invariant at the conversion level: when the page map of
/// a RAM-style image is built successfully and no page lies in the
/// XIP-SRAM window, the entry point is the lowest touched page in the
/// main-RAM or XIP-SRAM windows, OR'd with `0x1`.
pub proof fn lemma_ram_conversion_entry_point(entry: u64, segs: Seq<Segment>, family: Family)
    requires
        spec_segments_wf(segs),
        spec_is_ram_binary(
            entry,
            segs,
            spec_family_ram_ranges(family),
            spec_family_flash_ranges(family),
        ) == Some(true),
    ensures
        spec_build_page_map(entry, segs, family) is Ok ==> ({
            let m = spec_build_page_map(entry, segs, family).unwrap();
            (forall|i: int|
                0 <= i < m.len() ==> !(spec_family_xip_sram_start(family) <= (#[trigger] m[i]).0
                    < spec_family_xip_sram_end(family))) ==> exists|j: int|
                0 <= j < m.len() && (spec_family_main_ram_start(family) <= (#[trigger] m[j]).0
                    <= spec_family_main_ram_end(family)) && entry == (m[j].0 | 1) && (forall|
                j2: int,
            |
                0 <= j2 < m.len() && ((spec_family_main_ram_start(family) <= (#[trigger] m[j2]).0
                    <= spec_family_main_ram_end(family)) || (spec_family_xip_sram_start(family)
                    <= m[j2].0 < spec_family_xip_sram_end(family))) ==> m[j].0 <= m[j2].0)
        }),
{
    let ram_ranges = spec_family_ram_ranges(family);
    if spec_build_page_map(entry, segs, family) is Ok {
        let m = spec_build_page_map(entry, segs, family).unwrap();
        assert(m == spec_page_fragments(segs, ram_ranges, PAGE_SIZE).unwrap());
        crate::elf::lemma_fragmenter_overlap_invariant(segs, ram_ranges, PAGE_SIZE);
        assert(spec_ranges_all_to_below(ram_ranges, 0x1_0000_0000));
        crate::elf::lemma_fragmenter_keys_below(segs, ram_ranges, PAGE_SIZE, 0x1_0000_0000);
        assert(spec_page_map_wf(m, PAGE_SIZE));
        assert(spec_keys_below(m, 0x1_0000_0000));
        assert forall|i: int| 0 <= i < m.len() implies (#[trigger] m[i]).0 % 2 == 0 by {
            let a = m[i].0;
            assert(a % PAGE_SIZE == 0);
            vstd::arithmetic::div_mod::lemma_fundamental_div_mod(a as int, PAGE_SIZE as int);
            let q = a as int / (PAGE_SIZE as int);
            assert(a as int == (128 * q) * 2) by (nonlinear_arith)
                requires
                    a as int == (PAGE_SIZE as int) * q + (a as int % (PAGE_SIZE as int)),
                    a as int % (PAGE_SIZE as int) == 0,
                    PAGE_SIZE == 256u64,
            ;
            vstd::arithmetic::div_mod::lemma_mod_multiples_basic(128 * q, 2);
        }
        if forall|i: int|
            0 <= i < m.len() ==> !(spec_family_xip_sram_start(family) <= (#[trigger] m[i]).0
                < spec_family_xip_sram_end(family)) {
            lemma_ram_entry_point(
                m,
                entry,
                spec_family_main_ram_start(family),
                spec_family_main_ram_end(family),
                spec_family_xip_sram_start(family),
                spec_family_xip_sram_end(family),
            );
        }
    }
}

/// One padding step: a page-aligned slot strictly below the highest page is
/// inserted empty when not already present.
pub open spec fn spec_pad_slot(
    v: Seq<(u64, Seq<PageFragment>)>,
    page: u64,
    last: u64,
) -> Seq<(u64, Seq<PageFragment>)> {
    if page < last && !spec_contains_key(v, page) {
        spec_seq_insert_empty(v, page)
    } else {
        v
    }
}

/// Padding of the page-aligned slots of one erase sector, from slot `page`
/// up to the sector's end.
pub open spec fn spec_pad_slots_from(
    v: Seq<(u64, Seq<PageFragment>)>,
    page: int,
    end: int,
    page_size: u64,
    last: u64,
) -> Seq<(u64, Seq<PageFragment>)>
    decreases end + page_size - page,
{
    if page_size == 0 || page >= end {
        v
    } else {
        spec_pad_slots_from(
            spec_pad_slot(v, page as u64, last),
            page + page_size,
            end,
            page_size,
            last,
        )
    }
}

/// Padding of all erase sectors touched by the original keys from index `k`
/// on.
pub open spec fn spec_pad_entries_from(
    v: Seq<(u64, Seq<PageFragment>)>,
    orig_keys: Seq<u64>,
    k: int,
    sector_size: u64,
    page_size: u64,
    last: u64,
) -> Seq<(u64, Seq<PageFragment>)>
    decreases orig_keys.len() - k,
{
    if sector_size == 0 || k < 0 || k >= orig_keys.len() {
        v
    } else {
        let sector = orig_keys[k] as int / sector_size as int;
        spec_pad_entries_from(
            spec_pad_slots_from(
                v,
                sector * sector_size,
                sector * sector_size + sector_size,
                page_size,
                last,
            ),
            orig_keys,
            k + 1,
            sector_size,
            page_size,
            last,
        )
    }
}

/// The page map after Flash-sector padding: every erase sector touched by a
/// page has all of its page-aligned slots below the highest page present,
/// the fresh ones with empty fragment lists.
pub open spec fn spec_pad_entries(
    v: Seq<(u64, Seq<PageFragment>)>,
    sector_size: u64,
    page_size: u64,
) -> Seq<(u64, Seq<PageFragment>)> {
    if v.len() == 0 {
        v
    } else {
        spec_pad_entries_from(
            v,
            v.map_values(|p: (u64, Seq<PageFragment>)| p.0),
            0,
            sector_size,
            page_size,
            v[v.len() - 1].0,
        )
    }
}

proof fn lemma_pad_slot_props(v: Seq<(u64, Seq<PageFragment>)>, page: u64, last: u64, page_size: u64)
    requires
        spec_page_map_wf(v, page_size),
        0 < page_size,
        page % page_size == 0,
    ensures
        spec_page_map_wf(spec_pad_slot(v, page, last), page_size),
        forall|b: u64|
            #[trigger] spec_contains_key(v, b) ==> spec_contains_key(
                spec_pad_slot(v, page, last),
                b,
            ) && spec_value_of(spec_pad_slot(v, page, last), b) == spec_value_of(v, b),
        forall|b: u64|
            #[trigger] spec_contains_key(spec_pad_slot(v, page, last), b) ==> spec_contains_key(
                v,
                b,
            ) || (b < last && spec_value_of(spec_pad_slot(v, page, last), b) == Some(
                Seq::<PageFragment>::empty(),
            )),
        page < last ==> spec_contains_key(spec_pad_slot(v, page, last), page),
{
    if page < last && !spec_contains_key(v, page) {
        lemma_insert_empty_wf(v, page, page_size);
        crate::page_map::lemma_insert_empty_value(v, page, page);
        assert forall|b: u64| #[trigger] spec_contains_key(v, b) implies spec_contains_key(
            spec_pad_slot(v, page, last),
            b,
        ) && spec_value_of(spec_pad_slot(v, page, last), b) == spec_value_of(v, b) by {
            crate::page_map::lemma_insert_empty_value(v, page, b);
        }
        assert forall|b: u64|
            #[trigger] spec_contains_key(spec_pad_slot(v, page, last), b) implies
            spec_contains_key(v, b) || (b < last && spec_value_of(spec_pad_slot(v, page, last), b)
                == Some(Seq::<PageFragment>::empty())) by {
            crate::page_map::lemma_insert_empty_value(v, page, b);
        }
    }
}

proof fn lemma_pad_slots_from_props(
    v: Seq<(u64, Seq<PageFragment>)>,
    page: int,
    end: int,
    page_size: u64,
    last: u64,
)
    requires
        spec_page_map_wf(v, page_size),
        0 < page_size,
        0 <= page,
        end <= u64::MAX,
        page % (page_size as int) == 0,
    ensures
        spec_page_map_wf(spec_pad_slots_from(v, page, end, page_size, last), page_size),
        forall|b: u64|
            #[trigger] spec_contains_key(v, b) ==> spec_contains_key(
                spec_pad_slots_from(v, page, end, page_size, last),
                b,
            ) && spec_value_of(spec_pad_slots_from(v, page, end, page_size, last), b)
                == spec_value_of(v, b),
        forall|b: u64|
            #[trigger] spec_contains_key(spec_pad_slots_from(v, page, end, page_size, last), b)
                ==> spec_contains_key(v, b) || (b < last && spec_value_of(
                spec_pad_slots_from(v, page, end, page_size, last),
                b,
            ) == Some(Seq::<PageFragment>::empty())),
        forall|a: int|
            page <= a < end && (a - page) % (page_size as int) == 0 && (a as u64) < last
                ==> spec_contains_key(
                spec_pad_slots_from(v, page, end, page_size, last),
                #[trigger] (a as u64),
            ),
    decreases end + page_size - page,
{
    if page >= end {
    } else {
        let v1 = spec_pad_slot(v, page as u64, last);
        lemma_pad_slot_props(v, page as u64, last, page_size);
        vstd::arithmetic::div_mod::lemma_mod_add_multiples_vanish(page, page_size as int);
        lemma_pad_slots_from_props(v1, page + page_size, end, page_size, last);
        let w = spec_pad_slots_from(v, page, end, page_size, last);
        assert forall|a: int|
            page <= a < end && (a - page) % (page_size as int) == 0 && (a as u64)
                < last implies spec_contains_key(w, #[trigger] (a as u64)) by {
            if a == page {
                assert(spec_contains_key(v1, page as u64));
            } else {
                assert(a - page >= 1);
                vstd::arithmetic::div_mod::lemma_fundamental_div_mod(
                    a - page,
                    page_size as int,
                );
                let q = (a - page) / (page_size as int);
                assert(q >= 1) by (nonlinear_arith)
                    requires
                        a - page == page_size as int * q,
                        a - page >= 1,
                        page_size as int >= 1,
                ;
                assert(a - page >= page_size as int) by (nonlinear_arith)
                    requires
                        a - page == page_size as int * q,
                        q >= 1,
                        page_size as int >= 1,
                ;
                assert(a >= page + page_size);
                vstd::arithmetic::div_mod::lemma_mod_sub_multiples_vanish(
                    a - page,
                    page_size as int,
                );
                assert((a - (page + page_size)) % (page_size as int) == 0);
            }
        }
    }
}

proof fn lemma_pad_entries_from_props(
    v: Seq<(u64, Seq<PageFragment>)>,
    orig_keys: Seq<u64>,
    k: int,
    sector_size: u64,
    page_size: u64,
    last: u64,
)
    requires
        spec_page_map_wf(v, page_size),
        0 < page_size,
        0 < sector_size <= 0x1_0000_0000,
        sector_size % page_size == 0,
        0 <= k,
        forall|kk: int| 0 <= kk < orig_keys.len() ==> #[trigger] orig_keys[kk] < 0x1_0000_0000,
    ensures
        spec_page_map_wf(
            spec_pad_entries_from(v, orig_keys, k, sector_size, page_size, last),
            page_size,
        ),
        forall|b: u64|
            #[trigger] spec_contains_key(v, b) ==> spec_contains_key(
                spec_pad_entries_from(v, orig_keys, k, sector_size, page_size, last),
                b,
            ) && spec_value_of(spec_pad_entries_from(v, orig_keys, k, sector_size, page_size, last), b)
                == spec_value_of(v, b),
        forall|b: u64|
            #[trigger] spec_contains_key(
                spec_pad_entries_from(v, orig_keys, k, sector_size, page_size, last),
                b,
            ) ==> spec_contains_key(v, b) || (b < last && spec_value_of(
                spec_pad_entries_from(v, orig_keys, k, sector_size, page_size, last),
                b,
            ) == Some(Seq::<PageFragment>::empty())),
        forall|kk: int, a: u64|
            k <= kk < orig_keys.len() && #[trigger] (a % page_size) == 0 && a < last && a as int
                / sector_size as int == #[trigger] orig_keys[kk] as int / sector_size as int
                ==> spec_contains_key(
                spec_pad_entries_from(v, orig_keys, k, sector_size, page_size, last),
                a,
            ),
    decreases orig_keys.len() - k,
{
    if k >= orig_keys.len() {
    } else {
        let sector = orig_keys[k] as int / sector_size as int;
        let lo = sector * sector_size;
        let hi = sector * sector_size + sector_size;
        vstd::arithmetic::div_mod::lemma_fundamental_div_mod(
            orig_keys[k] as int,
            sector_size as int,
        );
        assert(sector_size as int * sector == sector * sector_size) by (nonlinear_arith);
        assert(lo <= orig_keys[k] < hi);
        vstd::arithmetic::div_mod::lemma_div_pos_is_pos(orig_keys[k] as int, sector_size as int);
        assert(0 <= lo) by (nonlinear_arith)
            requires
                lo == sector * sector_size,
                0 <= sector,
                sector_size > 0,
        ;
        assert(hi <= u64::MAX);
        // the sector start is page-aligned because the page size divides the
        // sector size
        vstd::arithmetic::div_mod::lemma_fundamental_div_mod(
            sector_size as int,
            page_size as int,
        );
        let q = sector_size as int / page_size as int;
        assert(lo == (sector * q) * page_size as int) by (nonlinear_arith)
            requires
                sector_size as int == page_size as int * q,
                lo == sector * sector_size,
        ;
        vstd::arithmetic::div_mod::lemma_mod_multiples_basic(sector * q, page_size as int);
        let v1 = spec_pad_slots_from(v, lo, hi, page_size, last);
        lemma_pad_slots_from_props(v, lo, hi, page_size, last);
        lemma_pad_entries_from_props(v1, orig_keys, k + 1, sector_size, page_size, last);
        let w = spec_pad_entries_from(v, orig_keys, k, sector_size, page_size, last);
        assert forall|kk: int, a: u64|
            k <= kk < orig_keys.len() && #[trigger] (a % page_size) == 0 && a < last && a as int
                / sector_size as int == #[trigger] orig_keys[kk] as int / sector_size as int
                implies spec_contains_key(w, a) by {
            if kk == k {
                // `a` lies in the sector padded at this step
                vstd::arithmetic::div_mod::lemma_fundamental_div_mod(
                    a as int,
                    sector_size as int,
                );
                assert(sector_size as int * sector == sector * sector_size) by (nonlinear_arith);
                assert((lo <= a as int) && ((a as int) < hi));
                // both `a` and the sector start are page-aligned
                vstd::arithmetic::div_mod::lemma_fundamental_div_mod(a as int, page_size as int);
                let qa = a as int / page_size as int;
                assert(a as int - lo == (qa - sector * q) * page_size as int) by (nonlinear_arith)
                    requires
                        a as int == page_size as int * qa,
                        lo == (sector * q) * page_size as int,
                ;
                vstd::arithmetic::div_mod::lemma_mod_multiples_basic(
                    qa - sector * q,
                    page_size as int,
                );
                assert(((a as int) as u64) == a);
                assert((a as int - lo) % (page_size as int) == 0);
                assert(spec_contains_key(v1, a));
            }
        }
    }
}

/// Coverage of Flash-sector padding: every page-aligned slot below the
/// highest page whose erase sector contains one of the original pages is
/// present after padding, and every original page survives it.
pub proof fn lemma_flash_padding_coverage(
    v: Seq<(u64, Seq<PageFragment>)>,
    sector_size: u64,
    page_size: u64,
)
    requires
        spec_page_map_wf(v, page_size),
        spec_keys_below(v, 0x1_0000_0000),
        0 < v.len(),
        0 < page_size,
        0 < sector_size <= 0x1_0000_0000,
        sector_size % page_size == 0,
    ensures
        spec_page_map_wf(spec_pad_entries(v, sector_size, page_size), page_size),
        forall|b: u64|
            #[trigger] spec_contains_key(v, b) ==> spec_contains_key(
                spec_pad_entries(v, sector_size, page_size),
                b,
            ) && spec_value_of(spec_pad_entries(v, sector_size, page_size), b) == spec_value_of(
                v,
                b,
            ),
        forall|b: u64|
            #[trigger] spec_contains_key(spec_pad_entries(v, sector_size, page_size), b)
                ==> spec_contains_key(v, b) || (b < v[v.len() - 1].0 && spec_value_of(
                spec_pad_entries(v, sector_size, page_size),
                b,
            ) == Some(Seq::<PageFragment>::empty())),
        forall|i: int, a: u64|
            0 <= i < v.len() && #[trigger] (a % page_size) == 0 && a < v[v.len() - 1].0 && a as int
                / sector_size as int == (#[trigger] v[i]).0 as int / sector_size as int
                ==> spec_contains_key(spec_pad_entries(v, sector_size, page_size), a),
{
    let orig_keys = v.map_values(|p: (u64, Seq<PageFragment>)| p.0);
    assert(forall|kk: int|
        0 <= kk < orig_keys.len() ==> #[trigger] orig_keys[kk] == v[kk].0);
    lemma_pad_entries_from_props(v, orig_keys, 0, sector_size, page_size, v[v.len() - 1].0);
    assert forall|i: int, a: u64|
        0 <= i < v.len() && #[trigger] (a % page_size) == 0 && a < v[v.len() - 1].0 && a as int
            / sector_size as int == (#[trigger] v[i]).0 as int / sector_size as int
            implies spec_contains_key(spec_pad_entries(v, sector_size, page_size), a) by {
        assert(orig_keys[i] == v[i].0);
    }
}

/// Coverage of Flash-style conversions: whenever the page map of a
/// Flash-style image is built successfully, every erase sector holding a
/// non-empty page has all of its page-aligned slots below the highest page
/// present in the map.
pub proof fn lemma_flash_conversion_coverage(entry: u64, segs: Seq<Segment>, family: Family)
    requires
        spec_segments_wf(segs),
        spec_is_ram_binary(
            entry,
            segs,
            spec_family_ram_ranges(family),
            spec_family_flash_ranges(family),
        ) == Some(false),
    ensures
        spec_build_page_map(entry, segs, family) matches Ok(m) ==> spec_page_map_wf(m, PAGE_SIZE)
            && (forall|i: int, a: u64|
            0 <= i < m.len() && (#[trigger] m[i]).1.len() > 0 && #[trigger] (a % PAGE_SIZE) == 0
                && a < m[m.len() - 1].0 && a as int / (FLASH_SECTOR_ERASE_SIZE as int) == m[i].0 as int
                / (FLASH_SECTOR_ERASE_SIZE as int) ==> spec_contains_key(m, a)),
{
    let flash_ranges = spec_family_flash_ranges(family);
    if spec_page_fragments(segs, flash_ranges, PAGE_SIZE) is Ok && spec_page_fragments(
        segs,
        flash_ranges,
        PAGE_SIZE,
    ).unwrap().len() > 0 {
        let v0 = spec_page_fragments(segs, flash_ranges, PAGE_SIZE).unwrap();
        let m = spec_pad_entries(v0, FLASH_SECTOR_ERASE_SIZE, PAGE_SIZE);
        let v0_last = v0[v0.len() - 1].0;
        crate::elf::lemma_fragmenter_overlap_invariant(segs, flash_ranges, PAGE_SIZE);
        assert(spec_ranges_all_to_below(flash_ranges, 0x1_0000_0000));
        crate::elf::lemma_fragmenter_keys_below(segs, flash_ranges, PAGE_SIZE, 0x1_0000_0000);
        lemma_flash_padding_coverage(v0, FLASH_SECTOR_ERASE_SIZE, PAGE_SIZE);
        // the highest page survives padding unchanged: nothing at or above
        // it is ever inserted
        crate::page_map::lemma_sorted_find_key(v0, v0_last, v0.len() - 1);
        assert(spec_contains_key(v0, v0_last));
        assert(spec_contains_key(m, v0_last));
        crate::page_map::lemma_find_characterization(m, v0_last);
        let li = spec_find(m, v0_last).unwrap();
        assert(m[li].0 == v0_last);
        let last = m[m.len() - 1].0;
        assert(v0_last <= last);
        crate::page_map::lemma_sorted_find_key(m, last, m.len() - 1);
        assert(spec_contains_key(m, last));
        if !spec_contains_key(v0, last) {
            assert(last < v0_last);
        } else {
            crate::page_map::lemma_find_characterization(v0, last);
            let lj = spec_find(v0, last).unwrap();
            assert(v0[lj].0 == last);
            assert(last <= v0_last);
        }
        assert(last == v0_last);
        assert forall|i: int, a: u64|
            0 <= i < m.len() && (#[trigger] m[i]).1.len() > 0 && #[trigger] (a % PAGE_SIZE) == 0
                && a < m[m.len() - 1].0 && a as int / (FLASH_SECTOR_ERASE_SIZE as int) == m[i].0 as int
                / (FLASH_SECTOR_ERASE_SIZE as int) implies spec_contains_key(m, a) by {
            // a non-empty page of the padded map is one of the fragmenter's
            // pages: the inserted placeholders are empty
            crate::page_map::lemma_sorted_find_key(m, m[i].0, i);
            assert(spec_contains_key(m, m[i].0));
            assert(spec_value_of(m, m[i].0) == Some(m[i].1));
            assert(Seq::<PageFragment>::empty().len() == 0);
            assert(spec_value_of(m, m[i].0) != Some(Seq::<PageFragment>::empty()));
            assert(spec_contains_key(v0, m[i].0));
            crate::page_map::lemma_find_characterization(v0, m[i].0);
            let j = spec_find(v0, m[i].0).unwrap();
            assert(v0[j].0 == m[i].0);
            assert(a as int / (FLASH_SECTOR_ERASE_SIZE as int) == (v0[j]).0 as int / (
            FLASH_SECTOR_ERASE_SIZE as int));
            assert(spec_contains_key(m, a));
        }
    }
}

/// Inserts empty placeholder pages so every erase sector touched by the
/// image is fully represented below the highest page; the final sector is
/// deliberately not padded past that page.
#[verifier::loop_isolation(false)]
pub fn pad_to_sectors(pages: &mut PageMap, sector_size: u64, page_size: u64)
    requires
        spec_page_map_wf(old(pages)@, page_size),
        spec_keys_below(old(pages)@, 0x1_0000_0000),
        old(pages)@.len() > 0,
        0 < page_size,
        0 < sector_size <= 0x1_0000_0000,
        sector_size % page_size == 0,
    ensures
        final(pages)@ == spec_pad_entries(old(pages)@, sector_size, page_size),
        spec_page_map_wf(final(pages)@, page_size),
        spec_keys_below(final(pages)@, 0x1_0000_0000),
{
    let last_page_addr = pages.last_addr();
    let keys0 = pages.keys();
    proof {
        // the page size divides the sector size, so it cannot exceed it
        if page_size > sector_size {
            vstd::arithmetic::div_mod::lemma_small_mod(
                sector_size as nat,
                page_size as nat,
            );
        }
    }
    let mut k: usize = 0;
    while k < keys0.len()
        invariant
            0 <= k <= keys0@.len(),
            spec_pad_entries(old(pages)@, sector_size, page_size) == spec_pad_entries_from(
                pages@,
                keys0@,
                k as int,
                sector_size,
                page_size,
                last_page_addr,
            ),
            spec_page_map_wf(pages@, page_size),
            spec_keys_below(pages@, 0x1_0000_0000),
        decreases keys0@.len() - k,
    {
        let key = keys0[k];
        proof {
            assert(keys0@[k as int] == old(pages)@[k as int].0);
            assert(key < 0x1_0000_0000);
        }
        let sector = key / sector_size;
        proof {
            assert(sector * sector_size <= key && key < sector * sector_size + sector_size)
                by (nonlinear_arith)
                requires
                    sector == key / sector_size,
                    sector_size > 0,
            ;
        }
        let mut page = sector * sector_size;
        let sector_end = sector * sector_size + sector_size;
        let ghost v_k = pages@;
        proof {
            vstd::arithmetic::div_mod::lemma_fundamental_div_mod(
                sector_size as int,
                page_size as int,
            );
            let q = sector_size as int / page_size as int;
            assert(sector as int * sector_size as int == (sector as int * q) * page_size as int)
                by (nonlinear_arith)
                requires
                    sector_size as int == page_size as int * q,
            ;
            vstd::arithmetic::div_mod::lemma_mod_multiples_basic(
                sector as int * q,
                page_size as int,
            );
        }
        while page < sector_end
            invariant
                sector * sector_size <= page,
                page % page_size == 0,
                spec_pad_slots_from(
                    v_k,
                    sector as int * sector_size as int,
                    sector_end as int,
                    page_size,
                    last_page_addr,
                ) == spec_pad_slots_from(
                    pages@,
                    page as int,
                    sector_end as int,
                    page_size,
                    last_page_addr,
                ),
                spec_page_map_wf(pages@, page_size),
                spec_keys_below(pages@, 0x1_0000_0000),
            decreases sector_end + page_size - page,
        {
            if page < last_page_addr && !pages.contains_key(page) {
                let ghost prev = pages@;
                pages.insert_empty(page);
                proof {
                    lemma_insert_empty_wf(prev, page, page_size);
                    assert(last_page_addr < 0x1_0000_0000);
                    lemma_insert_empty_keys_below(prev, page, 0x1_0000_0000);
                }
            }
            proof {
                vstd::arithmetic::div_mod::lemma_mod_add_multiples_vanish(
                    page as int,
                    page_size as int,
                );
            }
            page = page + page_size;
        }
        k = k + 1;
    }
}

/// Decides the image style from the entry point, builds and validates the
/// page map for the style's range table, and applies the style's
/// post-processing: sector padding for Flash images, the entry-point rule
/// for RAM images.
pub open spec fn spec_build_page_map(entry: u64, segs: Seq<Segment>, family: Family) -> Result<
    Seq<(u64, Seq<PageFragment>)>,
    Elf2Uf2Error,
> {
    let ram_ranges = spec_family_ram_ranges(family);
    let flash_ranges = spec_family_flash_ranges(family);
    match spec_is_ram_binary(entry, segs, ram_ranges, flash_ranges) {
        None => Err(Elf2Uf2Error::EntryPointNotMapped),
        Some(ram_style) => {
            let valid_ranges = if ram_style {
                ram_ranges
            } else {
                flash_ranges
            };
            match spec_page_fragments(segs, valid_ranges, PAGE_SIZE) {
                Err(e) => Err(Elf2Uf2Error::FailedToGetPagesFromRanges(e)),
                Ok(v) => if v.len() == 0 {
                    Err(Elf2Uf2Error::InputFileNoMemoryPages)
                } else if ram_style {
                    match spec_validate_ram_entry(
                        v,
                        entry,
                        spec_family_main_ram_start(family),
                        spec_family_main_ram_end(family),
                        spec_family_xip_sram_start(family),
                        spec_family_xip_sram_end(family),
                    ) {
                        Err(e) => Err(e),
                        Ok(_) => Ok(v),
                    }
                } else {
                    Ok(spec_pad_entries(v, FLASH_SECTOR_ERASE_SIZE, PAGE_SIZE))
                },
            }
        },
    }
}

/// Builds the page map for one ELF image: style detection, fragmentation,
/// and style-specific post-processing.
pub fn build_page_map(elf: &ElfImage, family: Family) -> (r: Result<PageMap, Elf2Uf2Error>)
    requires
        elf.entry <= u32::MAX,
        spec_segments_wf(elf.segments@),
    ensures
        match spec_build_page_map(elf.entry, elf.segments@, family) {
            Ok(v) => r matches Ok(pm) && pm@ == v && spec_page_map_wf(pm@, PAGE_SIZE)
                && spec_keys_below(pm@, 0x1_0000_0000),
            Err(e) => r matches Err(e2) && e2 == e,
        },
{
    let (address_ranges_ram, address_ranges_flash) = match family {
        Family::RP2040 => (rp2040_address_ranges_ram(), rp2040_address_ranges_flash()),
        _ => (rp2350_address_ranges_ram(), rp2350_address_ranges_flash()),
    };
    let (main_ram_start, main_ram_end, xip_sram_start, xip_sram_end) = match family {
        Family::RP2040 => (
            MAIN_RAM_START_RP2040,
            MAIN_RAM_END_RP2040,
            XIP_SRAM_START_RP2040,
            XIP_SRAM_END_RP2040,
        ),
        _ => (
            MAIN_RAM_START_RP2350,
            MAIN_RAM_END_RP2350,
            XIP_SRAM_START_RP2350,
            XIP_SRAM_END_RP2350,
        ),
    };
    let ram_style = match crate::elf::is_ram_binary(
        elf.entry,
        &elf.segments,
        &address_ranges_ram,
        &address_ranges_flash,
    ) {
        Some(b) => b,
        None => {
            return Err(Elf2Uf2Error::EntryPointNotMapped);
        },
    };
    let valid_ranges = if ram_style {
        &address_ranges_ram
    } else {
        &address_ranges_flash
    };
    proof {
        assert(spec_ranges_all_to_below(valid_ranges@, 0x1_0000_0000));
    }
    let mut pages = match valid_ranges.check_elf32_ph_entries(&elf.segments) {
        Ok(pages) => pages,
        Err(e) => {
            return Err(Elf2Uf2Error::FailedToGetPagesFromRanges(e));
        },
    };
    if pages.is_empty() {
        return Err(Elf2Uf2Error::InputFileNoMemoryPages);
    }
    if ram_style {
        match validate_ram_entry(
            &pages,
            elf.entry,
            main_ram_start,
            main_ram_end,
            xip_sram_start,
            xip_sram_end,
        ) {
            Ok(_) => {},
            Err(e) => {
                return Err(e);
            },
        }
        // the device layout keeps the main RAM window page-aligned
        assert(main_ram_start % PAGE_SIZE == 0);
    } else {
        // Fill in empty dummy pages to align the binary to flash sectors
        // (except for the last sector, which is deliberately not padded, to
        // avoid making every image bigger). The bootloader uses the block
        // number for its erase-sector bookkeeping, so every touched sector
        // must be fully represented below the highest page.
        pad_to_sectors(&mut pages, FLASH_SECTOR_ERASE_SIZE, PAGE_SIZE);
    }
    Ok(pages)
}

/// The blank 476-byte payload of a block before the page's fragments are
/// copied onto it.
pub open spec fn spec_blank_payload() -> Seq<u8> {
    Seq::new(476, |j: int| 0u8)
}

/// The 512 bytes of the block for page `i` of `n`: header, realized
/// payload, footer. `None` when a fragment reaches beyond the input.
pub open spec fn spec_block_bytes(
    input: Seq<u8>,
    entry: (u64, Seq<PageFragment>),
    block_no: int,
    num_blocks: int,
    family: Family,
) -> Option<Seq<u8>> {
    let header = Uf2BlockHeader {
        magic_start0: UF2_MAGIC_START0,
        magic_start1: UF2_MAGIC_START1,
        flags: UF2_FLAG_FAMILY_ID_PRESENT,
        target_addr: entry.0 as u32,
        payload_size: PAGE_SIZE as u32,
        block_no: block_no as u32,
        num_blocks: num_blocks as u32,
        file_size: spec_family_id(family),
    };
    match spec_realize_page(input, entry.1, spec_blank_payload()) {
        None => None,
        Some(data) => Some(
            spec_header_bytes(header) + data + spec_footer_bytes(
                Uf2BlockFooter { magic_end: UF2_MAGIC_END },
            ),
        ),
    }
}

/// The output stream from block `i` on, appended to `acc`.
pub open spec fn spec_write_output_from(
    input: Seq<u8>,
    v: Seq<(u64, Seq<PageFragment>)>,
    family: Family,
    acc: Seq<u8>,
    i: int,
) -> Result<Seq<u8>, Elf2Uf2Error>
    decreases v.len() - i,
{
    if i < 0 || i >= v.len() {
        Ok(acc)
    } else {
        match spec_block_bytes(input, v[i], i, v.len() as int, family) {
            None => Err(Elf2Uf2Error::FailedToRealizePages),
            Some(b) => spec_write_output_from(input, v, family, acc + b, i + 1),
        }
    }
}

/// The whole output stream: one 512-byte block per page, in ascending
/// address order.
pub open spec fn spec_write_output(
    input: Seq<u8>,
    v: Seq<(u64, Seq<PageFragment>)>,
    family: Family,
) -> Result<Seq<u8>, Elf2Uf2Error> {
    spec_write_output_from(input, v, family, Seq::empty(), 0)
}

proof fn lemma_realize_page_from_len(input: Seq<u8>, frags: Seq<PageFragment>, buf: Seq<u8>, i: int)
    requires
        spec_realize_page_from(input, frags, buf, i) is Some,
    ensures
        spec_realize_page_from(input, frags, buf, i).unwrap().len() == buf.len(),
    decreases frags.len() - i,
{
    if i < 0 || i >= frags.len() {
    } else {
        let b2 = crate::elf::spec_apply_fragment(input, buf, frags[i]).unwrap();
        lemma_realize_page_from_len(input, frags, b2, i + 1);
    }
}

/// The framing of one 512-byte block at offset `off` of the output: the
/// two start magics, the block number, the block count and the end magic
/// stand at their fixed places.
pub open spec fn spec_block_framed(out: Seq<u8>, off: int, block_no: int, num_blocks: int) -> bool {
    &&& out.subrange(off, off + 4) == crate::uf2::spec_u32_le(UF2_MAGIC_START0)
    &&& out.subrange(off + 4, off + 8) == crate::uf2::spec_u32_le(UF2_MAGIC_START1)
    &&& out.subrange(off + 20, off + 24) == crate::uf2::spec_u32_le(block_no as u32)
    &&& out.subrange(off + 24, off + 28) == crate::uf2::spec_u32_le(num_blocks as u32)
    &&& out.subrange(off + 508, off + 512) == crate::uf2::spec_u32_le(UF2_MAGIC_END)
}

#[verifier::rlimit(100)]
proof fn lemma_block_bytes_framed(header: Uf2BlockHeader, data: Seq<u8>, b: Seq<u8>)
    requires
        data.len() == 476,
        b == spec_header_bytes(header) + data + spec_footer_bytes(
            Uf2BlockFooter { magic_end: UF2_MAGIC_END },
        ),
    ensures
        b.len() == 512,
        b.subrange(0, 4) == crate::uf2::spec_u32_le(header.magic_start0),
        b.subrange(4, 8) == crate::uf2::spec_u32_le(header.magic_start1),
        b.subrange(20, 24) == crate::uf2::spec_u32_le(header.block_no),
        b.subrange(24, 28) == crate::uf2::spec_u32_le(header.num_blocks),
        b.subrange(508, 512) == crate::uf2::spec_u32_le(UF2_MAGIC_END),
{
    let hb = spec_header_bytes(header);
    assert(hb.len() == 32);
    assert(b.subrange(0, 4) =~= crate::uf2::spec_u32_le(header.magic_start0));
    assert(b.subrange(4, 8) =~= crate::uf2::spec_u32_le(header.magic_start1));
    assert(b.subrange(20, 24) =~= crate::uf2::spec_u32_le(header.block_no));
    assert(b.subrange(24, 28) =~= crate::uf2::spec_u32_le(header.num_blocks));
    assert(b.subrange(508, 512) =~= crate::uf2::spec_u32_le(UF2_MAGIC_END));
}

proof fn lemma_prefix_block_framed(out: Seq<u8>, off: int, b: Seq<u8>, block_no: int, num_blocks: int)
    requires
        0 <= off,
        off + 512 <= out.len(),
        b.len() == 512,
        out.subrange(off, off + 512) == b,
        b.subrange(0, 4) == crate::uf2::spec_u32_le(UF2_MAGIC_START0),
        b.subrange(4, 8) == crate::uf2::spec_u32_le(UF2_MAGIC_START1),
        b.subrange(20, 24) == crate::uf2::spec_u32_le(block_no as u32),
        b.subrange(24, 28) == crate::uf2::spec_u32_le(num_blocks as u32),
        b.subrange(508, 512) == crate::uf2::spec_u32_le(UF2_MAGIC_END),
    ensures
        spec_block_framed(out, off, block_no, num_blocks),
{
    assert forall|x: int| 0 <= x < 512 implies out[off + x] == b[x] by {
        assert(out.subrange(off, off + 512)[x] == b[x]);
    }
    assert(out.subrange(off, off + 4) =~= b.subrange(0, 4));
    assert(out.subrange(off + 4, off + 8) =~= b.subrange(4, 8));
    assert(out.subrange(off + 20, off + 24) =~= b.subrange(20, 24));
    assert(out.subrange(off + 24, off + 28) =~= b.subrange(24, 28));
    assert(out.subrange(off + 508, off + 512) =~= b.subrange(508, 512));
}

#[verifier::rlimit(100)]
#[verifier::spinoff_prover]
proof fn lemma_write_output_from_framing(
    input: Seq<u8>,
    v: Seq<(u64, Seq<PageFragment>)>,
    family: Family,
    acc: Seq<u8>,
    i: int,
    out: Seq<u8>,
)
    requires
        0 <= i,
        spec_write_output_from(input, v, family, acc, i) == Ok::<Seq<u8>, Elf2Uf2Error>(out),
    ensures
        out.len() == acc.len() + 512 * (if i <= v.len() {
            v.len() - i
        } else {
            0
        }),
        out.subrange(0, acc.len() as int) == acc,
        forall|k: int|
            i <= k < v.len() ==> #[trigger] spec_block_framed(
                out,
                acc.len() + 512 * (k - i),
                k,
                v.len() as int,
            ),
    decreases v.len() - i,
{
    if i >= v.len() {
        assert(out == acc);
        assert(out.subrange(0, acc.len() as int) =~= acc);
    } else {
        let blk = spec_block_bytes(input, v[i], i, v.len() as int, family);
        let b = blk.unwrap();
        let header = Uf2BlockHeader {
            magic_start0: UF2_MAGIC_START0,
            magic_start1: UF2_MAGIC_START1,
            flags: UF2_FLAG_FAMILY_ID_PRESENT,
            target_addr: v[i].0 as u32,
            payload_size: PAGE_SIZE as u32,
            block_no: i as u32,
            num_blocks: v.len() as u32,
            file_size: spec_family_id(family),
        };
        let data = spec_realize_page(input, v[i].1, spec_blank_payload()).unwrap();
        lemma_realize_page_from_len(input, v[i].1, spec_blank_payload(), 0);
        assert(data.len() == 476);
        assert(b == spec_header_bytes(header) + data + spec_footer_bytes(
            Uf2BlockFooter { magic_end: UF2_MAGIC_END },
        ));
        assert(b.len() == 512);
        lemma_write_output_from_framing(input, v, family, acc + b, i + 1, out);
        assert(out.subrange(0, acc.len() as int) =~= (acc + b).subrange(0, acc.len() as int));
        let off = acc.len() as int;
        assert(spec_block_framed(out, off, i, v.len() as int)) by {
            lemma_block_bytes_framed(header, data, b);
            assert(out.subrange(0, off + 512) == acc + b);
            assert forall|x: int| 0 <= x < 512 implies out[off + x] == b[x] by {
                assert(out.subrange(0, off + 512)[off + x] == (acc + b)[off + x]);
            }
            assert(out.subrange(off, off + 512) =~= b);
            lemma_prefix_block_framed(out, off, b, i, v.len() as int);
        }
        assert forall|k: int| i <= k < v.len() implies #[trigger] spec_block_framed(
            out,
            acc.len() + 512 * (k - i),
            k,
            v.len() as int,
        ) by {
            if k > i {
                assert(spec_block_framed(out, (acc + b).len() + 512 * (k - (i + 1)), k, v.len() as int));
                assert((acc + b).len() + 512 * (k - (i + 1)) == acc.len() + 512 * (k - i));
            }
        }
    }
}

/// Block framing: a successful output stream is exactly 512 bytes per
/// page, and block `k` carries the start magics, the block number `k`, the
/// total block count and the end magic at their fixed offsets.
pub proof fn lemma_block_framing(
    input: Seq<u8>,
    v: Seq<(u64, Seq<PageFragment>)>,
    family: Family,
    out: Seq<u8>,
)
    requires
        spec_write_output(input, v, family) == Ok::<Seq<u8>, Elf2Uf2Error>(out),
    ensures
        out.len() == 512 * v.len(),
        forall|k: int|
            0 <= k < v.len() ==> #[trigger] spec_block_framed(out, 512 * k, k, v.len() as int),
{
    lemma_write_output_from_framing(input, v, family, Seq::empty(), 0, out);
    assert forall|k: int| 0 <= k < v.len() implies #[trigger] spec_block_framed(
        out,
        512 * k,
        k,
        v.len() as int,
    ) by {
        assert(spec_block_framed(out, Seq::<u8>::empty().len() + 512 * (k - 0), k, v.len() as int));
        assert(Seq::<u8>::empty().len() + 512 * (k - 0) == 512 * k);
    }
}

/// Serializes the page map into the UF2 output stream, realizing each
/// page's bytes from the input file.
#[verifier::loop_isolation(false)]
pub fn write_output(input: &Vec<u8>, pages: &PageMap, family: Family) -> (r: Result<
    Vec<u8>,
    Elf2Uf2Error,
>)
    requires
        spec_page_map_wf(pages@, PAGE_SIZE),
        spec_keys_below(pages@, 0x1_0000_0000),
        pages@.len() <= u32::MAX,
    ensures
        match spec_write_output(input@, pages@, family) {
            Ok(b) => r matches Ok(v) && v@ == b,
            Err(e) => r matches Err(e2) && e2 == e,
        },
{
    let num_blocks = pages.len() as u32;
    let mut out: Vec<u8> = Vec::new();
    let mut i: usize = 0;
    while i < pages.len()
        invariant
            0 <= i <= pages@.len(),
            spec_write_output(input@, pages@, family) == spec_write_output_from(
                input@,
                pages@,
                family,
                out@,
                i as int,
            ),
        decreases pages@.len() - i,
    {
        let target_addr = pages.addr_at(i);
        let fragments = pages.fragments_at(i);
        let block_header = Uf2BlockHeader {
            magic_start0: UF2_MAGIC_START0,
            magic_start1: UF2_MAGIC_START1,
            flags: UF2_FLAG_FAMILY_ID_PRESENT,
            target_addr: target_addr as u32,
            payload_size: PAGE_SIZE as u32,
            block_no: i as u32,
            num_blocks,
            file_size: family.family_id(),
        };
        let mut block_data: Vec<u8> = vec![0u8; 476];
        proof {
            assert(block_data@ =~= spec_blank_payload());
        }
        match realize_page(input, fragments, &mut block_data) {
            Ok(_) => {},
            Err(e) => {
                return Err(e);
            },
        }
        let ghost data = block_data@;
        let ghost prev_out = out@;
        let mut hb = block_header.to_bytes();
        out.append(&mut hb);
        out.append(&mut block_data);
        let mut fb = (Uf2BlockFooter { magic_end: UF2_MAGIC_END }).to_bytes();
        out.append(&mut fb);
        proof {
            let blk = spec_block_bytes(input@, pages@[i as int], i as int, pages@.len() as int, family);
            assert(blk matches Some(b) && out@ =~= prev_out + b);
        }
        i = i + 1;
    }
    Ok(out)
}

/// Reads the ELF32 structure out of the raw input bytes.
pub fn open_elf(input: &Vec<u8>) -> (r: Result<ElfImage, Elf2Uf2Error>)
    ensures
        match spec_parse_elf(input@) {
            Ok(parsed) => r matches Ok(img) && img.entry == parsed.0 && img.segments@ == parsed.1
                && img.entry <= u32::MAX && spec_segments_wf(img.segments@),
            Err(e) => r == Err::<ElfImage, Elf2Uf2Error>(Elf2Uf2Error::FailedToOpenElfFile(e)),
        },
{
    match crate::elf::parse_elf32(input) {
        Ok(img) => Ok(img),
        Err(e) => Err(Elf2Uf2Error::FailedToOpenElfFile(e)),
    }
}

/// The whole conversion as a function of the input bytes: structural ELF
/// reading, page-map construction, and block serialization.
pub open spec fn spec_elf2uf2(input: Seq<u8>, family: Family) -> Result<Seq<u8>, Elf2Uf2Error> {
    match spec_parse_elf(input) {
        Err(e) => Err(Elf2Uf2Error::FailedToOpenElfFile(e)),
        Ok(parsed) => match spec_build_page_map(parsed.0, parsed.1, family) {
            Err(e) => Err(e),
            Ok(v) => spec_write_output(input, v, family),
        },
    }
}

/// Idempotence of the conversion: its result is a function of the input
/// bytes and the family alone, so any two runs on the same input produce
/// the same outcome, byte for byte. `elf2uf2` ensures that each run's
/// result equals `spec_elf2uf2` of its input.
pub proof fn lemma_conversion_deterministic(
    input: Seq<u8>,
    family: Family,
    r1: Result<Seq<u8>, Elf2Uf2Error>,
    r2: Result<Seq<u8>, Elf2Uf2Error>,
)
    requires
        r1 == spec_elf2uf2(input, family),
        r2 == spec_elf2uf2(input, family),
    ensures
        r1 == r2,
{
}

/// Converts the ELF image in `input` into a UF2 stream for `family`. The
/// result is a function of the input bytes and the family alone, so two
/// runs on the same input produce identical output.
pub fn elf2uf2<R: ProgressReporter>(input: &Vec<u8>, family: Family, reporter: &mut R) -> (r:
    Result<Vec<u8>, Elf2Uf2Error>)
    ensures
        match spec_elf2uf2(input@, family) {
            Ok(b) => r matches Ok(v) && v@ == b,
            Err(e) => r matches Err(e2) && e2 == e,
        },
{
    let elf = match open_elf(input) {
        Ok(elf) => elf,
        Err(e) => {
            return Err(e);
        },
    };
    let pages = match build_page_map(&elf, family) {
        Ok(pages) => pages,
        Err(e) => {
            return Err(e);
        },
    };
    proof {
        lemma_wf_len_bound(pages@, PAGE_SIZE, 0x1_0000_0000);
    }
    let total_bytes = pages.len() as u64 * 512;
    reporter.start(total_bytes as usize);
    let result = match write_output(input, &pages, family) {
        Ok(out) => out,
        Err(e) => {
            return Err(e);
        },
    };
    reporter.advance(total_bytes as usize);
    reporter.finish();
    Ok(result)
}

} // verus!
