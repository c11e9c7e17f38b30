//! Device address ranges: the memory windows a firmware image may touch,
//! each tagged with whether it may carry file contents.

use vstd::prelude::*;

verus! {

/// How a memory window treats downloaded bytes.
#[derive(Copy, Clone, Debug, Eq, PartialEq, Structural)]
pub enum AddressRangeType {
    /// May have contents
    Contents,
    /// Must be uninitialized
    NoContents,
    /// Will be ignored
    Ignore,
}

/// A half-open memory window `[from, to)` with its contents policy.
#[derive(Copy, Clone, Debug, Eq, PartialEq, Structural)]
pub struct AddressRange {
    pub typ: AddressRangeType,
    pub to: u64,
    pub from: u64,
}

impl AddressRange {
    pub fn new(from: u64, to: u64, typ: AddressRangeType) -> (r: Self)
        ensures
            r == (AddressRange { typ, to, from }),
    {
        Self { typ, to, from }
    }
}

impl Default for AddressRange {
    fn default() -> (r: Self)
        ensures
            r == (AddressRange { typ: AddressRangeType::Ignore, to: 0u64, from: 0u64 }),
    {
        Self { typ: AddressRangeType::Ignore, to: 0, from: 0 }
    }
}

pub const FLASH_SECTOR_ERASE_SIZE: u64 = 4096;

pub const MAIN_RAM_START_RP2040: u64 = 0x2000_0000;

pub const MAIN_RAM_END_RP2040: u64 = 0x2004_2000;

pub const MAIN_RAM_START_RP2350: u64 = 0x2000_0000;

pub const MAIN_RAM_END_RP2350: u64 = 0x2008_2000;

pub const FLASH_START_RP2040: u64 = 0x1000_0000;

pub const FLASH_END_RP2040: u64 = 0x1500_0000;

pub const FLASH_START_RP2350: u64 = 0x1000_0000;

pub const FLASH_END_RP2350: u64 = 0x1500_0000;

pub const XIP_SRAM_START_RP2040: u64 = 0x1500_0000;

pub const XIP_SRAM_END_RP2040: u64 = 0x1500_4000;

pub const XIP_SRAM_START_RP2350: u64 = 0x13ff_c000;

pub const XIP_SRAM_END_RP2350: u64 = 0x1400_0000;

pub const MAIN_RAM_BANKED_START_RP2040: u64 = 0x2100_0000;

pub const MAIN_RAM_BANKED_END_RP2040: u64 = 0x2104_0000;

pub const ROM_START_RP2040: u64 = 0x0000_0000;

pub const ROM_END_RP2040: u64 = 0x0000_4000;

pub const ROM_START_RP2350: u64 = 0x0000_0000;

pub const ROM_END_RP2350: u64 = 0x0000_8000;

/// The Flash-style range table for the RP2040.
pub open spec fn spec_rp2040_address_ranges_flash() -> Seq<AddressRange> {
    seq![
        AddressRange {
            typ: AddressRangeType::Contents,
            to: FLASH_END_RP2040,
            from: FLASH_START_RP2040,
        },
        AddressRange {
            typ: AddressRangeType::NoContents,
            to: MAIN_RAM_END_RP2040,
            from: MAIN_RAM_START_RP2040,
        },
        AddressRange {
            typ: AddressRangeType::NoContents,
            to: MAIN_RAM_BANKED_END_RP2040,
            from: MAIN_RAM_BANKED_START_RP2040,
        },
    ]
}

/// The RAM-style range table for the RP2040.
pub open spec fn spec_rp2040_address_ranges_ram() -> Seq<AddressRange> {
    seq![
        AddressRange {
            typ: AddressRangeType::Contents,
            to: MAIN_RAM_END_RP2040,
            from: MAIN_RAM_START_RP2040,
        },
        AddressRange {
            typ: AddressRangeType::Contents,
            to: XIP_SRAM_END_RP2040,
            from: XIP_SRAM_START_RP2040,
        },
        // for now the bootrom is ignored if present
        AddressRange { typ: AddressRangeType::Ignore, to: ROM_END_RP2040, from: ROM_START_RP2040 },
    ]
}

/// The Flash-style range table for the RP2350.
pub open spec fn spec_rp2350_address_ranges_flash() -> Seq<AddressRange> {
    seq![
        AddressRange {
            typ: AddressRangeType::Contents,
            to: FLASH_END_RP2350,
            from: FLASH_START_RP2350,
        },
        AddressRange {
            typ: AddressRangeType::NoContents,
            to: MAIN_RAM_END_RP2350,
            from: MAIN_RAM_START_RP2350,
        },
    ]
}

/// The RAM-style range table for the RP2350.
pub open spec fn spec_rp2350_address_ranges_ram() -> Seq<AddressRange> {
    seq![
        AddressRange {
            typ: AddressRangeType::Contents,
            to: MAIN_RAM_END_RP2350,
            from: MAIN_RAM_START_RP2350,
        },
        AddressRange {
            typ: AddressRangeType::Contents,
            to: XIP_SRAM_END_RP2350,
            from: XIP_SRAM_START_RP2350,
        },
        // for now the bootrom is ignored if present
        AddressRange { typ: AddressRangeType::Ignore, to: ROM_END_RP2350, from: ROM_START_RP2350 },
    ]
}

pub fn rp2040_address_ranges_flash() -> (r: Vec<AddressRange>)
    ensures
        r@ == spec_rp2040_address_ranges_flash(),
{
    let mut v: Vec<AddressRange> = Vec::new();
    v.push(AddressRange::new(FLASH_START_RP2040, FLASH_END_RP2040, AddressRangeType::Contents));
    v.push(
        AddressRange::new(MAIN_RAM_START_RP2040, MAIN_RAM_END_RP2040, AddressRangeType::NoContents),
    );
    v.push(
        AddressRange::new(
            MAIN_RAM_BANKED_START_RP2040,
            MAIN_RAM_BANKED_END_RP2040,
            AddressRangeType::NoContents,
        ),
    );
    proof {
        assert(v@ =~= spec_rp2040_address_ranges_flash());
    }
    v
}

pub fn rp2040_address_ranges_ram() -> (r: Vec<AddressRange>)
    ensures
        r@ == spec_rp2040_address_ranges_ram(),
{
    let mut v: Vec<AddressRange> = Vec::new();
    v.push(
        AddressRange::new(MAIN_RAM_START_RP2040, MAIN_RAM_END_RP2040, AddressRangeType::Contents),
    );
    v.push(
        AddressRange::new(XIP_SRAM_START_RP2040, XIP_SRAM_END_RP2040, AddressRangeType::Contents),
    );
    v.push(AddressRange::new(ROM_START_RP2040, ROM_END_RP2040, AddressRangeType::Ignore));
    proof {
        assert(v@ =~= spec_rp2040_address_ranges_ram());
    }
    v
}

pub fn rp2350_address_ranges_flash() -> (r: Vec<AddressRange>)
    ensures
        r@ == spec_rp2350_address_ranges_flash(),
{
    let mut v: Vec<AddressRange> = Vec::new();
    v.push(AddressRange::new(FLASH_START_RP2350, FLASH_END_RP2350, AddressRangeType::Contents));
    v.push(
        AddressRange::new(MAIN_RAM_START_RP2350, MAIN_RAM_END_RP2350, AddressRangeType::NoContents),
    );
    proof {
        assert(v@ =~= spec_rp2350_address_ranges_flash());
    }
    v
}

pub fn rp2350_address_ranges_ram() -> (r: Vec<AddressRange>)
    ensures
        r@ == spec_rp2350_address_ranges_ram(),
{
    let mut v: Vec<AddressRange> = Vec::new();
    v.push(
        AddressRange::new(MAIN_RAM_START_RP2350, MAIN_RAM_END_RP2350, AddressRangeType::Contents),
    );
    v.push(
        AddressRange::new(XIP_SRAM_START_RP2350, XIP_SRAM_END_RP2350, AddressRangeType::Contents),
    );
    v.push(AddressRange::new(ROM_START_RP2350, ROM_END_RP2350, AddressRangeType::Ignore));
    proof {
        assert(v@ =~= spec_rp2350_address_ranges_ram());
    }
    v
}

} // verus!
