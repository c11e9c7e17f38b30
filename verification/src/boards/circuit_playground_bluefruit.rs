//! The Adafruit Circuit Playground Bluefruit (nRF52840) board profile,
//! with the memory layout its UF2 bootloader expects.

use vstd::prelude::*;

use crate::address_range::{AddressRange, AddressRangeType};
use crate::boards::BoardConfig;

verus! {

pub const CPB_FLASH_SECTOR_ERASE_SIZE: u32 = 4096;

pub const CPB_MAIN_RAM_START: u32 = 0x0080_0000;

pub const CPB_MAIN_RAM_END: u32 = 0x1000_0000;

pub const CPB_FLASH_START: u32 = 0x0010_0000;

pub const CPB_FLASH_END: u32 = 0x0080_0000;

pub const CPB_XIP_SRAM_START: u32 = 0x1200_0000;

pub const CPB_XIP_SRAM_END: u32 = 0x19FF_FFFF;

pub const CPB_MAIN_RAM_BANKED_START: u32 = 0x6000_0000;

pub const CPB_MAIN_RAM_BANKED_END: u32 = 0xA000_0000;

pub const CPB_BOOTLOADER_FLASH_START: u32 = 0x0000_0000;

pub const CPB_BOOTLOADER_FLASH_END: u32 = 0x0010_0000;

/// The Flash-style range table of the board.
pub open spec fn spec_cpb_address_ranges_flash() -> Seq<AddressRange> {
    seq![
        AddressRange {
            typ: AddressRangeType::Contents,
            to: CPB_FLASH_END as u64,
            from: CPB_FLASH_START as u64,
        },
        AddressRange {
            typ: AddressRangeType::NoContents,
            to: CPB_MAIN_RAM_END as u64,
            from: CPB_MAIN_RAM_START as u64,
        },
        AddressRange {
            typ: AddressRangeType::NoContents,
            to: CPB_MAIN_RAM_BANKED_END as u64,
            from: CPB_MAIN_RAM_BANKED_START as u64,
        },
    ]
}

/// The RAM-style range table of the board.
pub open spec fn spec_cpb_address_ranges_ram() -> Seq<AddressRange> {
    seq![
        AddressRange {
            typ: AddressRangeType::Contents,
            to: CPB_MAIN_RAM_END as u64,
            from: CPB_MAIN_RAM_START as u64,
        },
        AddressRange {
            typ: AddressRangeType::Contents,
            to: CPB_XIP_SRAM_END as u64,
            from: CPB_XIP_SRAM_START as u64,
        },
        AddressRange {
            typ: AddressRangeType::Ignore,
            to: CPB_BOOTLOADER_FLASH_END as u64,
            from: CPB_BOOTLOADER_FLASH_START as u64,
        },
    ]
}

#[derive(Debug, Default, Clone, Copy, PartialEq, Eq, Structural)]
pub struct CircuitPlaygroundBluefruit;

impl BoardConfig for CircuitPlaygroundBluefruit {
    fn flash_sector_erase_size(&self) -> (r: u32)
        ensures
            r == CPB_FLASH_SECTOR_ERASE_SIZE,
    {
        CPB_FLASH_SECTOR_ERASE_SIZE
    }

    fn main_ram_start(&self) -> (r: u32)
        ensures
            r == CPB_MAIN_RAM_START,
    {
        CPB_MAIN_RAM_START
    }

    fn main_ram_end(&self) -> (r: u32)
        ensures
            r == CPB_MAIN_RAM_END,
    {
        CPB_MAIN_RAM_END
    }

    fn xip_ram_start(&self) -> (r: u32)
        ensures
            r == CPB_XIP_SRAM_START,
    {
        CPB_XIP_SRAM_START
    }

    fn xip_ram_end(&self) -> (r: u32)
        ensures
            r == CPB_XIP_SRAM_END,
    {
        CPB_XIP_SRAM_END
    }

    fn family_id(&self) -> (r: u32)
        ensures
            r == 0xada52840u32,
    {
        0xada52840
    }

    fn address_ranges_flash(&self) -> (r: Vec<AddressRange>)
        ensures
            r@ == spec_cpb_address_ranges_flash(),
    {
        let mut v: Vec<AddressRange> = Vec::new();
        v.push(
            AddressRange::new(
                CPB_FLASH_START as u64,
                CPB_FLASH_END as u64,
                AddressRangeType::Contents,
            ),
        );
        v.push(
            AddressRange::new(
                CPB_MAIN_RAM_START as u64,
                CPB_MAIN_RAM_END as u64,
                AddressRangeType::NoContents,
            ),
        );
        v.push(
            AddressRange::new(
                CPB_MAIN_RAM_BANKED_START as u64,
                CPB_MAIN_RAM_BANKED_END as u64,
                AddressRangeType::NoContents,
            ),
        );
        proof {
            assert(v@ =~= spec_cpb_address_ranges_flash());
        }
        v
    }

    fn address_range_ram(&self) -> (r: Vec<AddressRange>)
        ensures
            r@ == spec_cpb_address_ranges_ram(),
    {
        let mut v: Vec<AddressRange> = Vec::new();
        v.push(
            AddressRange::new(
                CPB_MAIN_RAM_START as u64,
                CPB_MAIN_RAM_END as u64,
                AddressRangeType::Contents,
            ),
        );
        v.push(
            AddressRange::new(
                CPB_XIP_SRAM_START as u64,
                CPB_XIP_SRAM_END as u64,
                AddressRangeType::Contents,
            ),
        );
        v.push(
            AddressRange::new(
                CPB_BOOTLOADER_FLASH_START as u64,
                CPB_BOOTLOADER_FLASH_END as u64,
                AddressRangeType::Ignore,
            ),
        );
        proof {
            assert(v@ =~= spec_cpb_address_ranges_ram());
        }
        v
    }
}

} // verus!
