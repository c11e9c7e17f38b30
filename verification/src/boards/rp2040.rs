//! The Raspberry Pi RP2040 board profile.

use vstd::prelude::*;

use crate::address_range::{
    rp2040_address_ranges_flash, rp2040_address_ranges_ram, spec_rp2040_address_ranges_flash,
    spec_rp2040_address_ranges_ram, FLASH_SECTOR_ERASE_SIZE, MAIN_RAM_END_RP2040,
    MAIN_RAM_START_RP2040, XIP_SRAM_END_RP2040, XIP_SRAM_START_RP2040,
};
use crate::boards::{AddressLocations, BoardInfo, UsbDevice};

verus! {

#[derive(Debug, Default, Clone, Copy, PartialEq, Eq, Structural)]
pub struct RP2040;

impl BoardInfo for RP2040 {
    fn is_device_board(&self, device: &UsbDevice) -> (r: bool)
        ensures
            r == (device.vendor_id == 0x2e8a || device.product_id == 0x0003),
    {
        if device.vendor_id == 0x2e8a || device.product_id == 0x0003 {
            return true;
        }
        false
    }

    fn family_id(&self) -> (r: u32)
        ensures
            r == 0xe48bff56u32,
    {
        0xe48bff56
    }

    fn page_size(&self) -> (r: u32)
        ensures
            r == 256u32,
    {
        256
    }

    fn flash_sector_erase_size(&self) -> (r: u64)
        ensures
            r == FLASH_SECTOR_ERASE_SIZE,
    {
        4096
    }

    fn address_locations(&self) -> (r: AddressLocations)
        ensures
            r.address_ranges_ram matches Some(ram) && ram@ == spec_rp2040_address_ranges_ram(),
            r.address_ranges_flash matches Some(fl) && fl@ == spec_rp2040_address_ranges_flash(),
            r.main_ram_start == Some(MAIN_RAM_START_RP2040),
            r.main_ram_end == Some(MAIN_RAM_END_RP2040),
            r.xip_sram_start == Some(XIP_SRAM_START_RP2040),
            r.xip_sram_end == Some(XIP_SRAM_END_RP2040),
    {
        AddressLocations {
            address_ranges_ram: Some(rp2040_address_ranges_ram()),
            address_ranges_flash: Some(rp2040_address_ranges_flash()),
            main_ram_start: Some(MAIN_RAM_START_RP2040),
            main_ram_end: Some(MAIN_RAM_END_RP2040),
            xip_sram_start: Some(XIP_SRAM_START_RP2040),
            xip_sram_end: Some(XIP_SRAM_END_RP2040),
        }
    }

    fn board_name(&self) -> (r: String)
        ensures
            r@ == "rp2040"@,
    {
        "rp2040".to_owned()
    }
}

} // verus!
