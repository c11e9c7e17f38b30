//! The Raspberry Pi RP2350 board profile.

use vstd::prelude::*;

use crate::address_range::{
    rp2350_address_ranges_flash, rp2350_address_ranges_ram, spec_rp2350_address_ranges_flash,
    spec_rp2350_address_ranges_ram, FLASH_SECTOR_ERASE_SIZE, MAIN_RAM_END_RP2350,
    MAIN_RAM_START_RP2350, XIP_SRAM_END_RP2350, XIP_SRAM_START_RP2350,
};
use crate::boards::{AddressLocations, BoardInfo, UsbDevice};

verus! {

#[derive(Debug, Default, Clone, Copy, PartialEq, Eq, Structural)]
pub struct RP2350;

impl BoardInfo for RP2350 {
    fn is_device_board(&self, device: &UsbDevice) -> (r: bool)
        ensures
            r == (device.vendor_id == 0x2e8a || device.product_id == 0x000f),
    {
        if device.vendor_id == 0x2e8a || device.product_id == 0x000f {
            return true;
        }
        false
    }

    fn family_id(&self) -> (r: u32)
        ensures
            r == 0xe48bff59u32,
    {
        // the RP2350 Arm secure family id: the right one when the device
        // was brought up over BOOTSEL
        0xe48bff59
    }

    fn page_size(&self) -> (r: u32)
        ensures
            r == 256u32,
    {
        256
    }

    fn flash_sector_erase_size(&self) -> (r: u64)
        ensures
            r == FLASH_SECTOR_ERASE_SIZE,
    {
        4096
    }

    fn address_locations(&self) -> (r: AddressLocations)
        ensures
            r.address_ranges_ram matches Some(ram) && ram@ == spec_rp2350_address_ranges_ram(),
            r.address_ranges_flash matches Some(fl) && fl@ == spec_rp2350_address_ranges_flash(),
            r.main_ram_start == Some(MAIN_RAM_START_RP2350),
            r.main_ram_end == Some(MAIN_RAM_END_RP2350),
            r.xip_sram_start == Some(XIP_SRAM_START_RP2350),
            r.xip_sram_end == Some(XIP_SRAM_END_RP2350),
    {
        AddressLocations {
            address_ranges_ram: Some(rp2350_address_ranges_ram()),
            address_ranges_flash: Some(rp2350_address_ranges_flash()),
            main_ram_start: Some(MAIN_RAM_START_RP2350),
            main_ram_end: Some(MAIN_RAM_END_RP2350),
            xip_sram_start: Some(XIP_SRAM_START_RP2350),
            xip_sram_end: Some(XIP_SRAM_END_RP2350),
        }
    }

    fn board_name(&self) -> (r: String)
        ensures
            r@ == "rp2350"@,
    {
        "rp2350".to_owned()
    }
}

} // verus!
