//! Board profiles: the per-device constants (family id, page size, erase
//! sector size, address-range tables) that the conversion is configured
//! with, and a small registry to look a board up by name.

use vstd::prelude::*;
use vstd::string::StringSliceAdditionalSpecFns;

use crate::address_range::AddressRange;

pub mod circuit_playground_bluefruit;
pub mod rp2040;
pub mod rp2350;

pub use rp2040::RP2040;
pub use rp2350::RP2350;

verus! {

/// Per-device constants, keyed by scalar getters; the range tables come as
/// owned vectors.
pub trait BoardConfig {
    fn flash_sector_erase_size(&self) -> u32;

    fn main_ram_start(&self) -> u32;

    fn main_ram_end(&self) -> u32;

    fn xip_ram_start(&self) -> u32;

    fn xip_ram_end(&self) -> u32;

    fn family_id(&self) -> u32;

    fn address_ranges_flash(&self) -> Vec<AddressRange>;

    fn address_range_ram(&self) -> Vec<AddressRange>;
}

/// This is the version of the firmware on the usb device
#[derive(Debug, Clone, Copy, PartialEq, Eq, Structural)]
pub struct UsbVersion(pub u8, pub u8, pub u8);

/// The identification a USB device presents, as read off the bus.
#[derive(Debug, Clone, Copy, PartialEq, Eq, Structural)]
pub struct UsbDevice {
    pub bus_number: u8,
    pub address: u8,
    pub vendor_id: u16,
    pub product_id: u16,
    pub version: UsbVersion,
}

/// The optional address-layout fields of a board; a profile missing the
/// RAM-range fields disables RAM-style detection for that device.
#[derive(Debug, Clone)]
pub struct AddressLocations {
    pub address_ranges_ram: Option<Vec<AddressRange>>,
    pub address_ranges_flash: Option<Vec<AddressRange>>,
    pub main_ram_start: Option<u64>,
    pub main_ram_end: Option<u64>,
    pub xip_sram_start: Option<u64>,
    pub xip_sram_end: Option<u64>,
}

impl Default for AddressLocations {
    fn default() -> (r: Self)
        ensures
            r.address_ranges_ram is None,
            r.address_ranges_flash is None,
            r.main_ram_start is None,
            r.main_ram_end is None,
            r.xip_sram_start is None,
            r.xip_sram_end is None,
    {
        Self {
            address_ranges_ram: None,
            address_ranges_flash: None,
            main_ram_start: None,
            main_ram_end: None,
            xip_sram_start: None,
            xip_sram_end: None,
        }
    }
}

/// A board profile: how to recognize the device on the bus and which
/// constants to convert with.
pub trait BoardInfo {
    /// Check if the board is connected to the specified UsbDevice
    fn is_device_board(&self, device: &UsbDevice) -> bool;

    /// Returns the proper family id to use for the uf2 device
    fn family_id(&self) -> u32;

    /// The number of payload bytes per block; it must stay below the
    /// 476-byte payload field.
    fn page_size(&self) -> u32;

    /// The granularity the device's flash erases at.
    fn flash_sector_erase_size(&self) -> u64;

    /// The board's address layout.
    fn address_locations(&self) -> AddressLocations;

    /// Get the board's name
    fn board_name(&self) -> String;
}

/// One of the known boards, as a closed sum so the registry stays
/// statically checkable.
#[derive(Debug, Clone, Copy, PartialEq, Eq, Structural)]
pub enum Board {
    RP2040(RP2040),
    RP2350(RP2350),
}

impl BoardInfo for Board {
    fn is_device_board(&self, device: &UsbDevice) -> bool {
        match self {
            Board::RP2040(b) => b.is_device_board(device),
            Board::RP2350(b) => b.is_device_board(device),
        }
    }

    fn family_id(&self) -> u32 {
        match self {
            Board::RP2040(b) => BoardInfo::family_id(b),
            Board::RP2350(b) => BoardInfo::family_id(b),
        }
    }

    fn page_size(&self) -> u32 {
        match self {
            Board::RP2040(b) => b.page_size(),
            Board::RP2350(b) => b.page_size(),
        }
    }

    fn flash_sector_erase_size(&self) -> u64 {
        match self {
            Board::RP2040(b) => BoardInfo::flash_sector_erase_size(b),
            Board::RP2350(b) => BoardInfo::flash_sector_erase_size(b),
        }
    }

    fn address_locations(&self) -> AddressLocations {
        match self {
            Board::RP2040(b) => b.address_locations(),
            Board::RP2350(b) => b.address_locations(),
        }
    }

    fn board_name(&self) -> String {
        match self {
            Board::RP2040(b) => b.board_name(),
            Board::RP2350(b) => b.board_name(),
        }
    }
}

/// An ASCII byte, folded to lower case.
pub open spec fn spec_lower_byte(b: u8) -> u8 {
    if 65 <= b <= 90 {
        (b + 32) as u8
    } else {
        b
    }
}

pub open spec fn spec_lower_bytes(s: Seq<u8>) -> Seq<u8> {
    s.map_values(|b: u8| spec_lower_byte(b))
}

/// Two byte strings are equal up to ASCII case.
pub open spec fn spec_eq_ignore_ascii_case(a: Seq<u8>, b: Seq<u8>) -> bool {
    spec_lower_bytes(a) == spec_lower_bytes(b)
}

fn lower_byte(b: u8) -> (r: u8)
    ensures
        r == spec_lower_byte(b),
{
    if b >= 65 && b <= 90 {
        b + 32
    } else {
        b
    }
}

/// Compares two strings byte for byte, folding ASCII letters to lower
/// case.
#[verifier::loop_isolation(false)]
fn str_eq_ignore_ascii_case(a: &str, b: &str) -> (r: bool)
    ensures
        r == spec_eq_ignore_ascii_case(a.spec_bytes(), b.spec_bytes()),
{
    let ab = a.as_bytes();
    let bb = b.as_bytes();
    if ab.len() != bb.len() {
        proof {
            assert(spec_lower_bytes(a.spec_bytes()).len() != spec_lower_bytes(
                b.spec_bytes(),
            ).len());
        }
        return false;
    }
    let mut i: usize = 0;
    while i < ab.len()
        invariant
            0 <= i <= ab@.len(),
            ab@.len() == bb@.len(),
            forall|j: int|
                0 <= j < i ==> spec_lower_byte(#[trigger] ab@[j]) == spec_lower_byte(bb@[j]),
        decreases ab@.len() - i,
    {
        if lower_byte(ab[i]) != lower_byte(bb[i]) {
            proof {
                assert(spec_lower_bytes(ab@)[i as int] != spec_lower_bytes(bb@)[i as int]);
            }
            return false;
        }
        i = i + 1;
    }
    proof {
        assert(spec_lower_bytes(ab@) =~= spec_lower_bytes(bb@));
    }
    true
}

/// Iterates over every board the registry defines, RP2040 first.
pub struct BoardIter {
    next_idx: usize,
}

impl BoardIter {
    /// The number of boards this iterator has already handed out.
    pub closed spec fn spec_pos(&self) -> int {
        self.next_idx as int
    }

    /// Creates a new BoardIter
    pub fn new() -> (r: Self)
        ensures
            r.spec_pos() == 0,
    {
        Self { next_idx: 0 }
    }

    /// The next board of the registry, in its fixed order.
    pub fn next(&mut self) -> (r: Option<Board>)
        ensures
            old(self).spec_pos() == 0 ==> r == Some(Board::RP2040(RP2040))
                && final(self).spec_pos() == 1,
            old(self).spec_pos() == 1 ==> r == Some(Board::RP2350(RP2350))
                && final(self).spec_pos() == 2,
            old(self).spec_pos() >= 2 ==> r is None
                && final(self).spec_pos() == old(self).spec_pos(),
    {
        if self.next_idx == 0 {
            self.next_idx = 1;
            Some(Board::RP2040(RP2040))
        } else if self.next_idx == 1 {
            self.next_idx = 2;
            Some(Board::RP2350(RP2350))
        } else {
            None
        }
    }

    /// Finds the first board whose name equals `name` up to ASCII case.
    pub fn find_by_name(name: &str) -> (r: Option<Board>)
        ensures
            r == (if spec_eq_ignore_ascii_case(name.spec_bytes(), "rp2040".spec_bytes()) {
                Some(Board::RP2040(RP2040))
            } else if spec_eq_ignore_ascii_case(name.spec_bytes(), "rp2350".spec_bytes()) {
                Some(Board::RP2350(RP2350))
            } else {
                None::<Board>
            }),
    {
        if str_eq_ignore_ascii_case(name, "rp2040") {
            Some(Board::RP2040(RP2040))
        } else if str_eq_ignore_ascii_case(name, "rp2350") {
            Some(Board::RP2350(RP2350))
        } else {
            None
        }
    }
}

} // verus!
