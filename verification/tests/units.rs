// Unit tests of the classifier, detector, fragmenter, page map, boards
// and wire format, built on the library's own types.

use elf2uf2::address_range::{
    rp2040_address_ranges_flash, rp2040_address_ranges_ram, AddressRange, AddressRangeType,
};
use elf2uf2::boards::{Board, BoardInfo, BoardIter, UsbDevice, UsbVersion};
use elf2uf2::elf::{
    address_ranges_from_elf, get_page_fragments, is_ram_binary, realize_page, AddressRangesExt,
    AddressRangesFromElfError, ElfImage, Segment,
};
use elf2uf2::page_fragment::PageFragment;
use elf2uf2::page_map::PageMap;
use elf2uf2::uf2::{Uf2BlockFooter, Uf2BlockHeader};
use elf2uf2::{build_page_map, pad_to_sectors, validate_ram_entry, Elf2Uf2Error, Family};

fn seg(paddr: u64, filesz: u64, memsz: u64) -> Segment {
    Segment { kind: 1, file_offset: 0, vaddr: paddr, paddr, file_size: filesz, mem_size: memsz }
}

#[test]
fn address_range_constructors() {
    let r = AddressRange::new(16, 32, AddressRangeType::Contents);
    assert_eq!(r.from, 16);
    assert_eq!(r.to, 32);
    assert_eq!(r.typ, AddressRangeType::Contents);
    let d = AddressRange::default();
    assert_eq!(d.from, 0);
    assert_eq!(d.to, 0);
    assert_eq!(d.typ, AddressRangeType::Ignore);
}

#[test]
fn classifier_first_match_wins() {
    let ranges = vec![
        AddressRange::new(0, 100, AddressRangeType::Ignore),
        AddressRange::new(50, 200, AddressRangeType::Contents),
    ];
    // both ranges cover 60; the first in table order wins
    let r = ranges.range_for(60).unwrap();
    assert_eq!(r.typ, AddressRangeType::Ignore);
    assert!(!ranges.is_address_initialized(60));
    assert!(ranges.is_address_initialized(150));
    assert!(!ranges.is_address_initialized(250));
}

#[test]
fn classifier_requires_full_containment() {
    let ranges = vec![AddressRange::new(0, 100, AddressRangeType::Contents)];
    assert!(ranges.check_address_range(10, 10, 50, false).is_ok());
    // overlapping but not contained
    assert_eq!(
        ranges.check_address_range(90, 90, 20, false).unwrap_err(),
        AddressRangesFromElfError::SegmentInvalidForDevice(90, 110),
    );
}

#[test]
fn classifier_rejects_contents_for_uninitialized_memory() {
    let ranges = vec![AddressRange::new(0, 100, AddressRangeType::NoContents)];
    assert_eq!(
        ranges.check_address_range(10, 10, 50, false).unwrap_err(),
        AddressRangesFromElfError::ContentsForUninitializedMemory(10),
    );
    // the same span is fine when declared uninitialized
    assert!(ranges.check_address_range(10, 10, 50, true).is_ok());
}

#[test]
fn detector_back_translates_the_entry_point() {
    let ram = rp2040_address_ranges_ram();
    let flash = rp2040_address_ranges_flash();
    // virtual address differs from the physical flash location
    let s = Segment {
        kind: 1,
        file_offset: 0,
        vaddr: 0x2000_0000,
        paddr: 0x1000_0000,
        file_size: 256,
        mem_size: 256,
    };
    assert_eq!(is_ram_binary(0x2000_0010, &vec![s], &ram, &flash), Some(false));
    // loaded and executed in main RAM
    let s2 = seg(0x2000_0000, 256, 256);
    assert_eq!(is_ram_binary(0x2000_0010, &vec![s2], &ram, &flash), Some(true));
    // entry point outside every segment
    assert_eq!(is_ram_binary(0x0900_0000, &vec![s2], &ram, &flash), None);
}

#[test]
fn fragmenter_splits_unaligned_segments_across_pages() {
    let ranges = rp2040_address_ranges_flash();
    // 300 bytes starting 16 bytes into a page
    let s = seg(0x1000_0010, 300, 300);
    let pages = get_page_fragments(&vec![s], &ranges, 256).unwrap();
    assert_eq!(pages.len(), 2);
    assert_eq!(pages.addr_at(0), 0x1000_0000);
    assert_eq!(pages.addr_at(1), 0x1000_0100);
    let f0 = pages.fragments_at(0);
    assert_eq!(f0.len(), 1);
    assert_eq!(f0[0].page_offset, 16);
    assert_eq!(f0[0].bytes, 240);
    let f1 = pages.fragments_at(1);
    assert_eq!(f1[0].page_offset, 0);
    assert_eq!(f1[0].bytes, 60);
}

#[test]
fn fragmenter_rejects_overlapping_segments() {
    let ranges = rp2040_address_ranges_flash();
    let a = seg(0x1000_0000, 64, 64);
    let b = seg(0x1000_0020, 64, 64);
    assert_eq!(
        get_page_fragments(&vec![a, b], &ranges, 256).unwrap_err(),
        AddressRangesFromElfError::SegmentsOverlap,
    );
    // two adjacent runs on the same page are fine
    let c = seg(0x1000_0040, 64, 64);
    assert!(get_page_fragments(&vec![a, c], &ranges, 256).is_ok());
}

#[test]
fn fragmenter_rejects_segments_outside_the_device() {
    let ranges = rp2040_address_ranges_flash();
    let s = seg(0x5000_0000, 64, 64);
    assert_eq!(
        get_page_fragments(&vec![s], &ranges, 256).unwrap_err(),
        AddressRangesFromElfError::SegmentInvalidForDevice(0x5000_0000, 0x5000_0040),
    );
}

#[test]
fn fragmenter_rejects_contents_mapped_onto_uninitialized_ranges() {
    let ranges = rp2040_address_ranges_flash();
    // file-backed bytes aimed at main RAM, which must stay uninitialized
    // in a Flash-style image
    let s = seg(0x2000_0000, 64, 64);
    assert_eq!(
        get_page_fragments(&vec![s], &ranges, 256).unwrap_err(),
        AddressRangesFromElfError::ContentsForUninitializedMemory(0x2000_0000),
    );
}

#[test]
fn page_map_stays_sorted_and_rejects_collisions() {
    let mut pm = PageMap::new();
    assert!(pm.is_empty());
    pm.add_fragment(0x200, PageFragment::new(0, 0, 16)).unwrap();
    pm.add_fragment(0x100, PageFragment::new(16, 0, 16)).unwrap();
    pm.add_fragment(0x200, PageFragment::new(32, 16, 16)).unwrap();
    assert_eq!(pm.len(), 2);
    assert_eq!(pm.addr_at(0), 0x100);
    assert_eq!(pm.addr_at(1), 0x200);
    assert_eq!(pm.last_addr(), 0x200);
    assert_eq!(pm.keys(), vec![0x100, 0x200]);
    assert!(pm.contains_key(0x100));
    assert!(!pm.contains_key(0x300));
    // a partially overlapping run on page 0x200 collides
    assert_eq!(
        pm.add_fragment(0x200, PageFragment::new(48, 8, 16)).unwrap_err(),
        AddressRangesFromElfError::SegmentsOverlap,
    );
    pm.insert_empty(0x180);
    assert_eq!(pm.keys(), vec![0x100, 0x180, 0x200]);
    assert_eq!(pm.fragments_at(1).len(), 0);
}

#[test]
fn pad_to_sectors_fills_touched_sectors_below_the_last_page() {
    let mut pm = PageMap::new();
    pm.add_fragment(0x1000_0000, PageFragment::new(0, 0, 256)).unwrap();
    pm.add_fragment(0x1000_2000, PageFragment::new(256, 0, 256)).unwrap();
    pad_to_sectors(&mut pm, 4096, 256);
    // all 16 slots of the first sector, and nothing past the last page
    assert_eq!(pm.len(), 17);
    for i in 0..16 {
        assert_eq!(pm.addr_at(i), 0x1000_0000 + 256 * i as u64);
    }
    assert_eq!(pm.addr_at(16), 0x1000_2000);
    // the inserted slots are empty, the original pages keep their fragments
    assert_eq!(pm.fragments_at(1).len(), 0);
    assert_eq!(pm.fragments_at(0).len(), 1);
    assert_eq!(pm.fragments_at(16).len(), 1);
}

#[test]
fn validate_ram_entry_expects_the_lowest_page_or_one() {
    let mut pm = PageMap::new();
    pm.add_fragment(0x2000_0100, PageFragment::new(0, 0, 256)).unwrap();
    pm.add_fragment(0x2000_0000, PageFragment::new(256, 0, 256)).unwrap();
    let ok = validate_ram_entry(&pm, 0x2000_0001, 0x2000_0000, 0x2004_2000, 0x1500_0000, 0x1500_4000);
    assert!(ok.is_ok());
    let err = validate_ram_entry(&pm, 0x2000_0101, 0x2000_0000, 0x2004_2000, 0x1500_0000, 0x1500_4000);
    assert_eq!(err.unwrap_err(), Elf2Uf2Error::RamBinaryEntryPoint(0x2000_0001, 0x2000_0101));
}

#[test]
fn realize_page_copies_each_fragment() {
    let input: Vec<u8> = (0u8..64).collect();
    let frags = vec![PageFragment::new(0, 8, 4), PageFragment::new(32, 0, 2)];
    let mut buf = vec![0u8; 476];
    realize_page(&input, &frags, &mut buf).unwrap();
    assert_eq!(&buf[8..12], &[0, 1, 2, 3]);
    assert_eq!(&buf[0..2], &[32, 33]);
    assert!(buf[12..].iter().all(|&x| x == 0));
    // a fragment reaching past the input is an error
    let bad = vec![PageFragment::new(1000, 0, 4)];
    let mut buf2 = vec![0u8; 476];
    assert_eq!(
        realize_page(&input, &bad, &mut buf2).unwrap_err(),
        Elf2Uf2Error::FailedToRealizePages,
    );
}

#[test]
fn address_ranges_from_elf_reflects_segments() {
    let s = seg(0x1000_0000, 100, 300);
    let ranges = address_ranges_from_elf(&vec![s]).unwrap();
    assert_eq!(ranges.len(), 2);
    assert_eq!(ranges[0], AddressRange::new(0x1000_0000, 0x1000_0064, AddressRangeType::Contents));
    assert_eq!(
        ranges[1],
        AddressRange::new(0x1000_0064, 0x1000_012c, AddressRangeType::NoContents),
    );
}

#[test]
fn build_page_map_on_structs() {
    let elf = ElfImage { entry: 0x1000_0000, segments: vec![seg(0x1000_0000, 256, 256)] };
    let pm = build_page_map(&elf, Family::RP2040).unwrap();
    assert_eq!(pm.len(), 1);
    assert_eq!(pm.addr_at(0), 0x1000_0000);
    // RP2350 families share the RP2350 tables
    let pm2 = build_page_map(&elf, Family::RP2350_ARM_S).unwrap();
    assert_eq!(pm2.len(), 1);
}

#[test]
fn family_identifiers() {
    assert_eq!(Family::default(), Family::RP2040);
    assert_eq!(Family::RP2040.family_id(), 0xe48bff56);
    assert_eq!(Family::RP2XXX_ABSOLUTE.family_id(), 0xe48bff57);
    assert_eq!(Family::RP2XXX_DATA.family_id(), 0xe48bff58);
    assert_eq!(Family::RP2350_ARM_S.family_id(), 0xe48bff59);
    assert_eq!(Family::RP2350_RISCV.family_id(), 0xe48bff5a);
    assert_eq!(Family::RP2350_ARM_NS.family_id(), 0xe48bff5b);
}

#[test]
fn board_registry() {
    let mut it = BoardIter::new();
    let first = it.next().unwrap();
    let second = it.next().unwrap();
    assert!(it.next().is_none());
    assert_eq!(first.board_name(), "rp2040");
    assert_eq!(second.board_name(), "rp2350");
    assert_eq!(first.family_id(), 0xe48bff56);
    assert_eq!(second.family_id(), 0xe48bff59);
    assert_eq!(first.page_size(), 256);
    assert_eq!(first.flash_sector_erase_size(), 4096);
    let locations = first.address_locations();
    assert_eq!(locations.main_ram_start, Some(0x2000_0000));
    assert_eq!(locations.xip_sram_end, Some(0x1500_4000));
    assert_eq!(locations.address_ranges_flash.unwrap().len(), 3);
}

#[test]
fn board_lookup_ignores_ascii_case() {
    let b = BoardIter::find_by_name("RP2040").unwrap();
    assert_eq!(b.family_id(), 0xe48bff56);
    let b2 = BoardIter::find_by_name("rp2350").unwrap();
    assert_eq!(b2.family_id(), 0xe48bff59);
    assert!(BoardIter::find_by_name("rp9999").is_none());
}

#[test]
fn board_device_matching() {
    let device = UsbDevice {
        bus_number: 1,
        address: 2,
        vendor_id: 0x2e8a,
        product_id: 0x0003,
        version: UsbVersion(1, 0, 0),
    };
    let rp2040 = BoardIter::find_by_name("rp2040").unwrap();
    assert!(rp2040.is_device_board(&device));
    let other = UsbDevice { vendor_id: 0x1234, product_id: 0x5678, ..device };
    assert!(!rp2040.is_device_board(&other));
    match rp2040 {
        Board::RP2040(_) => {}
        _ => panic!("rp2040 lookup returned another board"),
    }
}

#[test]
fn uf2_block_header_wire_bytes() {
    let h = Uf2BlockHeader {
        magic_start0: 0x0A324655,
        magic_start1: 0x9E5D5157,
        flags: 0x2000,
        target_addr: 0x1000_0100,
        payload_size: 256,
        block_no: 3,
        num_blocks: 7,
        file_size: 0xe48bff56,
    };
    let b = h.to_bytes();
    assert_eq!(b.len(), 32);
    assert_eq!(&b[0..4], &[0x55, 0x46, 0x32, 0x0A]);
    assert_eq!(&b[4..8], &[0x57, 0x51, 0x5D, 0x9E]);
    assert_eq!(&b[12..16], &[0x00, 0x01, 0x00, 0x10]);
    assert_eq!(&b[20..24], &[3, 0, 0, 0]);
    assert_eq!(&b[24..28], &[7, 0, 0, 0]);
    let f = Uf2BlockFooter { magic_end: 0x0AB16F30 };
    assert_eq!(f.to_bytes(), vec![0x30, 0x6F, 0xB1, 0x0A]);
}
