// End-to-end conversions on synthetic ELF images, checked byte for byte
// against independently constructed UF2 streams.

use elf2uf2::{elf2uf2, Elf2Uf2Error, Family, NoProgress};
use elf2uf2::elf::ElfParseError;

/// Appends a 32-bit little-endian value.
fn push_u32(out: &mut Vec<u8>, x: u32) {
    out.extend_from_slice(&x.to_le_bytes());
}

/// Appends a 16-bit little-endian value.
fn push_u16(out: &mut Vec<u8>, x: u16) {
    out.extend_from_slice(&x.to_le_bytes());
}

/// A program-header entry for the synthetic images.
#[derive(Clone, Copy)]
struct Ph {
    kind: u32,
    offset: u32,
    vaddr: u32,
    paddr: u32,
    filesz: u32,
    memsz: u32,
}

/// Builds a little-endian ELF32 ARM image with the given entry point,
/// program headers and trailing content bytes.
fn make_elf(entry: u32, phs: &[Ph], content: &[u8]) -> Vec<u8> {
    let mut out = Vec::new();
    out.extend_from_slice(&[0x7f, 0x45, 0x4c, 0x46, 1, 1, 1, 0]);
    out.extend_from_slice(&[0; 8]);
    push_u16(&mut out, 2); // e_type: executable
    push_u16(&mut out, 40); // e_machine: ARM
    push_u32(&mut out, 1); // e_version
    push_u32(&mut out, entry);
    push_u32(&mut out, 52); // e_phoff: right after this header
    push_u32(&mut out, 0); // e_shoff
    push_u32(&mut out, 0); // e_flags
    push_u16(&mut out, 52); // e_ehsize
    push_u16(&mut out, 32); // e_phentsize
    push_u16(&mut out, phs.len() as u16);
    push_u16(&mut out, 0); // e_shentsize
    push_u16(&mut out, 0); // e_shnum
    push_u16(&mut out, 0); // e_shstrndx
    assert_eq!(out.len(), 52);
    for ph in phs {
        push_u32(&mut out, ph.kind);
        push_u32(&mut out, ph.offset);
        push_u32(&mut out, ph.vaddr);
        push_u32(&mut out, ph.paddr);
        push_u32(&mut out, ph.filesz);
        push_u32(&mut out, ph.memsz);
        push_u32(&mut out, 5); // p_flags
        push_u32(&mut out, 2); // p_align
    }
    out.extend_from_slice(content);
    out
}

/// The expected 512-byte UF2 block, built independently of the library.
fn expected_block(
    target_addr: u32,
    block_no: u32,
    num_blocks: u32,
    family_id: u32,
    payload: &[u8],
) -> Vec<u8> {
    assert!(payload.len() <= 476);
    let mut out = Vec::new();
    push_u32(&mut out, 0x0A324655);
    push_u32(&mut out, 0x9E5D5157);
    push_u32(&mut out, 0x2000);
    push_u32(&mut out, target_addr);
    push_u32(&mut out, 256);
    push_u32(&mut out, block_no);
    push_u32(&mut out, num_blocks);
    push_u32(&mut out, family_id);
    out.extend_from_slice(payload);
    out.resize(508, 0);
    push_u32(&mut out, 0x0AB16F30);
    out
}

/// The offset of the first content byte when `n` program headers precede
/// it.
fn content_offset(n: u32) -> u32 {
    52 + 32 * n
}

#[test]
fn hello_usb() {
    // one fully initialized flash page
    let content: Vec<u8> = (0..256).map(|i| i as u8).collect();
    let bytes_in = make_elf(
        0x1000_0000,
        &[Ph {
            kind: 1,
            offset: content_offset(1),
            vaddr: 0x1000_0000,
            paddr: 0x1000_0000,
            filesz: 256,
            memsz: 256,
        }],
        &content,
    );
    let bytes_out = elf2uf2(&bytes_in, Family::RP2040, &mut NoProgress).unwrap();
    let expected = expected_block(0x1000_0000, 0, 1, 0xe48bff56, &content);
    assert_eq!(bytes_out, expected);
}

#[test]
fn hello_serial() {
    // two consecutive flash pages of one segment
    let content: Vec<u8> = (0..512).map(|i| (i % 251) as u8).collect();
    let bytes_in = make_elf(
        0x1000_0000,
        &[Ph {
            kind: 1,
            offset: content_offset(1),
            vaddr: 0x1000_0000,
            paddr: 0x1000_0000,
            filesz: 512,
            memsz: 512,
        }],
        &content,
    );
    let bytes_out = elf2uf2(&bytes_in, Family::RP2040, &mut NoProgress).unwrap();
    let mut expected = expected_block(0x1000_0000, 0, 2, 0xe48bff56, &content[..256]);
    expected.extend_from_slice(&expected_block(0x1000_0100, 1, 2, 0xe48bff56, &content[256..]));
    assert_eq!(bytes_out, expected);
}

#[test]
fn main_hello_usb() {
    // a RAM-style image whose entry point sits at its lowest page, OR 0x1
    let content: Vec<u8> = (0..256).map(|i| (255 - i) as u8).collect();
    let bytes_in = make_elf(
        0x2000_0001,
        &[Ph {
            kind: 1,
            offset: content_offset(1),
            vaddr: 0x2000_0000,
            paddr: 0x2000_0000,
            filesz: 256,
            memsz: 256,
        }],
        &content,
    );
    let bytes_out = elf2uf2(&bytes_in, Family::RP2040, &mut NoProgress).unwrap();
    let expected = expected_block(0x2000_0000, 0, 1, 0xe48bff56, &content);
    assert_eq!(bytes_out, expected);
}

#[test]
fn main_hello_serial() {
    // a flash image with a zero-fill tail in main RAM; converting twice
    // produces identical bytes
    let content: Vec<u8> = (0..256).map(|i| (i * 7 % 256) as u8).collect();
    let phs = [
        Ph {
            kind: 1,
            offset: content_offset(2),
            vaddr: 0x1000_0000,
            paddr: 0x1000_0000,
            filesz: 256,
            memsz: 256,
        },
        Ph {
            kind: 1,
            offset: 0,
            vaddr: 0x2000_0000,
            paddr: 0x2000_0000,
            filesz: 0,
            memsz: 1024,
        },
    ];
    let bytes_in = make_elf(0x1000_0000, &phs, &content);
    let first = elf2uf2(&bytes_in, Family::RP2040, &mut NoProgress).unwrap();
    let second = elf2uf2(&bytes_in, Family::RP2040, &mut NoProgress).unwrap();
    assert_eq!(first, second);
    let expected = expected_block(0x1000_0000, 0, 1, 0xe48bff56, &content);
    assert_eq!(first, expected);
}

#[test]
fn flash_image_pads_touched_sectors() {
    // pages at 0x10000000 and 0x10002000: the first sector must be fully
    // padded below the highest page, the final sector must not be
    let content: Vec<u8> = vec![0xAB; 512];
    let phs = [
        Ph {
            kind: 1,
            offset: content_offset(2),
            vaddr: 0x1000_0000,
            paddr: 0x1000_0000,
            filesz: 256,
            memsz: 256,
        },
        Ph {
            kind: 1,
            offset: content_offset(2) + 256,
            vaddr: 0x1000_2000,
            paddr: 0x1000_2000,
            filesz: 256,
            memsz: 256,
        },
    ];
    let bytes_in = make_elf(0x1000_0000, &phs, &content);
    let bytes_out = elf2uf2(&bytes_in, Family::RP2040, &mut NoProgress).unwrap();
    // 16 pages for the first sector, plus the final page
    assert_eq!(bytes_out.len(), 512 * 17);
    // every block is framed, with ascending block numbers and addresses
    for i in 0..17u32 {
        let b = &bytes_out[512 * i as usize..512 * (i + 1) as usize];
        assert_eq!(&b[0..4], &0x0A324655u32.to_le_bytes());
        assert_eq!(&b[4..8], &0x9E5D5157u32.to_le_bytes());
        assert_eq!(&b[20..24], &i.to_le_bytes());
        assert_eq!(&b[24..28], &17u32.to_le_bytes());
        assert_eq!(&b[508..512], &0x0AB16F30u32.to_le_bytes());
        let addr = if i < 16 { 0x1000_0000 + 256 * i } else { 0x1000_2000 };
        assert_eq!(&b[12..16], &addr.to_le_bytes());
    }
    // the padding pages carry zero payloads
    let b1 = &bytes_out[512 + 32..512 + 508];
    assert!(b1.iter().all(|&x| x == 0));
}

#[test]
fn example_scenario_flash_bss() {
    // a Contents segment at 0x10000100 and a zero-fill-only segment after
    // it: only the first produces page contents, the second passes the
    // uninitialized-range check
    let content: Vec<u8> = vec![0x5A; 256];
    let phs = [
        Ph {
            kind: 1,
            offset: content_offset(2),
            vaddr: 0x1000_0100,
            paddr: 0x1000_0100,
            filesz: 256,
            memsz: 256,
        },
        Ph {
            kind: 1,
            offset: 0,
            vaddr: 0x1000_0200,
            paddr: 0x1000_0200,
            filesz: 0,
            memsz: 256,
        },
    ];
    let bytes_in = make_elf(0x1000_0100, &phs, &content);
    let bytes_out = elf2uf2(&bytes_in, Family::RP2040, &mut NoProgress).unwrap();
    // sector padding inserts the empty page at 0x10000000 below the highest
    let mut expected = expected_block(0x1000_0000, 0, 2, 0xe48bff56, &[]);
    expected.extend_from_slice(&expected_block(0x1000_0100, 1, 2, 0xe48bff56, &content));
    assert_eq!(bytes_out, expected);
}

#[test]
fn ram_entry_point_mismatch_is_rejected() {
    let content: Vec<u8> = vec![1; 256];
    let bytes_in = make_elf(
        0x2000_0005,
        &[Ph {
            kind: 1,
            offset: content_offset(1),
            vaddr: 0x2000_0000,
            paddr: 0x2000_0000,
            filesz: 256,
            memsz: 256,
        }],
        &content,
    );
    let err = elf2uf2(&bytes_in, Family::RP2040, &mut NoProgress).unwrap_err();
    assert_eq!(err, Elf2Uf2Error::RamBinaryEntryPoint(0x2000_0001, 0x2000_0005));
}

#[test]
fn direct_entry_into_xip_sram_is_rejected() {
    let content: Vec<u8> = vec![2; 256];
    let bytes_in = make_elf(
        0x1500_0001,
        &[Ph {
            kind: 1,
            offset: content_offset(1),
            vaddr: 0x1500_0000,
            paddr: 0x1500_0000,
            filesz: 256,
            memsz: 256,
        }],
        &content,
    );
    let err = elf2uf2(&bytes_in, Family::RP2040, &mut NoProgress).unwrap_err();
    assert_eq!(err, Elf2Uf2Error::DirectEntryIntoXipSram);
}

#[test]
fn entry_point_outside_segments_is_rejected() {
    let content: Vec<u8> = vec![3; 256];
    let bytes_in = make_elf(
        0x0900_0000,
        &[Ph {
            kind: 1,
            offset: content_offset(1),
            vaddr: 0x1000_0000,
            paddr: 0x1000_0000,
            filesz: 256,
            memsz: 256,
        }],
        &content,
    );
    let err = elf2uf2(&bytes_in, Family::RP2040, &mut NoProgress).unwrap_err();
    assert_eq!(err, Elf2Uf2Error::EntryPointNotMapped);
}

#[test]
fn truncated_segment_data_fails_realization() {
    // the program header promises more content bytes than the file holds
    let content: Vec<u8> = vec![4; 16];
    let bytes_in = make_elf(
        0x1000_0000,
        &[Ph {
            kind: 1,
            offset: content_offset(1),
            vaddr: 0x1000_0000,
            paddr: 0x1000_0000,
            filesz: 256,
            memsz: 256,
        }],
        &content,
    );
    let err = elf2uf2(&bytes_in, Family::RP2040, &mut NoProgress).unwrap_err();
    assert_eq!(err, Elf2Uf2Error::FailedToRealizePages);
}

#[test]
fn malformed_elf_is_rejected_before_any_page_work() {
    let empty: Vec<u8> = Vec::new();
    assert_eq!(
        elf2uf2(&empty, Family::RP2040, &mut NoProgress).unwrap_err(),
        Elf2Uf2Error::FailedToOpenElfFile(ElfParseError::Truncated),
    );

    let mut bad_magic = make_elf(0x1000_0000, &[], &[]);
    bad_magic[0] = 0x7e;
    assert_eq!(
        elf2uf2(&bad_magic, Family::RP2040, &mut NoProgress).unwrap_err(),
        Elf2Uf2Error::FailedToOpenElfFile(ElfParseError::BadMagic),
    );

    let mut bad_class = make_elf(0x1000_0000, &[], &[]);
    bad_class[4] = 2;
    assert_eq!(
        elf2uf2(&bad_class, Family::RP2040, &mut NoProgress).unwrap_err(),
        Elf2Uf2Error::FailedToOpenElfFile(ElfParseError::UnsupportedClass),
    );

    let mut bad_endian = make_elf(0x1000_0000, &[], &[]);
    bad_endian[5] = 2;
    assert_eq!(
        elf2uf2(&bad_endian, Family::RP2040, &mut NoProgress).unwrap_err(),
        Elf2Uf2Error::FailedToOpenElfFile(ElfParseError::UnsupportedEndianness),
    );

    let mut bad_machine = make_elf(0x1000_0000, &[], &[]);
    bad_machine[18] = 3;
    assert_eq!(
        elf2uf2(&bad_machine, Family::RP2040, &mut NoProgress).unwrap_err(),
        Elf2Uf2Error::FailedToOpenElfFile(ElfParseError::UnsupportedMachine),
    );
}

#[test]
fn riscv_machine_is_accepted() {
    let content: Vec<u8> = vec![9; 256];
    let mut bytes_in = make_elf(
        0x1000_0000,
        &[Ph {
            kind: 1,
            offset: content_offset(1),
            vaddr: 0x1000_0000,
            paddr: 0x1000_0000,
            filesz: 256,
            memsz: 256,
        }],
        &content,
    );
    bytes_in[18] = 0xf3;
    bytes_in[19] = 0x00;
    let bytes_out = elf2uf2(&bytes_in, Family::RP2350_RISCV, &mut NoProgress).unwrap();
    let expected = expected_block(0x1000_0000, 0, 1, 0xe48bff5a, &content);
    assert_eq!(bytes_out, expected);
}
