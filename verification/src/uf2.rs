//! The UF2 wire format: the fixed 512-byte block of 32-byte header,
//! 476-byte payload and 4-byte footer, little-endian throughout.

use vstd::prelude::*;

verus! {

pub const UF2_MAGIC_START0: u32 = 0x0A324655;

pub const UF2_MAGIC_START1: u32 = 0x9E5D5157;

pub const UF2_MAGIC_END: u32 = 0x0AB16F30;

pub const UF2_FLAG_NOT_MAIN_FLASH: u32 = 0x00000001;

pub const UF2_FLAG_FILE_CONTAINER: u32 = 0x00001000;

pub const UF2_FLAG_FAMILY_ID_PRESENT: u32 = 0x00002000;

pub const UF2_FLAG_MD5_PRESENT: u32 = 0x00004000;

pub const RP2040_FAMILY_ID: u32 = 0xe48bff56;

/// Number of payload bytes carried by every block.
pub const UF2_PAYLOAD_BYTES: u64 = 476;

/// The 32-byte block header.
#[derive(Copy, Clone, Debug, Eq, PartialEq, Structural)]
pub struct Uf2BlockHeader {
    pub magic_start0: u32,
    pub magic_start1: u32,
    pub flags: u32,
    pub target_addr: u32,
    pub payload_size: u32,
    pub block_no: u32,
    pub num_blocks: u32,
    /// File size, or the family identifier when `UF2_FLAG_FAMILY_ID_PRESENT`
    /// is set.
    pub file_size: u32,
}

/// The 4-byte block footer.
#[derive(Copy, Clone, Debug, Eq, PartialEq, Structural)]
pub struct Uf2BlockFooter {
    pub magic_end: u32,
}

/// The four little-endian bytes of a 32-bit value.
pub open spec fn spec_u32_le(x: u32) -> Seq<u8> {
    seq![
        (x as int % 0x100) as u8,
        ((x as int / 0x100) % 0x100) as u8,
        ((x as int / 0x10000) % 0x100) as u8,
        ((x as int / 0x1000000) % 0x100) as u8,
    ]
}

/// The 32 bytes of a block header on the wire.
pub open spec fn spec_header_bytes(h: Uf2BlockHeader) -> Seq<u8> {
    spec_u32_le(h.magic_start0) + spec_u32_le(h.magic_start1) + spec_u32_le(h.flags) + spec_u32_le(
        h.target_addr,
    ) + spec_u32_le(h.payload_size) + spec_u32_le(h.block_no) + spec_u32_le(h.num_blocks)
        + spec_u32_le(h.file_size)
}

/// The 4 bytes of a block footer on the wire.
pub open spec fn spec_footer_bytes(f: Uf2BlockFooter) -> Seq<u8> {
    spec_u32_le(f.magic_end)
}

/// Appends the four little-endian bytes of `x`.
pub fn push_u32_le(out: &mut Vec<u8>, x: u32)
    ensures
        final(out)@ == old(out)@ + spec_u32_le(x),
{
    out.push((x % 0x100) as u8);
    out.push((x / 0x100 % 0x100) as u8);
    out.push((x / 0x10000 % 0x100) as u8);
    out.push((x / 0x1000000 % 0x100) as u8);
    proof {
        assert(out@ =~= old(out)@ + spec_u32_le(x));
    }
}

impl Uf2BlockHeader {
    /// The header's 32 wire bytes.
    pub fn to_bytes(&self) -> (r: Vec<u8>)
        ensures
            r@ == spec_header_bytes(*self),
            r@.len() == 32,
    {
        let mut out: Vec<u8> = Vec::new();
        push_u32_le(&mut out, self.magic_start0);
        push_u32_le(&mut out, self.magic_start1);
        push_u32_le(&mut out, self.flags);
        push_u32_le(&mut out, self.target_addr);
        push_u32_le(&mut out, self.payload_size);
        push_u32_le(&mut out, self.block_no);
        push_u32_le(&mut out, self.num_blocks);
        push_u32_le(&mut out, self.file_size);
        proof {
            assert(out@ =~= spec_header_bytes(*self));
        }
        out
    }
}

impl Uf2BlockFooter {
    /// The footer's 4 wire bytes.
    pub fn to_bytes(&self) -> (r: Vec<u8>)
        ensures
            r@ == spec_footer_bytes(*self),
            r@.len() == 4,
    {
        let mut out: Vec<u8> = Vec::new();
        push_u32_le(&mut out, self.magic_end);
        proof {
            assert(out@ =~= spec_footer_bytes(*self));
        }
        out
    }
}

} // verus!
