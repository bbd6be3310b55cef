//! The boot contract: the header the boot firmware looks for in the kernel
//! image, with its checksum rule, and the heap bring-up figures.

use vstd::prelude::*;

verus! {

/// The magic number the boot firmware scans for.
pub const MULTIBOOT_MAGIC: u32 = 0x1BAD_B002;

/// The header flags: none requested.
pub const MULTIBOOT_FLAGS: u32 = 0;

/// The header placed in the kernel image: three 32-bit little-endian
/// fields, magic, flags, and a checksum that makes the three sum to zero
/// modulo two to the thirty-second.
#[derive(Debug, Clone, Copy, PartialEq, Eq, Structural)]
pub struct MultibootHeader {
    /// The magic number.
    pub magic: u32,
    /// The flag word.
    pub flags: u32,
    /// The checksum field.
    pub checksum: u32,
}

/// The rule the firmware checks: the three fields sum to zero modulo two
/// to the thirty-second, and the magic and flags are the expected ones.
pub open spec fn multiboot_header_valid(h: MultibootHeader) -> bool {
    &&& h.magic == MULTIBOOT_MAGIC
    &&& h.flags == MULTIBOOT_FLAGS
    &&& (h.magic + h.flags + h.checksum) % 0x1_0000_0000 == 0
}

/// Builds the header for the kernel image: the checksum is the two's
/// complement of the sum of the other two fields, so the firmware's sum
/// comes to zero.
pub fn multiboot_header() -> (h: MultibootHeader)
    ensures
        multiboot_header_valid(h),
{
    let sum: u64 = MULTIBOOT_MAGIC as u64 + MULTIBOOT_FLAGS as u64;
    let checksum: u32 = ((0x1_0000_0000u64 - sum) % 0x1_0000_0000) as u32;
    MultibootHeader { magic: MULTIBOOT_MAGIC, flags: MULTIBOOT_FLAGS, checksum }
}

} // verus!
