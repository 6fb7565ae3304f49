//! Validators for the Linux ARM zImage preamble and the ARM64 boot image
//! header.

use vstd::prelude::*;
use crate::decoder::{
    ByteOrder, FieldWidth, StructureError, parse, structure_size, descriptor_size, span,
    width_len, le_at,
};

verus! {

/// ARM `mov r0, r0` as stored by a little-endian kernel, read little-endian.
pub const NOP_LE: u64 = 0xE1A00000;

/// The same instruction as stored by a big-endian kernel, read little-endian.
pub const NOP_BE: u64 = 0x0000A0E1;

/// Flag bits of an ARM64 boot header that must be clear: all but bit 0.
pub const ARM64_FLAGS_RESERVED_MASK: u64 = 0xFFFF_FFFF_FFFF_FFFE;

/// Flag bit of an ARM64 boot header that selects big-endian.
pub const ARM64_FLAGS_ENDIAN_MASK: u64 = 1;

/// Byte span of the ARM64 boot header.
pub const ARM64_HEADER_SIZE: usize = 64;

/// Byte order of a kernel image.
#[derive(Clone, Copy, Debug, PartialEq, Eq, Structural)]
pub enum Endianness {
    Little,
    Big,
}

impl Endianness {
    /// The conventional lower-case name of the byte order.
    pub fn as_str(&self) -> (r: &'static str)
        ensures
            r@ == (match self {
                Endianness::Little => "little"@,
                Endianness::Big => "big"@,
            }),
    {
        match self {
            Endianness::Little => "little",
            Endianness::Big => "big",
        }
    }
}

/// Derived values of an accepted ARM64 boot header.
#[derive(Clone, Copy, Debug, PartialEq, Eq, Structural)]
pub struct LinuxARM64BootHeader {
    pub header_size: usize,
    pub image_size: usize,
    pub endianness: Endianness,
}

/// Derived values of an accepted ARM zImage preamble.
#[derive(Clone, Copy, Debug, PartialEq, Eq, Structural)]
pub struct LinuxARMzImageHeader {
    pub endianness: Endianness,
}

/// Word `i` of the zImage preamble, read little-endian.
pub open spec fn zimage_word(d: Seq<u8>, i: int) -> nat {
    le_at(d, 4 * i, 4)
}

/// Eight identical words, each one of the two NOP encodings.
pub open spec fn zimage_valid(d: Seq<u8>) -> bool {
    &&& d.len() >= 32
    &&& forall|i: int| 0 <= i < 8 ==> #[trigger] zimage_word(d, i) == zimage_word(d, 0)
    &&& (zimage_word(d, 0) == NOP_LE || zimage_word(d, 0) == NOP_BE)
}

pub open spec fn arm64_image_size(d: Seq<u8>) -> nat {
    le_at(d, 16, 8)
}

pub open spec fn arm64_flags(d: Seq<u8>) -> nat {
    le_at(d, 24, 8)
}

pub open spec fn arm64_pe_offset(d: Seq<u8>) -> nat {
    le_at(d, 60, 4)
}

/// The three reserved fields are zero.
pub open spec fn arm64_reserved_clear(d: Seq<u8>) -> bool {
    le_at(d, 32, 8) == 0 && le_at(d, 40, 8) == 0 && le_at(d, 48, 8) == 0
}

/// The buffer holds "PE" at the header's `pe_offset`.
pub open spec fn arm64_pe_present(d: Seq<u8>) -> bool {
    let p = arm64_pe_offset(d) as int;
    &&& p + 2 <= d.len()
    &&& d[p] == 0x50u8
    &&& d[p + 1] == 0x45u8
}

pub open spec fn arm64_valid(d: Seq<u8>) -> bool {
    &&& d.len() >= ARM64_HEADER_SIZE
    &&& arm64_reserved_clear(d)
    &&& arm64_pe_present(d)
    &&& (arm64_flags(d) as u64) & ARM64_FLAGS_RESERVED_MASK == 0
}

pub open spec fn arm64_endianness(d: Seq<u8>) -> Endianness {
    if (arm64_flags(d) as u64) & ARM64_FLAGS_ENDIAN_MASK == 1 {
        Endianness::Big
    } else {
        Endianness::Little
    }
}

/// Validates the eight-NOP preamble of an ARM zImage at the start of
/// `zimage_data`.
pub fn parse_linux_arm_zimage_header(zimage_data: &[u8]) -> (r: Result<
    LinuxARMzImageHeader,
    StructureError,
>)
    ensures
        r is Ok <==> zimage_valid(zimage_data@),
        r matches Ok(h) ==> h.endianness == if zimage_word(zimage_data@, 0) == NOP_LE {
            Endianness::Little
        } else {
            Endianness::Big
        },
{
    let fields: [FieldWidth; 8] = [
        FieldWidth::U32,
        FieldWidth::U32,
        FieldWidth::U32,
        FieldWidth::U32,
        FieldWidth::U32,
        FieldWidth::U32,
        FieldWidth::U32,
        FieldWidth::U32,
    ];
    let ghost fs = fields@;
    proof {
        reveal_with_fuel(span, 9);
        assert(descriptor_size(fs) == 32);
        assert forall|i: int| 0 <= i < 8 implies span(fs, i) == 4 * i && width_len(fs[i]) == 4 by {
            assert(span(fs, 1) == 4 && span(fs, 2) == 8 && span(fs, 3) == 12 && span(fs, 4) == 16);
            assert(span(fs, 5) == 20 && span(fs, 6) == 24 && span(fs, 7) == 28);
        }
    }
    let v = match parse(zimage_data, fields.as_slice(), ByteOrder::Little) {
        Ok(v) => v,
        Err(e) => return Err(e),
    };
    assert(forall|i: int| 0 <= i < 8 ==> v@[i] == #[trigger] zimage_word(zimage_data@, i));
    let mut i: usize = 1;
    while i < 8
        invariant
            1 <= i <= 8,
            v@.len() == 8,
            forall|k: int| 0 <= k < 8 ==> v@[k] == #[trigger] zimage_word(zimage_data@, k),
            forall|k: int| 0 <= k < i ==> #[trigger] v@[k] == v@[0],
        decreases 8 - i,
    {
        if v[i] != v[0] {
            assert(zimage_word(zimage_data@, i as int) != zimage_word(zimage_data@, 0));
            return Err(StructureError);
        }
        i = i + 1;
    }
    if v[0] == NOP_LE {
        Ok(LinuxARMzImageHeader { endianness: Endianness::Little })
    } else if v[0] == NOP_BE {
        Ok(LinuxARMzImageHeader { endianness: Endianness::Big })
    } else {
        Err(StructureError)
    }
}

/// Validates an ARM64 Linux boot image header at the start of `img_data`.
pub fn parse_linux_arm64_boot_image_header(img_data: &[u8]) -> (r: Result<
    LinuxARM64BootHeader,
    StructureError,
>)
    ensures
        r is Ok <==> arm64_valid(img_data@) && arm64_image_size(img_data@) <= usize::MAX,
        r matches Ok(h) ==> {
            &&& h.header_size == ARM64_HEADER_SIZE
            &&& h.image_size == arm64_image_size(img_data@)
            &&& h.endianness == arm64_endianness(img_data@)
        },
{
    let fields: [FieldWidth; 10] = [
        FieldWidth::U32,
        FieldWidth::U32,
        FieldWidth::U64,
        FieldWidth::U64,
        FieldWidth::U64,
        FieldWidth::U64,
        FieldWidth::U64,
        FieldWidth::U64,
        FieldWidth::U32,
        FieldWidth::U32,
    ];
    let ghost fs = fields@;
    proof {
        reveal_with_fuel(span, 11);
        assert(descriptor_size(fs) == 64);
        assert(span(fs, 3) == 16 && span(fs, 4) == 24 && span(fs, 5) == 32);
        assert(span(fs, 6) == 40 && span(fs, 7) == 48 && span(fs, 9) == 60);
    }
    let v = match parse(img_data, fields.as_slice(), ByteOrder::Little) {
        Ok(v) => v,
        Err(e) => return Err(e),
    };
    assert(v@[3] == arm64_image_size(img_data@) && v@[4] == arm64_flags(img_data@));
    assert(v@[5] == le_at(img_data@, 32, 8) && v@[6] == le_at(img_data@, 40, 8));
    assert(v@[7] == le_at(img_data@, 48, 8) && v@[9] == arm64_pe_offset(img_data@));
    if v[5] != 0 || v[6] != 0 || v[7] != 0 {
        return Err(StructureError);
    }
    let n = img_data.len();
    let pe_start = v[9];
    if pe_start > n as u64 || (n as u64) - pe_start < 2 {
        return Err(StructureError);
    }
    let p = pe_start as usize;
    if img_data[p] != 0x50u8 || img_data[p + 1] != 0x45u8 {
        return Err(StructureError);
    }
    let flags = v[4];
    if flags & ARM64_FLAGS_RESERVED_MASK != 0 {
        return Err(StructureError);
    }
    if v[3] > usize::MAX as u64 {
        return Err(StructureError);
    }
    let endianness = if flags & ARM64_FLAGS_ENDIAN_MASK == 1 {
        Endianness::Big
    } else {
        Endianness::Little
    };
    Ok(
        LinuxARM64BootHeader {
            header_size: structure_size(fields.as_slice()),
            image_size: v[3] as usize,
            endianness,
        },
    )
}

} // verus!
