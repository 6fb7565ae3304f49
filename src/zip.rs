//! Validators for the ZIP local file header and end-of-central-directory
//! record.

use vstd::prelude::*;
use crate::decoder::{
    ByteOrder, FieldWidth, StructureError, parse, structure_size, descriptor_size, span,
    le_at, lemma_le_at_bound, lemma_pow256_values,
};

verus! {

/// Flag bits of a local file header that no writer sets.
pub const ZIP_UNUSED_FLAGS_MASK: u64 = 0b11010111_10000000;

/// Compression id that marks an encrypted entry.
pub const ZIP_COMPRESSION_ENCRYPTED: u64 = 99;

/// Byte span of the fixed part of a local file header.
pub const ZIP_LOCAL_HEADER_SIZE: usize = 30;

/// Byte span of the fixed part of an end-of-central-directory record.
pub const ZIP_EOCD_SIZE: usize = 22;

/// Derived values of an accepted local file header.
#[derive(Clone, Copy, Debug, PartialEq, Eq, Structural)]
pub struct ZipFileHeader {
    pub data_size: usize,
    pub header_size: usize,
    pub total_size: usize,
    pub version_major: usize,
    pub version_minor: usize,
}

/// Derived values of an accepted end-of-central-directory record.
#[derive(Clone, Copy, Debug, PartialEq, Eq, Structural)]
pub struct ZipEOCDHeader {
    pub size: usize,
    pub file_count: usize,
}

/// The compression methods that the ZIP format defines.
pub open spec fn zip_method_allowed(m: nat) -> bool {
    ||| m <= 6
    ||| m == 8
    ||| m == 9
    ||| m == 10
    ||| m == 12
    ||| m == 14
    ||| 18 <= m <= 20
    ||| 93 <= m <= 98
    ||| m == ZIP_COMPRESSION_ENCRYPTED
}

pub open spec fn zip_version(d: Seq<u8>) -> nat {
    le_at(d, 4, 2)
}

pub open spec fn zip_flags(d: Seq<u8>) -> nat {
    le_at(d, 6, 2)
}

pub open spec fn zip_compression(d: Seq<u8>) -> nat {
    le_at(d, 8, 2)
}

pub open spec fn zip_compressed_size(d: Seq<u8>) -> nat {
    le_at(d, 18, 4)
}

pub open spec fn zip_uncompressed_size(d: Seq<u8>) -> nat {
    le_at(d, 22, 4)
}

pub open spec fn zip_file_name_len(d: Seq<u8>) -> nat {
    le_at(d, 26, 2)
}

pub open spec fn zip_extra_field_len(d: Seq<u8>) -> nat {
    le_at(d, 28, 2)
}

/// The structural checks on a local file header.
pub open spec fn zip_header_valid(d: Seq<u8>) -> bool {
    &&& d.len() >= ZIP_LOCAL_HEADER_SIZE
    &&& (zip_flags(d) as u64) & ZIP_UNUSED_FLAGS_MASK == 0
    &&& zip_method_allowed(zip_compression(d))
}

pub open spec fn zip_header_size(d: Seq<u8>) -> nat {
    (ZIP_LOCAL_HEADER_SIZE + zip_file_name_len(d) + zip_extra_field_len(d)) as nat
}

pub open spec fn zip_data_size(d: Seq<u8>) -> nat {
    if zip_compressed_size(d) > 0 {
        zip_compressed_size(d)
    } else {
        zip_uncompressed_size(d)
    }
}

pub open spec fn eocd_disk_entries(d: Seq<u8>) -> nat {
    le_at(d, 8, 2)
}

pub open spec fn eocd_total_entries(d: Seq<u8>) -> nat {
    le_at(d, 10, 2)
}

pub open spec fn eocd_comment_length(d: Seq<u8>) -> nat {
    le_at(d, 20, 2)
}

/// The structural checks on an end-of-central-directory record.
pub open spec fn eocd_valid(d: Seq<u8>) -> bool {
    &&& d.len() >= ZIP_EOCD_SIZE
    &&& eocd_disk_entries(d) == eocd_total_entries(d)
    &&& eocd_total_entries(d) > 0
}

/// The derived total size of a local file header never exceeds
/// `30 + 2 * 65535 + (2^32 - 1)`, so every header that passes the structural
/// checks is accepted wherever `usize` holds that value.
pub proof fn lemma_zip_total_size_bound(d: Seq<u8>)
    requires
        d.len() >= ZIP_LOCAL_HEADER_SIZE,
    ensures
        zip_header_size(d) + zip_data_size(d) <= 0x1_0002_001B,
{
    lemma_pow256_values();
    lemma_le_at_bound(d, 18, 4);
    lemma_le_at_bound(d, 22, 4);
    lemma_le_at_bound(d, 26, 2);
    lemma_le_at_bound(d, 28, 2);
}

fn compression_allowed(m: u64) -> (r: bool)
    ensures
        r == zip_method_allowed(m as nat),
{
    m <= 6 || m == 8 || m == 9 || m == 10 || m == 12 || m == 14 || (18 <= m && m <= 20) || (93
        <= m && m <= 98) || m == ZIP_COMPRESSION_ENCRYPTED
}

/// Validates a ZIP local file header at the start of `zip_data`.
pub fn parse_zip_header(zip_data: &[u8]) -> (r: Result<ZipFileHeader, StructureError>)
    ensures
        r is Ok <==> zip_header_valid(zip_data@) && zip_header_size(zip_data@) + zip_data_size(
            zip_data@,
        ) <= usize::MAX,
        r matches Ok(h) ==> {
            &&& h.version_major == zip_version(zip_data@) / 10
            &&& h.version_minor == zip_version(zip_data@) % 10
            &&& h.header_size == zip_header_size(zip_data@)
            &&& h.data_size == zip_data_size(zip_data@)
            &&& h.total_size == h.header_size + h.data_size
        },
{
    let fields: [FieldWidth; 11] = [
        FieldWidth::U32,
        FieldWidth::U16,
        FieldWidth::U16,
        FieldWidth::U16,
        FieldWidth::U16,
        FieldWidth::U16,
        FieldWidth::U32,
        FieldWidth::U32,
        FieldWidth::U32,
        FieldWidth::U16,
        FieldWidth::U16,
    ];
    let ghost fs = fields@;
    proof {
        reveal_with_fuel(span, 12);
        assert(descriptor_size(fs) == 30);
        assert(span(fs, 1) == 4 && span(fs, 2) == 6 && span(fs, 3) == 8);
        assert(span(fs, 7) == 18 && span(fs, 8) == 22 && span(fs, 9) == 26 && span(fs, 10) == 28);
    }
    let v = match parse(zip_data, fields.as_slice(), ByteOrder::Little) {
        Ok(v) => v,
        Err(e) => return Err(e),
    };
    assert(v@[1] == zip_version(zip_data@) && v@[2] == zip_flags(zip_data@));
    assert(v@[3] == zip_compression(zip_data@));
    assert(v@[7] == zip_compressed_size(zip_data@) && v@[8] == zip_uncompressed_size(zip_data@));
    assert(v@[9] == zip_file_name_len(zip_data@) && v@[10] == zip_extra_field_len(zip_data@));
    proof {
        lemma_pow256_values();
        lemma_le_at_bound(zip_data@, 4, 2);
        lemma_le_at_bound(zip_data@, 26, 2);
        lemma_le_at_bound(zip_data@, 28, 2);
    }
    if v[2] & ZIP_UNUSED_FLAGS_MASK != 0 || !compression_allowed(v[3]) {
        return Err(StructureError);
    }
    let version = v[1] as usize;
    let header_size = structure_size(fields.as_slice()) + v[9] as usize + v[10] as usize;
    let data_size: u64 = if v[7] > 0 {
        v[7]
    } else {
        v[8]
    };
    if data_size > (usize::MAX - header_size) as u64 {
        return Err(StructureError);
    }
    let data_size = data_size as usize;
    Ok(
        ZipFileHeader {
            data_size,
            header_size,
            total_size: header_size + data_size,
            version_major: version / 10,
            version_minor: version % 10,
        },
    )
}

/// Validates a ZIP end-of-central-directory record at the start of
/// `eocd_data`, assuming a single-disk archive.
pub fn parse_eocd_header(eocd_data: &[u8]) -> (r: Result<ZipEOCDHeader, StructureError>)
    ensures
        r is Ok <==> eocd_valid(eocd_data@),
        r matches Ok(h) ==> {
            &&& h.size == ZIP_EOCD_SIZE + eocd_comment_length(eocd_data@)
            &&& h.file_count == eocd_total_entries(eocd_data@)
        },
{
    let fields: [FieldWidth; 8] = [
        FieldWidth::U32,
        FieldWidth::U16,
        FieldWidth::U16,
        FieldWidth::U16,
        FieldWidth::U16,
        FieldWidth::U32,
        FieldWidth::U32,
        FieldWidth::U16,
    ];
    let ghost fs = fields@;
    proof {
        reveal_with_fuel(span, 9);
        assert(descriptor_size(fs) == 22);
        assert(span(fs, 3) == 8 && span(fs, 4) == 10 && span(fs, 7) == 20);
    }
    let v = match parse(eocd_data, fields.as_slice(), ByteOrder::Little) {
        Ok(v) => v,
        Err(e) => return Err(e),
    };
    assert(v@[3] == eocd_disk_entries(eocd_data@) && v@[4] == eocd_total_entries(eocd_data@));
    assert(v@[7] == eocd_comment_length(eocd_data@));
    proof {
        lemma_pow256_values();
        lemma_le_at_bound(eocd_data@, 10, 2);
        lemma_le_at_bound(eocd_data@, 20, 2);
    }
    if v[3] != v[4] || v[4] == 0 {
        return Err(StructureError);
    }
    Ok(
        ZipEOCDHeader {
            size: structure_size(fields.as_slice()) + v[7] as usize,
            file_count: v[4] as usize,
        },
    )
}

} // verus!
