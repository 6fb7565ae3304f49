use binscan::decoder::{parse, structure_size, ByteOrder, FieldWidth};
use binscan::linux::{
    parse_linux_arm64_boot_image_header, parse_linux_arm_zimage_header, Endianness,
};
use binscan::zip::{parse_eocd_header, parse_zip_header};

fn zip_header(
    version: u16,
    flags: u16,
    compression: u16,
    compressed: u32,
    uncompressed: u32,
    name_len: u16,
    extra_len: u16,
) -> Vec<u8> {
    let mut d = vec![0x50, 0x4b, 0x03, 0x04];
    d.extend_from_slice(&version.to_le_bytes());
    d.extend_from_slice(&flags.to_le_bytes());
    d.extend_from_slice(&compression.to_le_bytes());
    d.extend_from_slice(&0x1234u16.to_le_bytes());
    d.extend_from_slice(&0x5678u16.to_le_bytes());
    d.extend_from_slice(&0xdeadbeefu32.to_le_bytes());
    d.extend_from_slice(&compressed.to_le_bytes());
    d.extend_from_slice(&uncompressed.to_le_bytes());
    d.extend_from_slice(&name_len.to_le_bytes());
    d.extend_from_slice(&extra_len.to_le_bytes());
    d
}

#[test]
fn zip_header_sizes_of_valid_header() {
    let d = zip_header(20, 0, 8, 100, 200, 5, 3);
    let h = parse_zip_header(&d).unwrap();
    assert_eq!(h.version_major, 2);
    assert_eq!(h.version_minor, 0);
    assert_eq!(h.header_size, 38);
    assert_eq!(h.data_size, 100);
    assert_eq!(h.total_size, 138);
}

#[test]
fn zip_header_falls_back_to_uncompressed_size() {
    let d = zip_header(63, 0x0008, 0, 0, 200, 0, 0);
    let h = parse_zip_header(&d).unwrap();
    assert_eq!(h.version_major, 6);
    assert_eq!(h.version_minor, 3);
    assert_eq!(h.header_size, 30);
    assert_eq!(h.data_size, 200);
    assert_eq!(h.total_size, 230);
}

#[test]
fn zip_header_accepts_every_defined_method() {
    let allowed = [0u16, 1, 2, 3, 4, 5, 6, 8, 9, 10, 12, 14, 18, 19, 20, 93, 94, 95, 96, 97, 98, 99];
    for m in 0u16..=300 {
        let d = zip_header(20, 0, m, 1, 1, 0, 0);
        assert_eq!(parse_zip_header(&d).is_ok(), allowed.contains(&m), "method {}", m);
    }
}

#[test]
fn zip_header_rejects_unused_flag_bits() {
    for bit in 0..16 {
        let flags: u16 = 1 << bit;
        let d = zip_header(20, flags, 8, 10, 10, 1, 1);
        let unused = flags & 0b11010111_10000000 != 0;
        assert_eq!(parse_zip_header(&d).is_err(), unused, "bit {}", bit);
    }
}

#[test]
fn zip_header_rejects_short_input() {
    let d = zip_header(20, 0, 8, 10, 10, 1, 1);
    assert!(parse_zip_header(&d[..29]).is_err());
    assert!(parse_zip_header(&[]).is_err());
}

#[test]
fn zip_header_large_sizes() {
    let d = zip_header(20, 0, 8, u32::MAX, 0, u16::MAX, u16::MAX);
    let h = parse_zip_header(&d).unwrap();
    assert_eq!(h.header_size, 30 + 2 * 65535);
    assert_eq!(h.data_size, u32::MAX as usize);
    assert_eq!(h.total_size, 30 + 2 * 65535 + u32::MAX as usize);
}

fn eocd(disk_entries: u16, total_entries: u16, comment_len: u16) -> Vec<u8> {
    let mut d = vec![0x50, 0x4b, 0x05, 0x06, 0, 0, 0, 0];
    d.extend_from_slice(&disk_entries.to_le_bytes());
    d.extend_from_slice(&total_entries.to_le_bytes());
    d.extend_from_slice(&0x100u32.to_le_bytes());
    d.extend_from_slice(&0x2000u32.to_le_bytes());
    d.extend_from_slice(&comment_len.to_le_bytes());
    d
}

#[test]
fn eocd_accepts_consistent_counts() {
    let h = parse_eocd_header(&eocd(3, 3, 10)).unwrap();
    assert_eq!(h.size, 32);
    assert_eq!(h.file_count, 3);
    let h = parse_eocd_header(&eocd(1, 1, 0)).unwrap();
    assert_eq!(h.size, 22);
    assert_eq!(h.file_count, 1);
}

#[test]
fn eocd_rejects_mismatch_zero_and_short() {
    assert!(parse_eocd_header(&eocd(2, 3, 0)).is_err());
    assert!(parse_eocd_header(&eocd(0, 0, 0)).is_err());
    assert!(parse_eocd_header(&eocd(1, 1, 0)[..21]).is_err());
}

fn words(w: [u8; 4], n: usize) -> Vec<u8> {
    let mut d = Vec::new();
    for _ in 0..n {
        d.extend_from_slice(&w);
    }
    d
}

#[test]
fn zimage_little_endian_nops() {
    let h = parse_linux_arm_zimage_header(&words([0x00, 0x00, 0xa0, 0xe1], 8)).unwrap();
    assert_eq!(h.endianness, Endianness::Little);
    assert_eq!(h.endianness.as_str(), "little");
}

#[test]
fn zimage_big_endian_nops() {
    let h = parse_linux_arm_zimage_header(&words([0xe1, 0xa0, 0x00, 0x00], 12)).unwrap();
    assert_eq!(h.endianness, Endianness::Big);
    assert_eq!(h.endianness.as_str(), "big");
}

#[test]
fn zimage_rejects_any_differing_word() {
    for i in 0..8 {
        let mut d = words([0x00, 0x00, 0xa0, 0xe1], 8);
        d[4 * i] = 0x01;
        assert!(parse_linux_arm_zimage_header(&d).is_err(), "word {}", i);
    }
}

#[test]
fn zimage_rejects_other_values_and_short_input() {
    assert!(parse_linux_arm_zimage_header(&words([0, 0, 0, 0], 8)).is_err());
    assert!(parse_linux_arm_zimage_header(&words([0x00, 0x00, 0xa0, 0xe1], 7)).is_err());
}

fn arm64(image_size: u64, flags: u64, reserved: u64, pe_offset: u32, total: usize) -> Vec<u8> {
    let mut d = Vec::new();
    d.extend_from_slice(&0x1400_0000u32.to_le_bytes());
    d.extend_from_slice(&0u32.to_le_bytes());
    d.extend_from_slice(&0x80000u64.to_le_bytes());
    d.extend_from_slice(&image_size.to_le_bytes());
    d.extend_from_slice(&flags.to_le_bytes());
    d.extend_from_slice(&reserved.to_le_bytes());
    d.extend_from_slice(&0u64.to_le_bytes());
    d.extend_from_slice(&0u64.to_le_bytes());
    d.extend_from_slice(b"ARMd");
    d.extend_from_slice(&pe_offset.to_le_bytes());
    d.resize(total, 0);
    if (pe_offset as usize) + 2 <= total {
        d[pe_offset as usize] = b'P';
        d[pe_offset as usize + 1] = b'E';
    }
    d
}

#[test]
fn arm64_little_endian_header() {
    let h = parse_linux_arm64_boot_image_header(&arm64(0x123456, 0, 0, 0x40, 0x48)).unwrap();
    assert_eq!(h.endianness, Endianness::Little);
    assert_eq!(h.image_size, 0x123456);
    assert_eq!(h.header_size, 64);
}

#[test]
fn arm64_big_endian_flag() {
    let h = parse_linux_arm64_boot_image_header(&arm64(0x2000, 1, 0, 0x40, 0x42)).unwrap();
    assert_eq!(h.endianness, Endianness::Big);
    assert_eq!(h.image_size, 0x2000);
}

#[test]
fn arm64_pe_inside_header() {
    let h = parse_linux_arm64_boot_image_header(&arm64(7, 0, 0, 0x38, 64)).unwrap();
    assert_eq!(h.image_size, 7);
}

#[test]
fn arm64_rejects_reserved_flag_bits() {
    for bit in 1..64 {
        let d = arm64(0x2000, 1u64 << bit, 0, 0x40, 0x48);
        assert!(parse_linux_arm64_boot_image_header(&d).is_err(), "bit {}", bit);
    }
}

#[test]
fn arm64_rejects_reserved_fields_and_bad_marker() {
    assert!(parse_linux_arm64_boot_image_header(&arm64(1, 0, 5, 0x40, 0x48)).is_err());
    let mut d = arm64(1, 0, 0, 0x40, 0x48);
    d[0x41] = b'X';
    assert!(parse_linux_arm64_boot_image_header(&d).is_err());
    assert!(parse_linux_arm64_boot_image_header(&arm64(1, 0, 0, 0x47, 0x48)).is_err());
    assert!(parse_linux_arm64_boot_image_header(&arm64(1, 0, 0, u32::MAX, 0x48)).is_err());
    assert!(parse_linux_arm64_boot_image_header(&arm64(1, 0, 0, 0x40, 0x48)[..63]).is_err());
}

#[test]
fn decoder_reads_both_byte_orders() {
    let fields = [FieldWidth::U8, FieldWidth::U16, FieldWidth::U32, FieldWidth::U64];
    assert_eq!(structure_size(&fields), 15);
    let data: Vec<u8> = (1..=16).collect();
    let le = parse(&data, &fields, ByteOrder::Little).unwrap();
    assert_eq!(le, vec![0x01, 0x0302, 0x0706_0504, 0x0f0e_0d0c_0b0a_0908]);
    let be = parse(&data, &fields, ByteOrder::Big).unwrap();
    assert_eq!(be, vec![0x01, 0x0203, 0x0405_0607, 0x0809_0a0b_0c0d_0e0f]);
}

#[test]
fn decoder_fails_on_short_input() {
    let fields = [FieldWidth::U32, FieldWidth::U64];
    assert!(parse(&[0u8; 11], &fields, ByteOrder::Little).is_err());
    assert!(parse(&[], &fields, ByteOrder::Big).is_err());
    assert_eq!(parse(&[], &[], ByteOrder::Big).unwrap(), Vec::<u64>::new());
}
