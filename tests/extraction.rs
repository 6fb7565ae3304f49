use binscan::confine::confined_path;
use binscan::inflate::{finish_stream, inflate_validate, InflateStep, Inflater, BLOCK_SIZE};
use flate2::write::DeflateEncoder;
use flate2::Compression;
use std::io::Write;

fn deflate(data: &[u8]) -> Vec<u8> {
    let mut enc = DeflateEncoder::new(Vec::new(), Compression::default());
    enc.write_all(data).unwrap();
    enc.finish().unwrap()
}

fn decode_all(data: &[u8], offset: usize) -> (Vec<u8>, binscan::inflate::DeflateResult) {
    let mut inflater = Inflater::new(data, offset).unwrap();
    let mut out = Vec::new();
    loop {
        match inflater.next_block() {
            InflateStep::Block(b) => {
                assert!(!b.is_empty() && b.len() <= BLOCK_SIZE);
                out.extend_from_slice(&b);
            }
            InflateStep::Done(r) => return (out, r),
        }
    }
}

fn large_plaintext() -> Vec<u8> {
    let mut p = Vec::new();
    for i in 0u32..20000 {
        p.extend_from_slice(format!("line {} of the sample text\n", i * 7919 % 10007).as_bytes());
    }
    p
}

#[test]
fn validate_reports_compressed_length_and_checksum() {
    let compressed = deflate(b"Wikipedia");
    let r = inflate_validate(&compressed, 0);
    assert!(r.success);
    assert_eq!(r.size, compressed.len());
    assert_eq!(r.adler32, 0x11E6_0398);
}

#[test]
fn validate_at_offset_ignores_surroundings() {
    let plain = large_plaintext();
    let compressed = deflate(&plain);
    let mut blob = vec![0xAAu8; 13];
    blob.extend_from_slice(&compressed);
    blob.extend_from_slice(&[0x55u8; 40]);
    let r = inflate_validate(&blob, 13);
    assert!(r.success);
    assert_eq!(r.size, compressed.len());
    assert_eq!(r.adler32, adler32::RollingAdler32::from_buffer(&plain).hash());
}

#[test]
fn blocks_reassemble_plaintext() {
    let plain = large_plaintext();
    assert!(plain.len() > 3 * BLOCK_SIZE);
    let compressed = deflate(&plain);
    let (out, r) = decode_all(&compressed, 0);
    assert_eq!(out, plain);
    assert!(r.success);
    assert_eq!(r.size, compressed.len());
    assert_eq!(r.adler32, adler32::RollingAdler32::from_buffer(&plain).hash());
}

#[test]
fn empty_stream_is_not_a_match() {
    let compressed = deflate(b"");
    let r = inflate_validate(&compressed, 0);
    assert!(!r.success);
    assert_eq!(r.size, 0);
    assert_eq!(r.adler32, 0);
}

#[test]
fn corrupt_stream_is_not_a_match() {
    let r = inflate_validate(&[0xff, 0xff, 0xff, 0xff, 0xff, 0xff], 0);
    assert!(!r.success);
    assert_eq!(r.size, 0);
    assert_eq!(r.adler32, 0);
}

#[test]
fn offset_past_end_is_not_a_match() {
    let compressed = deflate(b"abc");
    assert!(!inflate_validate(&compressed, compressed.len() + 1).success);
    assert!(Inflater::new(&compressed, compressed.len() + 1).is_none());
    assert!(!inflate_validate(&compressed, compressed.len()).success);
}

#[test]
fn finish_stream_decides_on_output() {
    let r = finish_stream(0x1234, 5, 17);
    assert!(r.success);
    assert_eq!(r.size, 17);
    assert_eq!(r.adler32, 0x1234);
    let r = finish_stream(0x1234, 0, 17);
    assert!(!r.success);
    assert_eq!(r.size, 0);
    assert_eq!(r.adler32, 0);
}

fn path(root: &str, name: &str) -> Option<String> {
    confined_path(root.as_bytes(), name.as_bytes()).map(|p| String::from_utf8(p).unwrap())
}

#[test]
fn confined_path_drops_traversal() {
    assert_eq!(path("/out", "../../etc/passwd").as_deref(), Some("/out/etc/passwd"));
    assert_eq!(path("/out", "a/./b//c/..").as_deref(), Some("/out/a/b/c"));
    assert_eq!(path("/out", "/abs/file").as_deref(), Some("/out/abs/file"));
    assert_eq!(path("/out", "decompressed.bin").as_deref(), Some("/out/decompressed.bin"));
    assert_eq!(path("out", ".../x..").as_deref(), Some("out/.../x.."));
}

#[test]
fn confined_path_without_normal_component() {
    assert_eq!(path("/out", "../.."), None);
    assert_eq!(path("/out", ""), None);
    assert_eq!(path("/out", "/./"), None);
}

#[test]
fn confined_path_never_leaves_root() {
    let names = ["..", "../a", "a/../../b", "./../.././c", "x/../../../y/..", "//..//z"];
    for n in names.iter() {
        if let Some(p) = path("/root/dir", n) {
            let rest = p.strip_prefix("/root/dir/").unwrap();
            assert!(!rest.is_empty());
            for c in rest.split('/') {
                assert!(!c.is_empty() && c != "." && c != "..", "{}", p);
            }
        }
    }
}
