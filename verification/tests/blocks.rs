//! Tests for the block stream reconstructor and the standard builder.

use ironworks::sqpack::standard;
use ironworks::{FileStream, Header, MemoryStream, SeekFrom, read_exact};

fn le32(v: &mut Vec<u8>, x: u32) {
    v.extend_from_slice(&x.to_le_bytes());
}

fn le16(v: &mut Vec<u8>, x: u16) {
    v.extend_from_slice(&x.to_le_bytes());
}

/// A two-block standard container: block 0 stores bytes `0x00..0x10`
/// verbatim, block 1 stores bytes `0x10..0x18` deflate-compressed. The
/// block-info table sits at position 0 and the blocks at container offset
/// 16.
fn two_block_container() -> (Vec<u8>, Header) {
    let block0: Vec<u8> = (0x00..0x10u8).collect();
    let block1: Vec<u8> = (0x10..0x18u8).collect();
    let packed1 = miniz_oxide::deflate::compress_to_vec(&block1, 6);

    let mut v = Vec::new();
    // Two block-info records of eight bytes each.
    le32(&mut v, 0); // block 0 header lies at container offset + 0
    le16(&mut v, 16 + 16);
    le16(&mut v, 16); // decodes to 16 bytes
    le32(&mut v, 32); // block 1 header lies at container offset + 32
    le16(&mut v, (16 + packed1.len()) as u16);
    le16(&mut v, 8); // decodes to 8 bytes
    assert_eq!(v.len(), 16);

    // Block 0: header (stored verbatim), then the raw payload.
    le32(&mut v, 16); // header size
    le32(&mut v, 0);
    le32(&mut v, 32000); // the verbatim marker
    le32(&mut v, 16);
    v.extend_from_slice(&block0);
    assert_eq!(v.len(), 16 + 32);

    // Block 1: header (compressed), then the deflate payload.
    le32(&mut v, 16);
    le32(&mut v, 0);
    le32(&mut v, packed1.len() as u32);
    le32(&mut v, 8);
    v.extend_from_slice(&packed1);

    let header = Header { size: 16, kind: 2, raw_file_size: 24, block_count: 2 };
    (v, header)
}

#[test]
fn read_spanning_both_blocks() {
    let (container, header) = two_block_container();
    let reader = MemoryStream::new(container);
    let mut bs = standard::read(reader, 16, &header).unwrap();

    // A request spanning [0x08, 0x14) crosses the block boundary and must
    // come back with the twelve bytes of both blocks' decoded output.
    bs.seek(SeekFrom::Start(0x08)).unwrap();
    let got = read_exact(&mut bs, 12).unwrap();
    assert_eq!(got, (0x08..0x14u8).collect::<Vec<u8>>());
}

#[test]
fn chunked_reads_equal_one_full_read() {
    let (container, header) = two_block_container();

    let mut whole = standard::read(MemoryStream::new(container.clone()), 16, &header).unwrap();
    let one = read_exact(&mut whole, 24).unwrap();
    assert_eq!(one, (0x00..0x18u8).collect::<Vec<u8>>());

    let mut chunked = standard::read(MemoryStream::new(container), 16, &header).unwrap();
    let mut many = Vec::new();
    for n in [5usize, 1, 9, 3, 6] {
        let piece = read_exact(&mut chunked, n).unwrap();
        many.extend_from_slice(&piece);
    }
    assert_eq!(many, one);
    // And the stream then reports end of stream.
    assert_eq!(chunked.read(4).unwrap(), Vec::<u8>::new());
}

#[test]
fn compressed_block_is_actually_inflated() {
    // If decompression handed its input back unchanged, the second block
    // would not decode to `0x10..0x18`.
    let (container, header) = two_block_container();
    let mut bs = standard::read(MemoryStream::new(container), 16, &header).unwrap();
    bs.seek(SeekFrom::Start(16)).unwrap();
    let got = read_exact(&mut bs, 8).unwrap();
    assert_eq!(got, (0x10..0x18u8).collect::<Vec<u8>>());
}

#[test]
fn corrupt_compressed_block_is_a_hard_error() {
    let (mut container, header) = two_block_container();
    // Damage the deflate payload of block 1.
    let n = container.len();
    for b in &mut container[n - 4..] {
        *b = 0xFF;
    }
    let mut bs = standard::read(MemoryStream::new(container), 16, &header).unwrap();
    // Block 0 still decodes.
    assert_eq!(read_exact(&mut bs, 16).unwrap(), (0x00..0x10u8).collect::<Vec<u8>>());
    // Block 1 does not.
    assert!(bs.read(8).is_err());
}

#[test]
fn block_stream_seeks_are_checked() {
    let (container, header) = two_block_container();
    let mut bs = standard::read(MemoryStream::new(container), 16, &header).unwrap();
    assert!(bs.seek(SeekFrom::Current(-1)).is_err());
    assert_eq!(bs.seek(SeekFrom::End(-4)).unwrap(), 20);
    assert_eq!(read_exact(&mut bs, 4).unwrap(), (0x14..0x18u8).collect::<Vec<u8>>());
}
