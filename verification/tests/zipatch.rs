//! Tests for the patch container and its chunk iterator, the empty
//! builder, and the model container.

use ironworks::sqpack::empty;
use ironworks::{
    Chunk, Error, ErrorValue, FileStream, Header, Lod, MemoryStream, ModelContainer,
    ResourceCause, ZiPatch,
};

const MAGIC: &[u8] = b"\x91ZIPATCH\x0D\x0A\x1A\x0A";

fn patch() -> Vec<u8> {
    let mut v = MAGIC.to_vec();
    // One ordinary chunk: size 3, kind TEST, payload, checksum.
    v.extend_from_slice(&3u32.to_be_bytes());
    v.extend_from_slice(b"TEST");
    v.extend_from_slice(&[1, 2, 3]);
    v.extend_from_slice(&[0, 0, 0, 0]);
    // The end-of-file chunk: size 0.
    v.extend_from_slice(&0u32.to_be_bytes());
    v.extend_from_slice(b"EOF_");
    v.extend_from_slice(&[0, 0, 0, 0]);
    v
}

#[test]
fn chunks_are_read_back_to_back() {
    let z = ZiPatch::read(MemoryStream::new(patch())).unwrap();
    let mut it = z.chunks();

    match it.next() {
        Some(Ok(Chunk::Other { kind, payload })) => {
            assert_eq!(kind, b"TEST".to_vec());
            assert_eq!(payload, vec![1, 2, 3]);
        },
        _ => panic!("expected an ordinary chunk"),
    }
    assert!(matches!(it.next(), Some(Ok(Chunk::EndOfFile))));
    assert!(it.next().is_none());
    assert!(it.next().is_none());
}

#[test]
fn wrong_magic_is_invalid_with_the_bytes() {
    let mut v = patch();
    v[0] = 0x90;
    match ZiPatch::read(MemoryStream::new(v.clone())) {
        Err(Error::Invalid(ErrorValue::File(bytes))) => {
            assert_eq!(bytes, v[..12].to_vec());
        },
        _ => panic!("expected an invalid-file error"),
    }
}

#[test]
fn truncated_chunk_is_an_error_but_does_not_end_iteration() {
    let mut v = MAGIC.to_vec();
    v.extend_from_slice(&9u32.to_be_bytes()); // declares more than there is
    v.extend_from_slice(b"TES");
    let z = ZiPatch::read(MemoryStream::new(v)).unwrap();
    let mut it = z.chunks();
    assert!(matches!(it.next(), Some(Err(_))));
    assert!(it.next().is_some());
}

#[test]
fn empty_builder_surfaces_the_drained_bytes() {
    let mut reader = MemoryStream::new(vec![9, 8, 7, 6, 5]);
    let header = Header { size: 16, kind: 1, raw_file_size: 4, block_count: 0 };
    match empty::read(&mut reader, &header) {
        Err(Error::Invalid(ErrorValue::File(bytes))) => {
            assert_eq!(bytes, vec![9, 8, 7, 6]);
        },
        _ => panic!("expected an invalid-file error"),
    }
    // The drained bytes are consumed from the reader.
    assert_eq!(reader.read(5).unwrap(), vec![5]);
}

#[test]
fn empty_builder_on_short_reader_fails_with_the_cause() {
    let mut reader = MemoryStream::new(vec![9, 8]);
    let header = Header { size: 16, kind: 1, raw_file_size: 4, block_count: 0 };
    assert!(matches!(
        empty::read(&mut reader, &header),
        Err(Error::Resource(ResourceCause::Io))
    ));
}

#[test]
fn model_container_keeps_its_bytes() {
    let mc = ModelContainer::read(MemoryStream::new(vec![1, 2, 3])).unwrap();
    let model = mc.model(Lod::High);
    assert_eq!(*model.file, vec![1, 2, 3]);
    assert_eq!(model.level, Lod::High);
    let low = mc.model(Lod::Low);
    assert_eq!(low.level, Lod::Low);
}
