//! Tests for the bounded seekable window and the in-memory stream.

use ironworks::{Error, ErrorValue, FileStream, MemoryStream, SeekFrom, TakeSeekable, read_exact};

fn container() -> Vec<u8> {
    // 100 distinguishable bytes.
    (0..100u8).collect()
}

fn window_at(offset: u64, limit: u64) -> TakeSeekable<MemoryStream> {
    let mut inner = MemoryStream::new(container());
    inner.seek(SeekFrom::Start(offset)).unwrap();
    TakeSeekable::new(inner, limit).unwrap()
}

#[test]
fn reads_exactly_limit_in_arbitrary_pieces() {
    let mut w = window_at(20, 30);
    let mut all = Vec::new();
    for n in [7usize, 9, 11, 14, 5] {
        let piece = w.read(n).unwrap();
        all.extend_from_slice(&piece);
    }
    assert_eq!(all, (20..50u8).collect::<Vec<u8>>());
    // The window is exhausted: further reads report end of stream.
    assert_eq!(w.read(10).unwrap(), Vec::<u8>::new());

    // The same bytes in one single full-length read.
    let mut w2 = window_at(20, 30);
    let whole = read_exact(&mut w2, 30).unwrap();
    assert_eq!(whole, all);
}

#[test]
fn negative_relative_seek_fails_and_keeps_position() {
    let mut w = window_at(20, 30);
    w.read(4).unwrap();
    let r = w.seek(SeekFrom::Current(-10));
    assert!(matches!(
        r,
        Err(Error::Invalid(ErrorValue::SeekPosition(-6)))
    ));
    // The position is unchanged.
    assert_eq!(w.seek(SeekFrom::Current(0)).unwrap(), 4);

    let r = w.seek(SeekFrom::End(-31));
    assert!(matches!(r, Err(Error::Invalid(_))));
    assert_eq!(w.seek(SeekFrom::Current(0)).unwrap(), 4);
}

#[test]
fn seek_from_start_past_limit_succeeds_then_reads_end_of_stream() {
    let mut w = window_at(20, 30);
    let landed = w.seek(SeekFrom::Start(45)).unwrap();
    assert_eq!(landed, 45);
    assert_eq!(w.read(8).unwrap(), Vec::<u8>::new());
}

#[test]
fn from_end_seek_is_relative_to_the_limit() {
    let mut w = window_at(20, 30);
    let landed = w.seek(SeekFrom::End(-5)).unwrap();
    assert_eq!(landed, 25);
    assert_eq!(w.read(100).unwrap(), (45..50u8).collect::<Vec<u8>>());
}

#[test]
fn window_never_reads_outside_its_range() {
    let mut w = window_at(90, 30);
    // The wrapped source only has ten bytes past the offset.
    let piece = w.read(100).unwrap();
    assert_eq!(piece, (90..100u8).collect::<Vec<u8>>());
    assert_eq!(w.read(1).unwrap(), Vec::<u8>::new());
}

#[test]
fn memory_stream_short_reads_and_seeks() {
    let mut s = MemoryStream::new(vec![1, 2, 3]);
    assert_eq!(s.read(2).unwrap(), vec![1, 2]);
    assert_eq!(s.read(9).unwrap(), vec![3]);
    assert_eq!(s.read(9).unwrap(), Vec::<u8>::new());
    assert_eq!(s.seek(SeekFrom::End(-3)).unwrap(), 0);
    assert_eq!(s.read(1).unwrap(), vec![1]);
    assert!(matches!(
        s.seek(SeekFrom::Current(-2)),
        Err(Error::Invalid(_))
    ));
}
