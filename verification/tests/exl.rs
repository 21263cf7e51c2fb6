//! Tests for the Excel list format.

use ironworks::{Error, ExcelList, MemoryStream};

const TEST_LIST: &[u8] = b"EXLT\r\nsheet1,0\r\nsheet2,0\r\nsheet3,0\r\n";

#[test]
fn empty() {
    let list = ExcelList::read(MemoryStream::new(Vec::new()));
    assert!(matches!(list, Err(Error::Resource(_))));
}

#[test]
fn missing_magic() {
    let list = ExcelList::read(MemoryStream::new(b"hello\r\nworld".to_vec()));
    assert!(matches!(list, Err(Error::Resource(_))));
}

#[test]
fn has_sheet() {
    let list = ExcelList::read(MemoryStream::new(TEST_LIST.to_vec())).unwrap();
    assert!(list.has("sheet2"));
}

#[test]
fn missing_sheet() {
    let list = ExcelList::read(MemoryStream::new(TEST_LIST.to_vec())).unwrap();
    assert!(!list.has("sheet4"));
}

#[test]
fn lists_each_sheet_once() {
    let list =
        ExcelList::read(MemoryStream::new(b"EXLT\r\nalpha,0\r\nbeta,4\r\nalpha,0\r\n".to_vec()))
            .unwrap();
    let names = list.iter();
    assert_eq!(names.len(), 2);
    assert_eq!(names[0], b"alpha".to_vec());
    assert_eq!(names[1], b"beta".to_vec());
}

#[test]
fn line_without_comma_names_no_sheet() {
    let list =
        ExcelList::read(MemoryStream::new(b"EXLT\r\nnocomma\r\nreal,1\r\n".to_vec())).unwrap();
    assert!(!list.has("nocomma"));
    assert!(list.has("real"));
}

#[test]
fn magic_alone_is_empty_list() {
    let list = ExcelList::read(MemoryStream::new(b"EXLT".to_vec())).unwrap();
    assert_eq!(list.iter().len(), 0);
}
