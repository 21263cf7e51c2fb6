//! Tests for the Excel data page format.

use ironworks::{Error, ErrorValue, ExcelData, MemoryStream};

fn be32(v: &mut Vec<u8>, x: u32) {
    v.extend_from_slice(&x.to_be_bytes());
}

fn be16(v: &mut Vec<u8>, x: u16) {
    v.extend_from_slice(&x.to_be_bytes());
}

/// A page with two rows. Row 10 is plain (four data bytes); row 11 holds
/// two subrows of one data byte each, with IDs 0 and 5.
fn page() -> Vec<u8> {
    let mut v = Vec::new();
    v.extend_from_slice(b"EXDF");
    be16(&mut v, 2); // version
    be16(&mut v, 0);
    be32(&mut v, 16); // index size: two row definitions
    v.extend_from_slice(&[0u8; 20]);
    assert_eq!(v.len(), 32);

    // Row definitions; offsets are absolute page offsets.
    be32(&mut v, 10);
    be32(&mut v, 48);
    be32(&mut v, 11);
    be32(&mut v, 58);

    // Row 10 at page offset 48: header, then four bytes.
    be32(&mut v, 4); // data size
    be16(&mut v, 1); // row count
    v.extend_from_slice(&[1, 2, 3, 4]);

    // Row 11 at page offset 58: header, then two 3-byte subrows.
    be32(&mut v, 6);
    be16(&mut v, 2);
    be16(&mut v, 0); // subrow 0
    v.push(0xAA);
    be16(&mut v, 5); // subrow 5
    v.push(0xBB);
    v
}

#[test]
fn row_data_is_the_declared_slice() {
    let d = ExcelData::read(MemoryStream::new(page())).unwrap();
    assert_eq!(d.row_data(10).unwrap(), &[1, 2, 3, 4]);
}

#[test]
fn row_lookup_falls_back_to_scanning() {
    // Row 11 sits where the fast path expects it, row 10 too; a page with
    // a gap exercises the scan.
    let mut v = page();
    // Change the first row's ID to 7: the fast path for 11 (11 - 7 = 4)
    // overshoots the table, so the scan must find it.
    v[32..36].copy_from_slice(&7u32.to_be_bytes());
    let d = ExcelData::read(MemoryStream::new(v)).unwrap();
    assert_eq!(d.row_definition(11).unwrap().offset, 58);
    assert_eq!(d.row_data(7).unwrap(), &[1, 2, 3, 4]);
}

#[test]
fn missing_row_is_not_found() {
    let d = ExcelData::read(MemoryStream::new(page())).unwrap();
    assert!(matches!(
        d.row_data(99),
        Err(Error::NotFound(ErrorValue::Row { row: 99, subrow: 0 }))
    ));
}

#[test]
fn subrow_data_finds_the_matching_id() {
    let d = ExcelData::read(MemoryStream::new(page())).unwrap();
    assert_eq!(d.subrow_data(11, 5).unwrap(), &[0xBB]);
    assert_eq!(d.subrow_data(11, 0).unwrap(), &[0xAA]);
}

#[test]
fn missing_subrow_is_not_found() {
    let d = ExcelData::read(MemoryStream::new(page())).unwrap();
    assert!(matches!(
        d.subrow_data(11, 9),
        Err(Error::NotFound(ErrorValue::Row { row: 11, subrow: 9 }))
    ));
}

#[test]
fn subrow_max_is_the_largest_id() {
    let d = ExcelData::read(MemoryStream::new(page())).unwrap();
    assert_eq!(d.subrow_max(11).unwrap(), 5);
    // A plain row's data bytes are read as subrow headers: the first two
    // data bytes [1, 2] give 0x0102.
    assert_eq!(d.subrow_max(10).unwrap(), 258);
}

#[test]
fn zero_subrow_count_is_invalid() {
    let mut v = page();
    // Damage row 10's subrow count: dividing its data by zero subrows is
    // refused, not attempted.
    v[52..54].copy_from_slice(&0u16.to_be_bytes());
    let d = ExcelData::read(MemoryStream::new(v)).unwrap();
    assert!(matches!(
        d.subrow_data(10, 0),
        Err(Error::Invalid(ErrorValue::Row { row: 10, subrow: 0 }))
    ));
}

#[test]
fn bad_magic_is_a_resource_error() {
    let mut v = page();
    v[0] = b'X';
    assert!(matches!(
        ExcelData::read(MemoryStream::new(v)),
        Err(Error::Resource(_))
    ));
}

#[test]
fn truncated_page_is_a_resource_error() {
    let v = page()[..20].to_vec();
    assert!(matches!(
        ExcelData::read(MemoryStream::new(v)),
        Err(Error::Resource(_))
    ));
}
