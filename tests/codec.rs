use fast_zip_core::error::{BadMagicReason, ZipError};
use fast_zip_core::extra::{Extra, ExtraList};
use fast_zip_core::file::{extra_fields_bytes, extra_fields_write};
use fast_zip_core::stream::MyStreamConfig;
use fast_zip_core::zip::{parse_eocd_offset, Magic, ProgressAdapter};

#[test]
fn extra_sizes_and_ids() {
    let ntfs = Extra::NTFS { mtime: 1, atime: 2, ctime: 3 };
    let ut = Extra::UnixExtendedTimestamp { mtime: Some(5), atime: Some(6), ctime: None };
    let attrs = Extra::UnixAttrs { uid: 501, gid: 20 };
    assert_eq!(ntfs.size(), 36);
    assert_eq!(ut.field_size(), 9);
    assert_eq!(ut.size(), 13);
    assert_eq!(attrs.size(), 15);
    assert_eq!(ntfs.header_id(), 0x000a);
    assert_eq!(ut.header_id(), 0x5455);
    assert_eq!(attrs.header_id(), 0x7875);
    assert_eq!(Extra::if_present(Some(1), 4), 4);
    assert_eq!(Extra::if_present(None, 4), 0);
    assert_eq!(Extra::optional_field_size(&Some(7i32)), 4);
    assert_eq!(Extra::optional_field_size::<i32>(&None), 0);
}

#[test]
fn extra_list_round_trip() {
    let list = ExtraList(vec![
        Extra::NTFS { mtime: 0x0102030405060708, atime: 9, ctime: 10 },
        Extra::UnixExtendedTimestamp { mtime: Some(-5), atime: Some(77), ctime: None },
        Extra::UnixAttrs { uid: 501, gid: 20 },
    ]);
    let mut out = Vec::new();
    list.write(&mut out);
    assert_eq!(out.len(), 36 + 13 + 15);
    assert_eq!(list.bytes(), 64);
    assert_eq!(&out[0..4], &[0x0a, 0x00, 32, 0]);
    let (back, end) = ExtraList::parse(&out, 0, out.len() as u16).unwrap();
    assert_eq!(end, out.len());
    assert_eq!(back.0, list.0);
}

#[test]
fn extended_timestamp_writes_fixed_flags() {
    let mut out = Vec::new();
    Extra::UnixExtendedTimestamp { mtime: Some(1), atime: None, ctime: None }.write(&mut out);
    assert_eq!(out, vec![0x55, 0x54, 5, 0, 3, 1, 0, 0, 0]);
}

#[test]
fn extended_timestamp_reads_missing_fields() {
    let rec = [0x55u8, 0x54, 5, 0, 7, 9, 0, 0, 0];
    let (e, end) = Extra::parse(&rec, 0).unwrap();
    assert_eq!(end, 9);
    assert_eq!(e, Extra::UnixExtendedTimestamp { mtime: Some(9), atime: None, ctime: None });
}

#[test]
fn extra_errors() {
    let bad_flags = [0x55u8, 0x54, 5, 0, 0x09, 1, 0, 0, 0];
    assert!(matches!(
        Extra::parse(&bad_flags, 0),
        Err(ZipError::BadMagic { reason: BadMagicReason::TimestampFlags, pos: 9 })
    ));
    let mut ntfs = vec![0x0au8, 0, 32, 0, 0, 0, 0, 0, 2, 0, 24, 0];
    ntfs.extend(vec![0u8; 24]);
    assert!(matches!(
        Extra::parse(&ntfs, 0),
        Err(ZipError::BadMagic { reason: BadMagicReason::NtfsTag, pos: 10 })
    ));
    ntfs[8] = 1;
    ntfs[10] = 20;
    assert!(matches!(
        Extra::parse(&ntfs, 0),
        Err(ZipError::BadMagic { reason: BadMagicReason::NtfsSize, pos: 12 })
    ));
    assert!(matches!(
        Extra::parse(&[0x34, 0x12, 0, 0], 0),
        Err(ZipError::BadMagic { reason: BadMagicReason::ExtraId(0x1234), pos: 2 })
    ));
    assert!(matches!(Extra::parse(&[0x75, 0x78, 11, 0, 1], 0), Err(ZipError::Io { pos: 0 })));
}

#[test]
fn directory_padding_helpers() {
    assert_eq!(extra_fields_bytes(7, 0, true), 9 + 15);
    assert_eq!(extra_fields_bytes(7, 0, false), 7);
    assert_eq!(extra_fields_bytes(7, 1, true), 7);
    let mut out = Vec::new();
    extra_fields_write(&ExtraList(vec![]), true, &mut out);
    assert_eq!(out.len(), 24);
    assert_eq!(&out[0..5], &[0x55, 0x54, 5, 0, 3]);
    let mut none = Vec::new();
    extra_fields_write(&ExtraList(vec![]), false, &mut none);
    assert!(none.is_empty());
}

#[test]
fn eocd_scan_distance() {
    let mut b = vec![0u8; 100];
    b[60..64].copy_from_slice(&[0x50, 0x4B, 0x05, 0x06]);
    assert_eq!(parse_eocd_offset(&b).unwrap(), 40);
    let mut far = vec![0u8; 70000];
    far[70000 - 30000..70000 - 29996].copy_from_slice(&[0x50, 0x4B, 0x05, 0x06]);
    assert_eq!(parse_eocd_offset(&far).unwrap(), 30000);
    let mut too_far = vec![0u8; 70000];
    too_far[0..4].copy_from_slice(&[0x50, 0x4B, 0x05, 0x06]);
    assert!(matches!(
        parse_eocd_offset(&too_far),
        Err(ZipError::BadMagic { reason: BadMagicReason::EocdNotFound, .. })
    ));
    assert_eq!(Magic::EoCd.value(), 0x06054b50);
    assert_eq!(Magic::default(), Magic::EoCd);
}

#[test]
fn stream_config_spill_decision() {
    let mut c = MyStreamConfig::default();
    c.limit_size = Some(100);
    assert!(!c.needs_temp_file());
    let big = c.with_sizes(10, 1000);
    assert_eq!(big.compress_size(), Some(10));
    assert_eq!(big.un_compress_size(), Some(1000));
    assert!(big.needs_temp_file());
    let small = c.with_sizes(100, 100);
    assert!(!small.needs_temp_file());
    let mut d = MyStreamConfig::default();
    d.compress_size_mut(5000);
    assert!(!d.needs_temp_file());
}

#[test]
fn progress_adapter_counts() {
    let mut a = ProgressAdapter { total: 400, sum: 0 };
    let (sum, text) = a.advance(100);
    assert_eq!(sum, 100);
    assert_eq!(text, "25.00%");
    let (sum, text) = a.advance(1);
    assert_eq!(sum, 101);
    assert_eq!(text, "25.25%");
    let mut z = ProgressAdapter { total: 3, sum: 0 };
    assert_eq!(z.advance(1).1, "33.33%");
    assert_eq!(z.advance(1).1, "66.67%");
}

#[test]
fn percent_text_layout() {
    assert_eq!(fast_zip_core::text::percent_text(0, 5), "0.05%");
    assert_eq!(fast_zip_core::text::percent_text(123, 40), "123.40%");
    assert_eq!(fast_zip_core::text::percent_text(100, 0), "100.00%");
}

#[test]
fn unknown_id_reported_before_length() {
    assert!(matches!(
        Extra::parse(&[0x01, 0x00], 0),
        Err(ZipError::BadMagic { reason: BadMagicReason::ExtraId(1), pos: 2 })
    ));
    assert!(matches!(Extra::parse(&[0x0a], 0), Err(ZipError::Io { pos: 0 })));
    assert!(matches!(Extra::parse(&[0x0a, 0x00], 0), Err(ZipError::Io { pos: 0 })));
}

#[test]
fn ntfs_tag_checked_when_readable() {
    let ten = [0x0au8, 0, 32, 0, 0, 0, 0, 0, 2, 0];
    assert!(matches!(
        Extra::parse(&ten, 0),
        Err(ZipError::BadMagic { reason: BadMagicReason::NtfsTag, pos: 10 })
    ));
    let eleven = [0x0au8, 0, 32, 0, 0, 0, 0, 0, 1, 0, 24];
    assert!(matches!(Extra::parse(&eleven, 0), Err(ZipError::Io { pos: 0 })));
}
