use fast_zip_core::directory::{Bool, CompressionMethod, Directory, Name};
use fast_zip_core::error::{BadMagicReason, ZipError};
use fast_zip_core::extra::ExtraList;
use fast_zip_core::file::ZipFile;
use fast_zip_core::directory::ByteProgress;
use fast_zip_core::zip::{FastZip, PackageProgress};

fn le16(v: u16) -> Vec<u8> {
    v.to_le_bytes().to_vec()
}

fn le32(v: u32) -> Vec<u8> {
    v.to_le_bytes().to_vec()
}

struct Member {
    name: &'static [u8],
    method: u16,
    crc: u32,
    usize: u32,
    payload: Vec<u8>,
}

/// Builds an archive in exactly the layout the packager writes.
fn build_archive(members: &[Member], comment: &[u8]) -> Vec<u8> {
    let mut out = Vec::new();
    let mut central = Vec::new();
    for m in members {
        let offset = out.len() as u32;
        let dir = m.name.ends_with(b"/");
        out.extend(le32(0x04034b50));
        out.push(if dir { 0x0a } else { 0x0e });
        out.push(0);
        out.extend(le16(0));
        out.extend(le16(if m.usize == 0 { 0 } else { m.method }));
        out.extend(le16(39620));
        out.extend(le16(23170));
        out.extend(le32(m.crc));
        out.extend(le32(m.payload.len() as u32));
        out.extend(le32(m.usize));
        out.extend(le16(m.name.len() as u16));
        out.extend(le16(0));
        out.extend_from_slice(m.name);
        out.extend_from_slice(&m.payload);
        central.extend(le32(0x02014b50));
        central.extend([0x1e, 3, 0x0e, 0]);
        central.extend(le16(0));
        central.extend(le16(if m.usize == 0 { 0 } else { m.method }));
        central.extend(le16(39620));
        central.extend(le16(23170));
        central.extend(le32(if dir { 0 } else { m.crc }));
        central.extend(le32(if dir { 0 } else { m.payload.len() as u32 }));
        central.extend(le32(if dir { 0 } else { m.usize }));
        central.extend(le16(m.name.len() as u16));
        central.extend(le16(0));
        central.extend(le16(0));
        central.extend(le16(0));
        central.extend(le16(1));
        central.extend(le32(if dir { 0x41ED0010 } else { 0x81A40000 }));
        central.extend(le32(offset));
        central.extend_from_slice(m.name);
    }
    let cd_offset = out.len() as u32;
    let cd_size = central.len() as u32;
    out.extend(central);
    out.extend(le32(0x06054b50));
    out.extend(le16(0));
    out.extend(le16(0));
    out.extend(le16(members.len() as u16));
    out.extend(le16(members.len() as u16));
    out.extend(le32(cd_size));
    out.extend(le32(cd_offset));
    out.extend(le16(comment.len() as u16));
    out.extend_from_slice(comment);
    out
}

fn hello_archive() -> Vec<u8> {
    build_archive(
        &[Member { name: b"hello.txt", method: 0, crc: 0x5C5752E4, usize: 3, payload: b"hi\n".to_vec() }],
        b"",
    )
}

fn deflate_archive() -> Vec<u8> {
    let plain = vec![b'A'; 1024];
    let packed = miniz_oxide::deflate::compress_to_vec(&plain, 6);
    build_archive(
        &[Member { name: b"a.txt", method: 8, crc: 0xB737FB1A, usize: 1024, payload: packed }],
        b"",
    )
}

fn u32_at(b: &[u8], p: usize) -> u32 {
    u32::from_le_bytes([b[p], b[p + 1], b[p + 2], b[p + 3]])
}

fn u16_at(b: &[u8], p: usize) -> u16 {
    u16::from_le_bytes([b[p], b[p + 1]])
}

fn names(z: &FastZip) -> Vec<Vec<u8>> {
    (0..z.directories.len()).map(|i| z.directories.get_index(i).file_name.inner.clone()).collect()
}

#[test]
fn minimal_empty_archive() {
    let mut input = vec![0x50, 0x4B, 0x05, 0x06];
    input.extend(vec![0u8; 18]);
    let mut z = FastZip::parse(&input).unwrap();
    assert_eq!(z.directories.len(), 0);
    assert!(z.comment.is_empty());
    let out = z.package(6);
    assert_eq!(out, input);
}

#[test]
fn zero_entries_repackage() {
    let input = build_archive(&[], b"note");
    let mut z = FastZip::parse(&input).unwrap();
    assert_eq!(z.directories.len(), 0);
    let out = z.package(6);
    assert_eq!(z.size, 0);
    assert_eq!(z.offset, 0);
    assert_eq!(u32_at(&out, 12), 0);
    assert_eq!(u32_at(&out, 16), 0);
    assert_eq!(out, input);
}

#[test]
fn single_stored_file() {
    let input = hello_archive();
    let mut z = FastZip::parse(&input).unwrap();
    assert_eq!(z.directories.len(), 1);
    let d = z.directories.get(b"hello.txt").unwrap();
    assert_eq!(d.compression_method, CompressionMethod::Store);
    assert_eq!(d.crc_32_uncompressed_data, 0x5C5752E4);
    assert_eq!(d.compressed_size, 3);
    assert_eq!(d.uncompressed_size, 3);
    assert!(!d.compressed());
    assert_eq!(d.data(), b"hi\n");
    let out = z.package(6);
    assert_eq!(out, input);
}

#[test]
fn single_deflate_file() {
    let input = deflate_archive();
    let mut z = FastZip::parse(&input).unwrap();
    let pos = z.directories.position(b"a.txt").unwrap();
    let mut d = z.directories.get_index(pos).try_clone();
    assert!(d.compressed());
    d.decompressed().unwrap();
    assert_eq!(d.data().len(), 1024);
    assert!(!d.compressed());
    d.compress(true, 6);
    assert!(d.compressed());
    assert_eq!(d.crc_32_uncompressed_data, 0xB737FB1A);
    assert_eq!(d.crc_32_uncompressed_data, crc32fast::hash(&vec![b'A'; 1024]));
    z.add_directory(d).unwrap();
    let out = z.package(6);
    let mut again = FastZip::parse(&out).unwrap();
    let mut e = again.directories.get(b"a.txt").unwrap().try_clone();
    e.decompressed().unwrap();
    assert_eq!(e.data(), &vec![b'A'; 1024][..]);
    let _ = again.package(6);
}

fn dir_entry(name: &str, csize: u32) -> Directory {
    Directory {
        created_zip_spec: 0x1e,
        created_os: 3,
        extract_zip_spec: 0x0a,
        extract_os: 0,
        compression_method: CompressionMethod::Store,
        compressed: Bool { value: false },
        last_modification_time: 0,
        last_modification_date: 0,
        crc_32_uncompressed_data: 0x1234,
        compressed_size: csize,
        uncompressed_size: 7,
        number_of_starts: 0,
        internal_file_attributes: 0,
        offset_of_local_file_header: 0,
        file_name: Name::from(name),
        extra_fields: ExtraList(vec![]),
        file_comment: vec![],
        file: ZipFile {
            extract_os: 0,
            compression_method: CompressionMethod::Store,
            last_modification_time: 0,
            last_modification_date: 0,
            crc_32_uncompressed_data: 0,
            compressed_size: csize,
            uncompressed_size: 7,
            file_name: Name::from("other"),
            extra_fields: ExtraList(vec![]),
            data_position: 0,
        },
        data: vec![],
    }
}

#[test]
fn directory_entry_normalization() {
    let mut z = FastZip::parse(&build_archive(&[], b"")).unwrap();
    z.add_directory(dir_entry("d/", 99)).unwrap();
    assert_eq!(z.directories.get(b"d/").unwrap().file.file_name.inner, b"d/".to_vec());
    let out = z.package(6);
    let cd = z.offset as usize;
    assert_eq!(u32_at(&out, cd), 0x02014b50);
    assert_eq!(u32_at(&out, cd + 16), 0);
    assert_eq!(u32_at(&out, cd + 20), 0);
    assert_eq!(u32_at(&out, cd + 24), 0);
    assert_eq!(u32_at(&out, cd + 38), 0x41ED0010);
    let again = FastZip::parse(&out).unwrap();
    assert_eq!(again.directories.get(b"d/").unwrap().compressed_size, 0);
}

#[test]
fn scan_back_with_padding() {
    let mut members = Vec::new();
    members.push(Member { name: b"pad.bin", method: 0, crc: 1, usize: 188, payload: vec![7u8; 188] });
    let plain = build_archive(&members, b"");
    assert_eq!(plain.len(), 300);
    let mut padded = vec![0xFFu8; 50000];
    padded.extend(plain.clone());
    let a = FastZip::parse(&plain).unwrap();
    let b = FastZip::parse(&padded).unwrap();
    assert_eq!(names(&a), names(&b));
    let (x, y) = (a.directories.get(b"pad.bin").unwrap(), b.directories.get(b"pad.bin").unwrap());
    assert_eq!(x.data(), y.data());
    assert_eq!(x.compression_method, y.compression_method);
    assert_eq!(x.crc_32_uncompressed_data, y.crc_32_uncompressed_data);
    assert_eq!(x.compressed_size, y.compressed_size);
    assert_eq!(x.uncompressed_size, y.uncompressed_size);
    assert_eq!(a.comment, b.comment);
}

#[test]
fn scan_back_with_trailing_junk() {
    let members = vec![Member { name: b"pad.bin", method: 0, crc: 1, usize: 188, payload: vec![7u8; 188] }];
    let plain = build_archive(&members, b"");
    let mut padded = plain.clone();
    padded.extend(vec![0xFFu8; 50000]);
    let a = FastZip::parse(&plain).unwrap();
    let b = FastZip::parse(&padded).unwrap();
    assert_eq!(b.eocd_offset, 50022);
    assert_eq!(names(&a), names(&b));
    assert_eq!(a.directories.get(b"pad.bin").unwrap().data(), b.directories.get(b"pad.bin").unwrap().data());
}

#[test]
fn add_remove_repackage() {
    let mut z = FastZip::parse(&hello_archive()).unwrap();
    z.add_file(b"x".to_vec(), "extra.bin");
    z.remove_file("hello.txt");
    let out = z.package(6);
    let again = FastZip::parse(&out).unwrap();
    assert_eq!(names(&again), vec![b"extra.bin".to_vec()]);
    let mut e = again.directories.get(b"extra.bin").unwrap().try_clone();
    e.decompressed().unwrap();
    assert_eq!(e.data(), b"x");
    assert_eq!(e.crc_32_uncompressed_data, 0x8CDC1683);
}

#[test]
fn longest_comment_parses() {
    let comment = vec![b'c'; 65535];
    let input = build_archive(&[], &comment);
    let z = FastZip::parse(&input).unwrap();
    assert_eq!(z.comment.len(), 65535);
    assert_eq!(z.eocd_offset, 65557);
}

#[test]
fn empty_deflate_entry_emits_store() {
    let mut z = FastZip::parse(&build_archive(&[], b"")).unwrap();
    z.add_file(vec![], "empty.txt");
    let out = z.package(6);
    assert_eq!(u16_at(&out, 8), 0);
    let again = FastZip::parse(&out).unwrap();
    let d = again.directories.get(b"empty.txt").unwrap();
    assert_eq!(d.compression_method, CompressionMethod::Store);
    assert_eq!(d.uncompressed_size, 0);
    assert!(d.data().is_empty());
}

#[test]
fn archive_round_trip_keeps_names_and_content() {
    let mut z = FastZip::parse(&build_archive(&[], b"")).unwrap();
    z.add_file(b"first file".to_vec(), "one.txt");
    z.add_file(vec![0u8, 1, 2, 3, 250, 251], "two.bin");
    z.add_directory(dir_entry("sub/", 0)).unwrap();
    let out = z.package(9);
    let mut a = FastZip::parse(&out).unwrap();
    let out2 = a.package(9);
    let b = FastZip::parse(&out2).unwrap();
    assert_eq!(names(&a), names(&b));
    assert_eq!(names(&b), vec![b"one.txt".to_vec(), b"two.bin".to_vec(), b"sub/".to_vec()]);
    for n in [&b"one.txt"[..], &b"two.bin"[..]] {
        let mut x = a.directories.get(n).unwrap().try_clone();
        let mut y = b.directories.get(n).unwrap().try_clone();
        x.decompressed().unwrap();
        y.decompressed().unwrap();
        assert_eq!(x.data(), y.data());
        assert_eq!(x.crc_32_uncompressed_data, y.crc_32_uncompressed_data);
    }
}

#[test]
fn snapshot_round_trip() {
    let mut z = FastZip::parse(&deflate_archive()).unwrap();
    z.add_file(b"plain text".to_vec(), "t.txt");
    z.add_directory(dir_entry("dir/", 5)).unwrap();
    z.disable_crc32_computer();
    let mut snap = Vec::new();
    z.to_bin(&mut snap);
    let back = FastZip::from_bin(&snap).unwrap();
    assert_eq!(names(&back), names(&z));
    assert_eq!(back.crc32_computer.value, false);
    for i in 0..z.directories.len() {
        let x = z.directories.get_index(i);
        let y = back.directories.get_index(i);
        assert_eq!(x.data(), y.data());
        assert_eq!(x.compressed(), y.compressed());
        assert_eq!(x.compressed_size, y.compressed_size);
        assert_eq!(x.uncompressed_size, y.uncompressed_size);
        assert_eq!(x.crc_32_uncompressed_data, y.crc_32_uncompressed_data);
        assert_eq!(x.compression_method, y.compression_method);
        assert_eq!(x.offset_of_local_file_header, y.offset_of_local_file_header);
        assert_eq!(x.file.data_position, y.file.data_position);
    }
    let mut again = Vec::new();
    back.to_bin(&mut again);
    assert_eq!(again, snap);
}

#[test]
fn insertion_order_is_kept() {
    let mut z = FastZip::parse(&build_archive(&[], b"")).unwrap();
    z.add_file(b"1".to_vec(), "a");
    z.add_file(b"2".to_vec(), "b");
    z.add_file(b"3".to_vec(), "c");
    z.save_file(b"22".to_vec(), "b");
    z.remove_file("a");
    z.save_file(b"4".to_vec(), "d");
    z.add_file(b"5".to_vec(), "a");
    assert_eq!(names(&z), vec![b"b".to_vec(), b"c".to_vec(), b"d".to_vec(), b"a".to_vec()]);
    assert_eq!(z.directories.get(b"b").unwrap().data(), b"22");
    assert_eq!(z.directories.get(b"b").unwrap().uncompressed_size, 2);
}

#[test]
fn compress_sets_crc_and_sizes() {
    let mut z = FastZip::parse(&build_archive(&[], b"")).unwrap();
    z.add_file(b"hello hello hello hello".to_vec(), "h.txt");
    let mut d = z.directories.get(b"h.txt").unwrap().try_clone();
    d.compress(true, 6);
    assert_eq!(d.crc_32_uncompressed_data, crc32fast::hash(b"hello hello hello hello"));
    assert_eq!(d.file.crc_32_uncompressed_data, d.crc_32_uncompressed_data);
    assert_eq!(d.uncompressed_size, 23);
    assert_eq!(d.compressed_size as usize, d.data().len());
    assert_ne!(d.data(), b"hello hello hello hello");
    let mut e = z.directories.get(b"h.txt").unwrap().try_clone();
    e.compress(false, 6);
    assert_eq!(e.crc_32_uncompressed_data, 0);
}

#[test]
fn eocd_scan_errors() {
    assert!(matches!(
        FastZip::parse(&[0u8; 10]),
        Err(ZipError::BadMagic { reason: BadMagicReason::TooShort, .. })
    ));
    assert!(matches!(
        FastZip::parse(&[0u8; 100]),
        Err(ZipError::BadMagic { reason: BadMagicReason::EocdNotFound, .. })
    ));
    assert!(matches!(
        fast_zip_core::zip::parse_eocd_offset(&[0x50, 0x4B, 0x05, 0x06, 0, 0, 0, 0, 0, 0, 0, 0, 0, 0, 0, 0, 0, 0, 0, 0, 0, 0, 9, 9]),
        Ok(24)
    ));
}

#[test]
fn truncated_and_bad_records() {
    let mut input = hello_archive();
    let cd = u32_at(&input, input.len() - 6) as usize;
    input[cd] = 0;
    assert!(matches!(
        FastZip::parse(&input),
        Err(ZipError::BadMagic { reason: BadMagicReason::Signature, .. })
    ));
    let mut input = hello_archive();
    input[8] = 2;
    assert!(matches!(
        FastZip::parse(&input),
        Err(ZipError::BadMagic { reason: BadMagicReason::CompressionMethod, .. })
    ));
    let mut input = hello_archive();
    let n = input.len();
    input[n - 6] = 0xF0;
    assert!(matches!(FastZip::parse(&input), Err(ZipError::Io { .. })));
}

#[test]
fn name_not_utf8() {
    let input = build_archive(
        &[Member { name: &[0xFF, 0xFE], method: 0, crc: 0, usize: 1, payload: vec![1] }],
        b"",
    );
    assert!(matches!(FastZip::parse(&input), Err(ZipError::NameNotUtf8 { .. })));
    let mut z = FastZip::parse(&build_archive(&[], b"")).unwrap();
    let mut d = dir_entry("ok/", 0);
    d.file_name = Name { inner: vec![0xC3] };
    assert!(matches!(z.add_directory(d), Err(ZipError::NameNotUtf8 { pos: 0 })));
    assert_eq!(z.directories.len(), 0);
    assert!(matches!(Name { inner: vec![0xC3] }.into_string(5), Err(ZipError::NameNotUtf8 { pos: 5 })));
    assert_eq!(Name::from("héllo").into_string(0).unwrap(), "héllo");
}

#[test]
fn decode_failure() {
    let input = build_archive(
        &[Member { name: b"bad", method: 8, crc: 0, usize: 10, payload: vec![0xFF, 0xFF, 0xFF] }],
        b"",
    );
    let z = FastZip::parse(&input).unwrap();
    let mut d = z.directories.get(b"bad").unwrap().try_clone();
    assert!(matches!(d.decompressed(), Err(ZipError::Decode { pos: 0 })));
    assert!(d.compressed());
}

#[test]
fn digests_of_payload() {
    let z = FastZip::parse(&hello_archive()).unwrap();
    let (s1, s256) = z.directories.get(b"hello.txt").unwrap().sha_value();
    assert_eq!(s1.len(), 20);
    assert_eq!(s256.len(), 32);
    let hex = |v: &[u8]| v.iter().map(|b| format!("{:02x}", b)).collect::<String>();
    assert_eq!(hex(&s1), "55ca6286e3e4f4fba5d0448333fa99fc5a404a73");
    assert_eq!(hex(&s256), "98ea6e4f216f2fb4b69fff9b3a44842c38686ca685f3f55dc48c5d3fb1107be4");
    assert_eq!(z.directories.get(b"hello.txt").unwrap().copy_data(), b"hi\n".to_vec());
}

#[test]
fn text_or_binary_detection() {
    assert!(!FastZip::is_binary(b"plain text\n"));
    assert!(FastZip::is_binary(&[0u8, 1, 2, 3]));
    assert!(!FastZip::is_binary(&[]));
    assert!(!FastZip::is_binary(&[0u8, 0, 0, b'a', b'a', b'a', b'a', b'a', b'a', b'a']));
    assert!(FastZip::is_binary(&[0u8, 0, 0, 0, b'a', b'a', b'a', b'a', b'a', b'a']));
    let mut z = FastZip::parse(&build_archive(&[], b"")).unwrap();
    z.add_file(b"text".to_vec(), "t");
    z.add_file(vec![0u8; 10], "b");
    assert_eq!(z.directories.get(b"t").unwrap().internal_file_attributes, 1);
    assert_eq!(z.directories.get(b"b").unwrap().internal_file_attributes, 0);
}

#[test]
fn package_reports_progress() {
    let mut z = FastZip::parse(&build_archive(&[], b"")).unwrap();
    z.add_file(vec![b'q'; 1000], "q.txt");
    z.add_file(vec![], "empty.txt");
    z.add_file(vec![b'r'; 500], "r.txt");
    let mut rec = PackageProgress::new();
    let out = z.package_with_callback(6, &mut rec);
    assert!(!out.is_empty());
    assert_eq!(rec.reports.len(), 2);
    let q = z.directories.get(b"q.txt").unwrap().compressed_size as usize;
    let r = z.directories.get(b"r.txt").unwrap().compressed_size as usize;
    let pct = |s: usize| {
        let h = (s * 10000 + 750) / 1500;
        format!("{}.{:02}%", h / 100, h % 100)
    };
    assert_eq!(rec.reports[0], (1500, q, pct(q)));
    assert_eq!(rec.reports[1], (1500, q + r, pct(q + r)));
    let mut again = PackageProgress::new();
    let _ = z.package_with_callback(6, &mut again);
    assert!(again.reports.is_empty());
}

#[test]
fn entry_callbacks_record_bytes() {
    let mut z = FastZip::parse(&build_archive(&[], b"")).unwrap();
    z.add_file(vec![b'k'; 400], "k.txt");
    z.add_file(vec![], "e.txt");
    let mut d = z.directories.get(b"k.txt").unwrap().try_clone();
    let mut log = ByteProgress::new();
    d.compress_callback(true, 6, &mut log);
    assert_eq!(log.reports, vec![d.data().len()]);
    d.compress_callback(true, 6, &mut log);
    assert_eq!(log.reports.len(), 1);
    d.decompressed_callback(&mut log).unwrap();
    assert_eq!(log.reports, vec![log.reports[0], 400]);
    let mut e = z.directories.get(b"e.txt").unwrap().try_clone();
    let mut none = ByteProgress::new();
    e.compress_callback(true, 6, &mut none);
    e.decompressed_callback(&mut none).unwrap();
    assert!(none.reports.is_empty());
}

#[test]
fn empty_payload_compress_and_decompress() {
    let mut z = FastZip::parse(&build_archive(&[], b"")).unwrap();
    z.add_file(vec![], "e.txt");
    let mut d = z.directories.get(b"e.txt").unwrap().try_clone();
    d.compress(true, 6);
    assert!(d.compressed());
    assert_eq!(d.crc_32_uncompressed_data, 0);
    assert_eq!(d.compressed_size, 0);
    assert_eq!(d.uncompressed_size, 0);
    assert!(d.data().is_empty());
    d.decompressed().unwrap();
    assert!(!d.compressed());
    assert!(d.data().is_empty());
}

#[test]
fn decompress_updates_compressed_size() {
    let z = FastZip::parse(&deflate_archive()).unwrap();
    let mut d = z.directories.get(b"a.txt").unwrap().try_clone();
    assert!(d.compressed_size < 1024);
    d.decompressed().unwrap();
    assert_eq!(d.compressed_size, 1024);
    assert_eq!(d.file.compressed_size, 1024);
    assert_eq!(d.uncompressed_size, 1024);
}

#[test]
fn parsed_empty_deflate_stream_emits_empty_store() {
    let input = build_archive(
        &[Member { name: b"z.txt", method: 8, crc: 0, usize: 0, payload: vec![0x03, 0x00] }],
        b"",
    );
    let mut z = FastZip::parse(&input).unwrap();
    let out = z.package(6);
    assert_eq!(u16_at(&out, 8), 0);
    assert_eq!(u32_at(&out, 18), 0);
    let again = FastZip::parse(&out).unwrap();
    let d = again.directories.get(b"z.txt").unwrap();
    assert_eq!(d.compression_method, CompressionMethod::Store);
    assert!(!d.compressed());
    assert_eq!(d.compressed_size, 0);
    assert!(d.data().is_empty());
}

#[test]
fn short_record_with_wrong_signature() {
    let mut b = vec![0x01u8, 0x02, 0x03, 0x04];
    b.extend(le32(0x06054b50));
    b.extend(le16(0));
    b.extend(le16(0));
    b.extend(le16(1));
    b.extend(le16(1));
    b.extend(le32(4));
    b.extend(le32(0));
    b.extend(le16(0));
    assert_eq!(b.len(), 26);
    assert!(matches!(
        FastZip::parse(&b),
        Err(ZipError::BadMagic { reason: BadMagicReason::Signature, pos: 0 })
    ));
}

#[test]
fn compressed_flag_needs_deflate() {
    let mut z = FastZip::parse(&build_archive(&[], b"")).unwrap();
    let mut d = dir_entry("f.bin", 0);
    d.compressed = Bool { value: true };
    assert!(matches!(
        z.add_directory(d),
        Err(ZipError::BadMagic { reason: BadMagicReason::CompressedNotDeflate, pos: 0 })
    ));
    assert_eq!(z.directories.len(), 0);
    let h = FastZip::parse(&hello_archive()).unwrap();
    let mut snap = Vec::new();
    h.to_bin(&mut snap);
    assert_eq!(snap[19 + 12], 0);
    snap[19 + 12] = 1;
    assert!(matches!(
        FastZip::from_bin(&snap),
        Err(ZipError::BadMagic { reason: BadMagicReason::CompressedNotDeflate, pos: 19 })
    ));
}

#[test]
fn payload_access_and_names() {
    let z = FastZip::parse(&hello_archive()).unwrap();
    let mut d = z.directories.get(b"hello.txt").unwrap().try_clone();
    d.data_mut().push(b'!');
    assert_eq!(d.data(), b"hi\n!");
    assert_eq!(d.compressed_size, 3);
    d.put_data(b"new".to_vec());
    assert_eq!(d.uncompressed_size, 3);
    assert_eq!(d.file.compressed_size, 3);
    assert!(!d.is_dir());
    assert!(Directory::is_file(&d.file_name));
    assert!(!Directory::is_file(&Name::from(String::from("folder/"))));
    assert_eq!(Name::from(String::from("x")).inner, b"x".to_vec());
}

#[test]
fn default_level_constant() {
    let mut z = FastZip::parse(&build_archive(&[], b"")).unwrap();
    z.add_file(vec![b'z'; 300], "z.txt");
    let out = z.package(fast_zip_core::CompressionLevel::DefaultLevel as u8);
    let again = FastZip::parse(&out).unwrap();
    let mut d = again.directories.get(b"z.txt").unwrap().try_clone();
    assert!(d.compressed_size < 300);
    d.decompressed().unwrap();
    assert_eq!(d.data(), &vec![b'z'; 300][..]);
}

#[test]
fn compress_then_decompress_restores_payload() {
    let mut z = FastZip::parse(&build_archive(&[], b"")).unwrap();
    z.add_file(b"some words, some words, some words".to_vec(), "w.txt");
    let mut d = z.directories.get(b"w.txt").unwrap().try_clone();
    d.compress(true, 9);
    assert!(d.compressed());
    assert!(!d.data().is_empty());
    d.decompressed().unwrap();
    assert!(!d.compressed());
    assert_eq!(d.data(), b"some words, some words, some words");
}
