use vstd::prelude::*;
use crate::bytes::{
    copy_range, le16, le32, le64, read_u16, read_u32, read_u64, u16_at, u32_at, u64_at, write_bytes,
    write_pair, write_u16, write_u32, write_u64,
};
use crate::directory::{is_dir_name, method_code, method_of_code, CompressionMethod, Name};
use crate::error::{BadMagicReason, ZipError};
use crate::extra::{extras_bytes, parse_extra_list, Extra, ExtraList};
use crate::zip::ZipModel;

verus! {

pub const LFH_SIGNATURE: u32 = 0x04034b50;

/// A local file header: the per-entry record that precedes the payload.
#[derive(Debug, Clone)]
pub struct ZipFile {
    pub extract_os: u8,
    pub compression_method: CompressionMethod,
    pub last_modification_time: u16,
    pub last_modification_date: u16,
    pub crc_32_uncompressed_data: u32,
    pub compressed_size: u32,
    pub uncompressed_size: u32,
    pub file_name: Name,
    pub extra_fields: ExtraList,
    /// Where the payload starts (archive form), or the value the snapshot stored.
    pub data_position: u64,
}

/// The mathematical content of a local file header.
pub struct ZipFileView {
    pub extract_os: u8,
    pub compression_method: CompressionMethod,
    pub last_modification_time: u16,
    pub last_modification_date: u16,
    pub crc_32_uncompressed_data: u32,
    pub compressed_size: u32,
    pub uncompressed_size: u32,
    pub file_name: Seq<u8>,
    pub extra_fields: Seq<Extra>,
    pub data_position: u64,
}

impl View for ZipFile {
    type V = ZipFileView;

    open spec fn view(&self) -> ZipFileView {
        ZipFileView {
            extract_os: self.extract_os,
            compression_method: self.compression_method,
            last_modification_time: self.last_modification_time,
            last_modification_date: self.last_modification_date,
            crc_32_uncompressed_data: self.crc_32_uncompressed_data,
            compressed_size: self.compressed_size,
            uncompressed_size: self.uncompressed_size,
            file_name: self.file_name@,
            extra_fields: self.extra_fields@,
            data_position: self.data_position,
        }
    }
}

/// The method written for an entry: the archive form writes `Store` for an empty entry.
pub open spec fn emitted_method(m: CompressionMethod, model: ZipModel, uncompressed_size: u32) -> CompressionMethod {
    if model != ZipModel::Bin && uncompressed_size == 0 {
        CompressionMethod::Store
    } else {
        m
    }
}

/// A size or checksum as written: the archive form writes zero when `zeroed` holds (a
/// directory; for the compressed size also an entry forced to `Store` because it is empty).
pub open spec fn emitted_size(v: u32, model: ZipModel, zeroed: bool) -> u32 {
    if model != ZipModel::Bin && zeroed {
        0
    } else {
        v
    }
}

/// The on-wire form of a local file header; `uncompressed_size` is the directory record's.
#[verifier::opaque]
pub open spec fn lfh_bytes(f: ZipFileView, model: ZipModel, uncompressed_size: u32) -> Seq<u8> {
    let dir = is_dir_name(f.file_name);
    le32(LFH_SIGNATURE) + seq![if dir { 0x0au8 } else { 0x0eu8 }, f.extract_os] + le16(0)
        + le16(method_code(emitted_method(f.compression_method, model, uncompressed_size)))
        + le16(f.last_modification_time) + le16(f.last_modification_date) + le32(
        f.crc_32_uncompressed_data,
    ) + le32(emitted_size(f.compressed_size, model, dir || uncompressed_size == 0)) + le32(
        emitted_size(f.uncompressed_size, model, dir),
    ) + le16(f.file_name.len() as u16) + le16(extras_bytes(f.extra_fields).len() as u16)
        + f.file_name + extras_bytes(f.extra_fields) + if model == ZipModel::Bin {
        le64(f.data_position)
    } else {
        Seq::empty()
    }
}

/// Reads a local file header at `p`: the header and the position after it.
#[verifier::opaque]
pub open spec fn parse_lfh(b: Seq<u8>, p: int, model: ZipModel, uncompressed_size: u32) -> Result<
    (ZipFileView, int),
    ZipError,
> {
    if p < 0 || p + 4 > b.len() {
        Err(ZipError::Io { pos: p as u64 })
    } else if u32_at(b, p) != LFH_SIGNATURE {
        Err(ZipError::BadMagic { pos: p as u64, reason: BadMagicReason::Signature })
    } else if p + 30 > b.len() {
        Err(ZipError::Io { pos: p as u64 })
    } else if method_of_code(u16_at(b, p + 8)) is None {
        Err(ZipError::BadMagic { pos: (p + 8) as u64, reason: BadMagicReason::CompressionMethod })
    } else {
        let nlen = u16_at(b, p + 26) as int;
        let elen = u16_at(b, p + 28);
        if p + 30 + nlen > b.len() {
            Err(ZipError::Io { pos: p as u64 })
        } else {
            match parse_extra_list(b, p + 30 + nlen, elen) {
                Err(e) => Err(e),
                Ok((extras, q)) => {
                    if model == ZipModel::Bin && q + 8 > b.len() {
                        Err(ZipError::Io { pos: p as u64 })
                    } else {
                        let m = method_of_code(u16_at(b, p + 8)).unwrap();
                        Ok(
                            (
                                ZipFileView {
                                    extract_os: b[p + 5],
                                    compression_method: if model != ZipModel::Bin
                                        && uncompressed_size == 0 {
                                        CompressionMethod::Store
                                    } else {
                                        m
                                    },
                                    last_modification_time: u16_at(b, p + 10),
                                    last_modification_date: u16_at(b, p + 12),
                                    crc_32_uncompressed_data: u32_at(b, p + 14),
                                    compressed_size: u32_at(b, p + 18),
                                    uncompressed_size: u32_at(b, p + 22),
                                    file_name: b.subrange(p + 30, p + 30 + nlen),
                                    extra_fields: extras,
                                    data_position: if model == ZipModel::Bin {
                                        u64_at(b, q)
                                    } else {
                                        q as u64
                                    },
                                },
                                if model == ZipModel::Bin { q + 8 } else { q },
                            ),
                        )
                    }
                },
            }
        }
    }
}

/// The payload position: read as a `u64` in the snapshot form, else the current position.
pub fn data_position_parse(b: &[u8], q: usize, model: &ZipModel) -> (r: Result<(u64, usize), ZipError>)
    ensures
        *model == ZipModel::Bin ==> match r {
            Ok((v, e)) => q + 8 <= b@.len() && v == u64_at(b@, q as int) && e == q + 8,
            Err(x) => q + 8 > b@.len() && x == ZipError::Io { pos: q as u64 },
        },
        *model != ZipModel::Bin ==> r == Ok::<(u64, usize), ZipError>((q as u64, q)),
{
    if *model == ZipModel::Bin {
        let n: usize = b.len();
        if q > n || n - q < 8 {
            return Err(ZipError::Io { pos: q as u64 });
        }
        return Ok((read_u64(b, q), q + 8));
    }
    Ok((q as u64, q))
}

impl ZipFile {
    /// Appends the header; `uncompressed_size` is the directory record's, which decides
    /// whether the archive form writes `Store`.
    #[verifier::rlimit(60)]
    pub fn write(&self, out: &mut Vec<u8>, model: ZipModel, uncompressed_size: u32)
        ensures
            final(out)@ == old(out)@ + lfh_bytes(self@, model, uncompressed_size),
    {
        reveal(lfh_bytes);
        let dir = self.file_name.is_dir();
        let norm = model != ZipModel::Bin;
        let mut v: Vec<u8> = Vec::new();
        write_u32(&mut v, LFH_SIGNATURE);
        assert(v@ =~= le32(LFH_SIGNATURE));
        write_pair(&mut v, if dir { 0x0a } else { 0x0e }, self.extract_os);
        write_u16(&mut v, 0);
        let method = if norm && uncompressed_size == 0 {
            CompressionMethod::Store
        } else {
            self.compression_method
        };
        write_u16(&mut v, method.code());
        write_u16(&mut v, self.last_modification_time);
        write_u16(&mut v, self.last_modification_date);
        write_u32(&mut v, self.crc_32_uncompressed_data);
        write_u32(&mut v, if norm && (dir || uncompressed_size == 0) { 0 } else { self.compressed_size });
        write_u32(&mut v, if norm && dir { 0 } else { self.uncompressed_size });
        write_u16(&mut v, self.file_name.inner.len() as u16);
        write_u16(&mut v, self.extra_fields.bytes());
        write_bytes(&mut v, self.file_name.inner.as_slice());
        self.extra_fields.write(&mut v);
        if model == ZipModel::Bin {
            write_u64(&mut v, self.data_position);
        } else {
            assert(v@ + Seq::<u8>::empty() =~= v@);
        }
        assert(v@ == lfh_bytes(self@, model, uncompressed_size));
        write_bytes(out, v.as_slice());
    }

    /// Reads a header at `p`; `uncompressed_size` is the directory record's.
    #[verifier::rlimit(60)]
    pub fn parse(b: &[u8], p: usize, model: ZipModel, uncompressed_size: u32) -> (r: Result<
        (ZipFile, usize),
        ZipError,
    >)
        ensures
            match r {
                Ok((f, q)) => parse_lfh(b@, p as int, model, uncompressed_size) == Ok::<
                    (ZipFileView, int),
                    ZipError,
                >((f@, q as int)),
                Err(x) => parse_lfh(b@, p as int, model, uncompressed_size) == Err::<
                    (ZipFileView, int),
                    ZipError,
                >(x),
            },
    {
        reveal(parse_lfh);
        let n: usize = b.len();
        if p > n || n - p < 4 {
            return Err(ZipError::Io { pos: p as u64 });
        }
        if read_u32(b, p) != LFH_SIGNATURE {
            return Err(ZipError::BadMagic { pos: p as u64, reason: BadMagicReason::Signature });
        }
        if n - p < 30 {
            return Err(ZipError::Io { pos: p as u64 });
        }
        let m = match CompressionMethod::from_code(read_u16(b, p + 8)) {
            Some(m) => m,
            None => {
                return Err(
                    ZipError::BadMagic {
                        pos: (p + 8) as u64,
                        reason: BadMagicReason::CompressionMethod,
                    },
                );
            },
        };
        let nlen = read_u16(b, p + 26) as usize;
        let elen = read_u16(b, p + 28);
        if n - p - 30 < nlen {
            return Err(ZipError::Io { pos: p as u64 });
        }
        let file_name = Name { inner: copy_range(b, p + 30, nlen) };
        let (extra_fields, q) = match ExtraList::parse(b, p + 30 + nlen, elen) {
            Ok(v) => v,
            Err(e) => {
                return Err(e);
            },
        };
        proof {
            crate::extra::lemma_parse_extra_list_bounds(b@, (p + 30 + nlen) as int, elen);
        }
        let (data_position, end) = match data_position_parse(b, q, &model) {
            Ok(v) => v,
            Err(_) => {
                return Err(ZipError::Io { pos: p as u64 });
            },
        };
        let f = ZipFile {
            extract_os: b[p + 5],
            compression_method: if model != ZipModel::Bin && uncompressed_size == 0 {
                CompressionMethod::Store
            } else {
                m
            },
            last_modification_time: read_u16(b, p + 10),
            last_modification_date: read_u16(b, p + 12),
            crc_32_uncompressed_data: read_u32(b, p + 14),
            compressed_size: read_u32(b, p + 18),
            uncompressed_size: read_u32(b, p + 22),
            file_name,
            extra_fields,
            data_position,
        };
        Ok((f, end))
    }
}

/// The records that padding writes for a directory entry with no extra fields.
pub open spec fn directory_padding() -> Seq<Extra> {
    seq![
        Extra::UnixExtendedTimestamp { mtime: Some(0x66C2AB60i32), atime: None, ctime: None },
        Extra::UnixAttrs { uid: 0x1F7u32, gid: 0x14u32 },
    ]
}

fn padding_list() -> (r: ExtraList)
    ensures
        r@ == directory_padding(),
{
    let mut v: Vec<Extra> = Vec::new();
    v.push(Extra::UnixExtendedTimestamp { mtime: Some(0x66C2AB60i32), atime: None, ctime: None });
    v.push(Extra::UnixAttrs { uid: 0x1F7u32, gid: 0x14u32 });
    assert(v@ =~= directory_padding());
    ExtraList(v)
}

/// The extra-field length to write when a directory without extra fields is padded: the
/// padding's length, else `extra_field_length`.
pub fn extra_fields_bytes(extra_field_length: u16, count: u16, is_dir: bool) -> (r: u16)
    ensures
        r == if is_dir && count == 0 {
            extras_bytes(directory_padding()).len() as u16
        } else {
            extra_field_length
        },
{
    if is_dir && count == 0 {
        padding_list().bytes()
    } else {
        extra_field_length
    }
}

/// Writes the extra fields, padding a directory that has none.
pub fn extra_fields_write(value: &ExtraList, is_dir: bool, out: &mut Vec<u8>)
    ensures
        final(out)@ == old(out)@ + extras_bytes(
            if is_dir && value@.len() == 0 {
                directory_padding()
            } else {
                value@
            },
        ),
{
    if is_dir && value.0.len() == 0 {
        padding_list().write(out);
    } else {
        value.write(out);
    }
}

} // verus!
